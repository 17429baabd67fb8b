use point_sampler::batch::{periodic_updates, test_batched_gen, UpdateBuffer};
use point_sampler::region::{AxisRange, InputPoints};

fn square(side: i32, max_len: u32) -> InputPoints {
    InputPoints::new(AxisRange::new(0, side), AxisRange::new(0, side), max_len)
}

fn check_mirror(batch: &UpdateBuffer, p: &InputPoints) {
    assert_eq!(batch.len(), batch.idxs().len());
    assert_eq!(batch.len(), batch.xs().len());
    assert_eq!(batch.len(), batch.ys().len());
    let mut sorted = batch.idxs().clone();
    sorted.sort();
    sorted.dedup();
    assert_eq!(sorted.len(), batch.len());
    for k in 0..batch.len() {
        let i = batch.idxs()[k] as usize;
        assert_eq!(batch.xs()[k], p.x_vec()[i]);
        assert_eq!(batch.ys()[k], p.y_vec()[i]);
    }
}

#[test]
fn record_appends_new_indices() {
    let mut b = UpdateBuffer::new();
    assert_eq!(b.len(), 0);
    b.record(5, 1, 2);
    b.record(3, 4, 6);
    assert_eq!(b.idxs(), &vec![5, 3]);
    assert_eq!(b.xs(), &vec![1, 4]);
    assert_eq!(b.ys(), &vec![2, 6]);
}

#[test]
fn record_overwrites_a_repeated_index() {
    let mut b = UpdateBuffer::new();
    b.record(5, 1, 2);
    b.record(3, 4, 6);
    b.record(5, 10, 20);
    b.record(9, 7, 8);
    b.record(3, -4, -6);
    b.record(5, 100, 200);
    assert_eq!(b.len(), 3);
    assert_eq!(b.idxs(), &vec![5, 3, 9]);
    assert_eq!(b.xs(), &vec![100, -4, 7]);
    assert_eq!(b.ys(), &vec![200, -6, 8]);
}

#[test]
fn tick_drains_the_dirty_set_and_stops_early() {
    let mut p = square(100, 10);
    p.resize(8);
    assert_eq!(p.take_dirty(8).len(), 8);
    assert!(p.mark_dirty(7));
    assert!(p.mark_dirty(2));
    p.set_refresh_rate(3);
    p.set_refresh_random(false);
    let xs = p.x_vec().clone();
    let ys = p.y_vec().clone();
    let batch = periodic_updates(&mut p);
    assert_eq!(batch.idxs(), &vec![2, 7]);
    assert_eq!(batch.xs(), &vec![xs[2], xs[7]]);
    assert_eq!(batch.ys(), &vec![ys[2], ys[7]]);
    assert!(p.modified().is_empty());
    assert_eq!(p.len(), 8);
    assert_eq!(p.x_vec(), &xs);
    assert_eq!(p.y_vec(), &ys);
    let again = periodic_updates(&mut p);
    assert_eq!(again.len(), 0);
}

#[test]
fn tick_takes_no_more_than_its_rate() {
    let mut p = square(100, 10);
    p.resize(10);
    p.set_refresh_rate(4);
    p.set_refresh_random(false);
    let first = periodic_updates(&mut p);
    assert_eq!(first.idxs(), &vec![0, 1, 2, 3]);
    check_mirror(&first, &p);
    assert_eq!(p.modified().len(), 6);
    let second = periodic_updates(&mut p);
    assert_eq!(second.idxs(), &vec![4, 5, 6, 7]);
    let third = periodic_updates(&mut p);
    assert_eq!(third.idxs(), &vec![8, 9]);
    assert!(p.modified().is_empty());
}

#[test]
fn tick_at_rate_zero_does_nothing() {
    let mut p = square(100, 10);
    p.resize(5);
    p.set_refresh_rate(0);
    let batch = periodic_updates(&mut p);
    assert_eq!(batch.len(), 0);
    assert_eq!(p.modified().len(), 5);
    assert_eq!(p.len(), 5);
}

#[test]
fn idle_tick_appends_points_up_to_the_ceiling() {
    let mut p = square(100, 10);
    p.set_refresh_rate(4);
    let batch = periodic_updates(&mut p);
    assert_eq!(batch.idxs(), &vec![0, 1, 2, 3]);
    assert_eq!(p.len(), 4);
    assert!(p.modified().is_empty());
    check_mirror(&batch, &p);
    for k in 0..4 {
        assert!((0..=100).contains(&batch.xs()[k]));
        assert!((0..=100).contains(&batch.ys()[k]));
    }
    periodic_updates(&mut p);
    let last = periodic_updates(&mut p);
    assert_eq!(p.len(), 10);
    assert!(last.len() >= 2 && last.len() <= 4);
    assert_eq!(last.idxs()[..2], [8, 9]);
    check_mirror(&last, &p);
}

#[test]
fn tick_drains_before_it_refreshes() {
    let mut p = square(100, 6);
    p.resize(3);
    p.set_refresh_rate(5);
    let batch = periodic_updates(&mut p);
    assert_eq!(batch.idxs(), &vec![0, 1, 2, 3, 4]);
    assert_eq!(p.len(), 5);
    assert!(p.modified().is_empty());
    check_mirror(&batch, &p);
}

#[test]
fn a_full_point_set_is_refreshed_without_repeating_an_index() {
    let mut p = square(1000, 4);
    p.resize(4);
    p.take_dirty(4);
    p.set_refresh_rate(64);
    let before_x = p.x_vec().clone();
    let before_y = p.y_vec().clone();
    let batch = periodic_updates(&mut p);
    assert_eq!(p.len(), 4);
    assert!(batch.len() >= 1 && batch.len() <= 4);
    check_mirror(&batch, &p);
    for i in 0..4u32 {
        let x = p.x_vec()[i as usize];
        let y = p.y_vec()[i as usize];
        assert!((0..=1000).contains(&x));
        assert!((0..=1000).contains(&y));
        if !batch.idxs().contains(&i) {
            assert_eq!(x, before_x[i as usize]);
            assert_eq!(y, before_y[i as usize]);
        }
    }
}

#[test]
fn a_drained_index_that_is_refreshed_again_keeps_one_entry() {
    let mut p = square(1_000_000, 1);
    p.resize(1);
    p.set_refresh_rate(10);
    let batch = periodic_updates(&mut p);
    assert_eq!(batch.idxs(), &vec![0]);
    assert_eq!(batch.xs(), &vec![p.x_vec()[0]]);
    assert_eq!(batch.ys(), &vec![p.y_vec()[0]]);
    assert!(p.modified().is_empty());
}

#[test]
fn tick_without_room_for_a_point_stops() {
    let mut p = square(100, 0);
    p.set_refresh_rate(5);
    let batch = periodic_updates(&mut p);
    assert_eq!(batch.len(), 0);
    assert_eq!(p.len(), 0);
}

#[test]
fn tick_in_an_inverted_rectangle_stays_between_the_endpoints() {
    let mut p = InputPoints::new(AxisRange::new(5, -5), AxisRange::new(70, 60), 50);
    p.set_refresh_rate(50);
    let batch = periodic_updates(&mut p);
    assert_eq!(batch.len(), 50);
    for k in 0..50 {
        assert!((-5..=5).contains(&batch.xs()[k]));
        assert!((60..=70).contains(&batch.ys()[k]));
    }
}

#[test]
fn evaluators_get_one_output_for_each_entry() {
    let mut b = UpdateBuffer::new();
    b.record(4, 1, 2);
    b.record(1, 3, 4);
    b.record(4, 5, 6);
    let outputs = b.evaluate(&[7, 0, 2], |id, x, y| (id as f32) * 100.0 + (x * 10 + y) as f32);
    assert_eq!(outputs.len(), 3);
    assert_eq!(outputs[0], (7, vec![756.0, 734.0]));
    assert_eq!(outputs[1], (0, vec![56.0, 34.0]));
    assert_eq!(outputs[2], (2, vec![256.0, 234.0]));
    let empty: Vec<(u32, Vec<i64>)> = b.evaluate(&[], |_, _, _| 0i64);
    assert!(empty.is_empty());
}

#[test]
fn batched_evaluation_is_in_input_order() {
    let x = [1, 2, 3, 4];
    let y = [10, 20, 30, 40];
    let mut r = [0.0f32; 4];
    test_batched_gen(&x, &y, &mut r, |a, b| (a + b) as f32 * 0.5);
    assert_eq!(r, [5.5, 11.0, 16.5, 22.0]);
    let mut none: [i32; 0] = [];
    test_batched_gen(&[], &[], &mut none, |a, b| a - b);
}
