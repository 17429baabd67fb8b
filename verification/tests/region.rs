use point_sampler::region::{
    change_region, Axis, AxisRange, Edge, InputPoints, RegionUpdate, MAX_LEN,
};
use std::cell::Cell;

fn every(_draw: u32, _from: u32, _to: u32) -> u32 {
    0
}

fn none(_draw: u32, _from: u32, _to: u32) -> u32 {
    u32::MAX
}

fn square(side: i32, max_len: u32) -> InputPoints {
    InputPoints::new(AxisRange::new(0, side), AxisRange::new(0, side), max_len)
}

fn dirty_of(p: &InputPoints) -> Vec<u32> {
    (0..p.len()).filter(|i| p.modified().contains(*i)).collect()
}

#[test]
fn axis_range_ignores_the_order_of_its_endpoints() {
    let r = AxisRange::new(7, -3);
    assert_eq!(r.lower(), -3);
    assert_eq!(r.upper(), 7);
    assert_eq!(r.extent(), 10);
    assert!(r.holds(-3));
    assert!(r.holds(7));
    assert!(!r.holds(8));
    assert!(!r.holds(-4));
    let full = AxisRange::new(i32::MIN, i32::MAX);
    assert_eq!(full.extent(), u32::MAX);
    assert_eq!(AxisRange::new(5, 5).extent(), 0);
}

#[test]
fn new_points_start_empty() {
    let p = square(100, 10);
    assert_eq!(p.len(), 0);
    assert_eq!(p.max_len(), 10);
    assert!(p.refresh_random());
    assert_eq!(p.refresh_rate(), 100);
    assert!(p.modified().is_empty());
    assert_eq!(p.x_range(), AxisRange::new(0, 100));
    assert_eq!(p.y_range(), AxisRange::new(0, 100));
}

#[test]
fn the_ceiling_respects_the_hard_bound() {
    let p = square(100, u32::MAX);
    assert_eq!(p.max_len(), MAX_LEN);
    assert_eq!(MAX_LEN, 1 << 20);
    let mut q = square(100, 10);
    q.set_max_len(MAX_LEN + 1);
    assert_eq!(q.max_len(), MAX_LEN);
}

#[test]
fn resize_then_shrink_a_bound() {
    let mut p = square(100, 10);
    p.resize(5);
    assert_eq!(p.len(), 5);
    assert_eq!(dirty_of(&p), vec![0, 1, 2, 3, 4]);
    assert_eq!(p.modified().len(), 5);
    for i in 0..5 {
        assert!((0..=100).contains(&p.x_vec()[i]));
        assert!((0..=100).contains(&p.y_vec()[i]));
    }
    let xs = p.x_vec().clone();
    let ys = p.y_vec().clone();
    p.move_bound(Axis::X, Edge::End, 50, none);
    assert_eq!(p.x_range(), AxisRange::new(0, 50));
    assert_eq!(p.y_range(), AxisRange::new(0, 100));
    assert_eq!(dirty_of(&p), vec![0, 1, 2, 3, 4]);
    assert_eq!(p.y_vec(), &ys);
    for i in 0..5 {
        if xs[i] > 50 {
            assert!((0..=50).contains(&p.x_vec()[i]));
        } else {
            assert_eq!(p.x_vec()[i], xs[i]);
        }
    }
}

#[test]
fn shrink_marks_exactly_the_points_that_fell_outside() {
    let mut p = square(1000, 500);
    p.resize(500);
    assert_eq!(p.take_dirty(usize::MAX).len(), 500);
    let xs = p.x_vec().clone();
    change_region(RegionUpdate::StartX(600), &mut p, none);
    assert_eq!(p.x_range(), AxisRange::new(600, 1000));
    let mut outside = 0;
    for i in 0..500u32 {
        let before = xs[i as usize];
        let after = p.x_vec()[i as usize];
        assert!((600..=1000).contains(&after));
        if before < 600 {
            outside += 1;
            assert!(p.modified().contains(i));
        } else {
            assert_eq!(after, before);
            assert!(!p.modified().contains(i));
        }
    }
    assert_eq!(p.modified().len(), outside);
    assert!(outside > 0);
}

#[test]
fn shrink_on_the_other_axis_leaves_x_alone() {
    let mut p = square(1000, 200);
    p.resize(200);
    p.take_dirty(200);
    let xs = p.x_vec().clone();
    change_region(RegionUpdate::EndY(10), &mut p, none);
    assert_eq!(p.x_vec(), &xs);
    assert_eq!(p.y_range(), AxisRange::new(0, 10));
    for i in 0..200 {
        assert!((0..=10).contains(&p.y_vec()[i]));
    }
}

#[test]
fn shrink_to_an_inverted_range_uses_its_span() {
    let mut p = square(100, 50);
    p.resize(50);
    p.take_dirty(50);
    p.move_bound(Axis::X, Edge::Start, 130, none);
    assert_eq!(p.x_range(), AxisRange::new(130, 100));
    for i in 0..50 {
        assert!((100..=130).contains(&p.x_vec()[i]));
    }
}

#[test]
fn a_move_that_keeps_the_span_changes_no_point() {
    let mut p = InputPoints::new(AxisRange::new(0, 5), AxisRange::new(0, 5), 20);
    p.resize(20);
    p.take_dirty(20);
    let xs = p.x_vec().clone();
    p.move_bound(Axis::X, Edge::End, -5, every);
    assert_eq!(p.x_range(), AxisRange::new(0, -5));
    assert_eq!(p.x_vec(), &xs);
    assert!(p.modified().is_empty());
    p.move_bound(Axis::X, Edge::End, -5, every);
    assert_eq!(p.x_vec(), &xs);
    assert!(p.modified().is_empty());
}

#[test]
fn growth_with_zero_skips_moves_every_point_into_the_band() {
    let mut p = square(100, 30);
    p.resize(30);
    p.take_dirty(30);
    let ys = p.y_vec().clone();
    p.move_bound(Axis::X, Edge::End, 200, every);
    assert_eq!(p.x_range(), AxisRange::new(0, 200));
    assert_eq!(p.y_vec(), &ys);
    assert_eq!(p.modified().len(), 30);
    for i in 0..30 {
        assert!((101..=199).contains(&p.x_vec()[i]));
    }
}

#[test]
fn growth_downwards_uses_the_band_below_the_old_bound() {
    let mut p = square(100, 30);
    p.resize(30);
    p.take_dirty(30);
    change_region(RegionUpdate::StartY(-50), &mut p, every);
    assert_eq!(p.y_range(), AxisRange::new(-50, 100));
    for i in 0..30 {
        assert!((-49..=-1).contains(&p.y_vec()[i]));
    }
}

#[test]
fn growth_with_a_skip_beyond_the_points_moves_none() {
    let mut p = square(100, 30);
    p.resize(30);
    p.take_dirty(30);
    let xs = p.x_vec().clone();
    p.move_bound(Axis::X, Edge::End, 200, none);
    assert_eq!(p.x_range(), AxisRange::new(0, 200));
    assert_eq!(p.x_vec(), &xs);
    assert!(p.modified().is_empty());
}

#[test]
fn growth_with_constant_skips_moves_every_third_point() {
    let mut p = square(100, 30);
    p.resize(30);
    p.take_dirty(30);
    let xs = p.x_vec().clone();
    p.move_bound(Axis::X, Edge::End, 1000, |_, _, _| 2);
    for i in 0..30u32 {
        if i % 3 == 2 {
            assert!(p.modified().contains(i));
            assert!((101..=999).contains(&p.x_vec()[i as usize]));
        } else {
            assert!(!p.modified().contains(i));
            assert_eq!(p.x_vec()[i as usize], xs[i as usize]);
        }
    }
}

#[test]
fn growth_hands_the_spans_to_the_skip_function() {
    let mut p = square(100, 4);
    p.resize(4);
    let seen = Cell::new((0u32, 0u32));
    let calls = Cell::new(0u32);
    p.move_bound(Axis::Y, Edge::Start, -20, |_, from, to| {
        seen.set((from, to));
        calls.set(calls.get() + 1);
        0
    });
    assert_eq!(seen.get(), (100, 120));
    assert_eq!(calls.get(), 5);
}

#[test]
fn growth_by_one_has_an_empty_band() {
    let mut p = square(100, 30);
    p.resize(30);
    p.take_dirty(30);
    let xs = p.x_vec().clone();
    let calls = Cell::new(0u32);
    p.move_bound(Axis::X, Edge::End, 101, |_, _, _| {
        calls.set(calls.get() + 1);
        0
    });
    assert_eq!(p.x_range(), AxisRange::new(0, 101));
    assert_eq!(p.x_vec(), &xs);
    assert!(p.modified().is_empty());
    assert_eq!(calls.get(), 0);
}

#[test]
fn growth_between_the_extremes_does_not_overflow() {
    let mut p = InputPoints::new(AxisRange::new(0, i32::MAX), AxisRange::new(0, 0), 8);
    p.resize(8);
    p.take_dirty(8);
    p.move_bound(Axis::X, Edge::End, i32::MIN, every);
    assert_eq!(p.x_range(), AxisRange::new(0, i32::MIN));
    for i in 0..8 {
        assert!(p.x_vec()[i] > i32::MIN && p.x_vec()[i] < i32::MAX);
    }
    assert_eq!(p.modified().len(), 8);
}

#[test]
fn resize_is_cut_down_to_the_ceiling() {
    let mut p = square(100, 10);
    change_region(RegionUpdate::SetLen(25), &mut p, none);
    assert_eq!(p.len(), 10);
    assert_eq!(p.x_vec().len(), 10);
    assert_eq!(p.y_vec().len(), 10);
    assert_eq!(dirty_of(&p), (0..10).collect::<Vec<u32>>());
}

#[test]
fn resize_down_drops_points_and_their_dirty_marks() {
    let mut p = square(100, 10);
    p.resize(8);
    let xs = p.x_vec().clone();
    let ys = p.y_vec().clone();
    p.resize(3);
    assert_eq!(p.len(), 3);
    assert_eq!(p.x_vec()[..], xs[..3]);
    assert_eq!(p.y_vec()[..], ys[..3]);
    assert_eq!(dirty_of(&p), vec![0, 1, 2]);
    assert_eq!(p.modified().len(), 3);
}

#[test]
fn resize_to_the_same_length_changes_nothing() {
    let mut p = square(100, 10);
    p.resize(6);
    p.take_dirty(4);
    let xs = p.x_vec().clone();
    p.resize(6);
    assert_eq!(p.x_vec(), &xs);
    assert_eq!(dirty_of(&p), vec![4, 5]);
}

#[test]
fn resize_up_keeps_the_old_points_and_marks_the_new() {
    let mut p = square(100, 100);
    p.resize(10);
    p.take_dirty(10);
    let xs = p.x_vec().clone();
    p.resize(15);
    assert_eq!(p.x_vec()[..10], xs[..]);
    assert_eq!(dirty_of(&p), vec![10, 11, 12, 13, 14]);
}

#[test]
fn resize_in_an_inverted_rectangle_stays_between_the_endpoints() {
    let mut p = InputPoints::new(AxisRange::new(10, -10), AxisRange::new(3, 3), 200);
    p.resize(200);
    for i in 0..200 {
        assert!((-10..=10).contains(&p.x_vec()[i]));
        assert_eq!(p.y_vec()[i], 3);
    }
}

#[test]
fn lowering_the_ceiling_drops_the_points_beyond_it() {
    let mut p = square(100, 10);
    p.resize(10);
    p.set_max_len(4);
    assert_eq!(p.max_len(), 4);
    assert_eq!(p.len(), 4);
    assert_eq!(dirty_of(&p), vec![0, 1, 2, 3]);
    assert_eq!(p.modified().len(), 4);
    p.set_max_len(9);
    assert_eq!(p.len(), 4);
    assert_eq!(p.max_len(), 9);
}

#[test]
fn single_point_operations() {
    let mut p = square(100, 10);
    p.push_point(1, 2);
    p.push_point(3, 4);
    assert_eq!(p.len(), 2);
    assert!(p.modified().is_empty());
    p.place(0, 10, 20);
    assert_eq!(p.coord(Axis::X, 0), 10);
    assert_eq!(p.coord(Axis::Y, 0), 20);
    assert!(p.modified().is_empty());
    p.relocate(Axis::Y, 1, 40);
    assert_eq!(p.coord(Axis::X, 1), 3);
    assert_eq!(p.coord(Axis::Y, 1), 40);
    assert_eq!(dirty_of(&p), vec![1]);
    assert!(p.mark_dirty(0));
    assert!(!p.mark_dirty(2));
    assert_eq!(p.pop_dirty(), Some(0));
    assert_eq!(p.pop_dirty(), Some(1));
    assert_eq!(p.pop_dirty(), None);
    p.truncate(1);
    assert_eq!(p.len(), 1);
    assert_eq!(p.range(Axis::X), AxisRange::new(0, 100));
}

#[test]
fn sampled_coordinates_spread_over_the_range() {
    let mut p = square(1_000_000, 1000);
    p.resize(1000);
    let mut xs = p.x_vec().clone();
    xs.sort();
    xs.dedup();
    assert!(xs.len() > 900);
    assert!(xs[0] < 100_000);
    assert!(xs[xs.len() - 1] > 900_000);
    let mut ys = p.y_vec().clone();
    ys.sort();
    ys.dedup();
    assert!(ys.len() > 900);
}

fn geometric_skip(draw: u32, from: u32, to: u32) -> u32 {
    let p = (to - from) as f32 / (to as f32 + 1.0);
    let eps = 1.0 / (1u64 << 32) as f32;
    let x = draw as f32 * eps;
    (f32::ln_1p(-x) * (1.0 / f32::ln_1p(-p))) as u32
}

#[test]
fn growth_includes_each_point_at_the_rate_of_the_new_share() {
    let n = 20_000u32;
    let mut p = square(1000, n);
    p.resize(n);
    p.take_dirty(n as usize);
    p.move_bound(Axis::X, Edge::End, 2000, geometric_skip);
    let moved = p.modified().len() as f64;
    let rate = moved / n as f64;
    let expected = 1000.0 / 2001.0;
    assert!((rate - expected).abs() < 0.03, "rate {}", rate);
    for i in 0..n {
        let x = p.x_vec()[i as usize];
        assert_eq!(p.modified().contains(i), x > 1000);
        assert!((0..=1999).contains(&x));
    }
}

#[test]
fn growth_draws_once_for_each_moved_point_and_once_more() {
    let n = 100_000u32;
    let mut p = square(1_000_000, n);
    p.resize(n);
    p.take_dirty(n as usize);
    let draws = Cell::new(0usize);
    p.move_bound(Axis::X, Edge::End, 1_001_000, |draw, from, to| {
        draws.set(draws.get() + 1);
        geometric_skip(draw, from, to)
    });
    let moved = p.modified().len();
    assert_eq!(draws.get(), moved + 1);
    assert!(moved < 1000, "moved {}", moved);
}
