use point_sampler::growth::GrowthSampler;

#[test]
fn zero_skips_select_every_index() {
    let mut s = GrowthSampler::new(4);
    assert_eq!(s.advance(0), Some(0));
    assert_eq!(s.advance(0), Some(1));
    assert_eq!(s.advance(0), Some(2));
    assert_eq!(s.advance(0), Some(3));
    assert!(s.is_exhausted());
    assert_eq!(s.advance(0), None);
}

#[test]
fn skips_pass_over_indices() {
    let mut s = GrowthSampler::new(10);
    assert_eq!(s.advance(2), Some(2));
    assert_eq!(s.advance(0), Some(3));
    assert_eq!(s.advance(5), Some(9));
    assert!(s.is_exhausted());
    assert_eq!(s.advance(0), None);
}

#[test]
fn a_skip_beyond_the_range_ends_the_selection() {
    let mut s = GrowthSampler::new(10);
    assert_eq!(s.advance(3), Some(3));
    assert!(!s.is_exhausted());
    assert_eq!(s.advance(6), None);
    assert!(s.is_exhausted());
    assert_eq!(s.advance(0), None);
}

#[test]
fn the_largest_skip_selects_nothing() {
    let mut s = GrowthSampler::new(usize::MAX);
    assert_eq!(s.advance(u32::MAX - 1), Some(u32::MAX as usize - 1));
    let mut t = GrowthSampler::new(1_000_000);
    assert_eq!(t.advance(u32::MAX), None);
    assert!(t.is_exhausted());
}

#[test]
fn an_empty_range_is_exhausted_at_once() {
    let mut s = GrowthSampler::new(0);
    assert!(s.is_exhausted());
    assert_eq!(s.advance(0), None);
}
