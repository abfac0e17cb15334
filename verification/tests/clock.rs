use bevy_ggrs::clock::saturate_nanos;

#[test]
fn nanoseconds_that_fit_are_kept() {
    assert_eq!(saturate_nanos(0), 0);
    assert_eq!(saturate_nanos(16_666_667), 16_666_667);
    assert_eq!(saturate_nanos(u64::MAX as u128), u64::MAX);
}

#[test]
fn nanoseconds_beyond_64_bits_saturate() {
    assert_eq!(saturate_nanos(u64::MAX as u128 + 1), u64::MAX);
    assert_eq!(saturate_nanos(u128::MAX), u64::MAX);
}
