use graph_calc::plot::{clamp_samples, MAX_SAMPLES, MIN_SAMPLES};

#[test]
fn clamp_keeps_counts_in_range() {
    assert_eq!(clamp_samples(128), 128);
    assert_eq!(clamp_samples(0), MIN_SAMPLES);
    assert_eq!(clamp_samples(63), 64);
    assert_eq!(clamp_samples(64), 64);
    assert_eq!(clamp_samples(20_000), 20_000);
    assert_eq!(clamp_samples(20_001), MAX_SAMPLES);
    assert_eq!(clamp_samples(usize::MAX), 20_000);
    assert_eq!(clamp_samples(clamp_samples(5)), clamp_samples(5));
}
