use ncdprime::eta::{EtaEstimator, Sample};

#[test]
fn zero_sized_and_zero_timed_samples_are_dropped() {
    let mut est = EtaEstimator::default();
    est.add(Sample { input_bytes: 0, wall_nanos: 5 });
    est.add(Sample { input_bytes: 5, wall_nanos: 0 });
    assert_eq!(est.sample_count(), 0);
    est.add(Sample { input_bytes: 5, wall_nanos: 5 });
    assert_eq!(est.sample_count(), 1);
}

#[test]
fn no_prediction_without_a_fit() {
    let mut est = EtaEstimator::default();
    est.add(Sample { input_bytes: 100, wall_nanos: 100 });
    assert!(est.predict(1_000).is_none());
    assert!(est.estimate_remaining(&[1_000u64]).is_none());
}

#[test]
fn refit_with_too_few_samples_clears_the_fit() {
    let mut est = EtaEstimator::default();
    est.add(Sample { input_bytes: 100, wall_nanos: 100 });
    est.refit_first_n(6);
    assert!(est.predict(1_000).is_none());
}

#[test]
fn no_prediction_for_zero_bytes() {
    let mut est = EtaEstimator::default();
    for n in [100u64, 200, 300] {
        est.add(Sample { input_bytes: n, wall_nanos: 10 * n });
    }
    est.refit_first_n(3);
    assert!(est.predict(0).is_none());
    assert!(est.estimate_remaining(&[0u64, 0, 0]).is_none());
}

#[test]
fn zero_size_variance_falls_back_to_mean_time() {
    let mut est = EtaEstimator::default();
    est.add(Sample { input_bytes: 100, wall_nanos: 10 });
    est.add(Sample { input_bytes: 100, wall_nanos: 20 });
    est.refit_first_n(2);
    // All sizes equal: slope 0, intercept the mean time.
    assert_eq!(est.predict(1).unwrap(), 15);
    assert_eq!(est.predict(1_000_000).unwrap(), 15);
}

#[test]
fn exact_fit_on_exactly_linear_samples() {
    let mut est = EtaEstimator::default();
    for n in [1_000u64, 2_000, 3_000, 4_000] {
        est.add(Sample { input_bytes: n, wall_nanos: 7 * n + 40 });
    }
    est.refit_first_n(4);
    assert_eq!(est.predict(10_000).unwrap(), 70_040);
    assert_eq!(est.estimate_remaining(&[10_000u64, 0, 10_000]).unwrap(), 140_080);
}
