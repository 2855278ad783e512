use pressr::histogram::{LatencyHistogram, MAX_TRACKABLE_MS};
use pressr::result::{LoadTestResults, RequestResult};

#[test]
fn empty_histogram_answers_nothing() {
    let h = LatencyHistogram::new();
    assert_eq!(h.value_at_permille(500), None);
    assert_eq!(h.value_at_permille(999), None);
}

#[test]
fn small_exact_values() {
    let mut h = LatencyHistogram::new();
    h.record(5);
    h.record(10);
    // the median rank falls on the first sample, the top on the second
    assert_eq!(h.value_at_permille(500), Some(5));
    assert_eq!(h.value_at_permille(1000), Some(10));
    assert_eq!(h.len(), 2);
}

#[test]
fn percentiles_are_monotone_in_p() {
    let mut h = LatencyHistogram::new();
    for v in [3u64, 8, 8, 21, 100, 450, 2047, 5000, 70000, 1_000_000] {
        h.record(v);
    }
    let permilles = [0u64, 100, 250, 500, 750, 900, 950, 990, 999, 1000];
    let mut last = 0u64;
    for p in permilles {
        let v = h.value_at_permille(p).expect("samples were recorded");
        assert!(v >= last, "value at {} fell below the previous permille", p);
        last = v;
    }
}

#[test]
fn small_values_are_kept_exact() {
    let mut h = LatencyHistogram::new();
    for v in [0u64, 1, 2, 1000, 2047] {
        h.record(v);
    }
    assert_eq!(h.value_at_permille(0), Some(0));
    assert_eq!(h.value_at_permille(1000), Some(2047));
}

#[test]
fn large_values_keep_bounded_relative_error() {
    let mut h = LatencyHistogram::new();
    h.record(1_000_000);
    let v = h.value_at_permille(1000).expect("one sample was recorded");
    assert!(v <= 1_000_000);
    assert!((1_000_000 - v) * 1024 <= 1_000_000);
}

#[test]
fn ceiling_and_beyond_share_one_bucket() {
    // the boundary value and one value above it are clamped together
    let mut low = LatencyHistogram::new();
    low.record(MAX_TRACKABLE_MS);
    let mut high = LatencyHistogram::new();
    high.record(MAX_TRACKABLE_MS + 1);
    let a = low.value_at_permille(1000).unwrap();
    let b = high.value_at_permille(1000).unwrap();
    assert_eq!(a, b);
    assert!(a <= MAX_TRACKABLE_MS);
}

#[test]
fn aggregate_percentiles_use_successes_only() {
    let mut outcomes = Vec::new();
    for _ in 0..9 {
        outcomes.push(RequestResult::success(200, "OK".to_string(), 10, 1));
    }
    // one very slow failure must not move the percentiles
    outcomes.push(RequestResult::error("timeout".to_string(), 30_000));
    let r = LoadTestResults::new(outcomes, 500);
    assert_eq!(r.percentiles.len(), 5);
    let labels: Vec<u64> = r.percentiles.iter().map(|p| p.0).collect();
    assert_eq!(labels, vec![500, 900, 950, 990, 999]);
    for (_, v) in &r.percentiles {
        assert_eq!(*v, 10);
    }
}

#[test]
fn aggregate_percentiles_are_monotone() {
    let mut outcomes = Vec::new();
    for v in [5u64, 9, 14, 20, 20, 33, 47, 91, 150, 4000] {
        outcomes.push(RequestResult::success(200, "OK".to_string(), v, 1));
    }
    let r = LoadTestResults::new(outcomes, 1000);
    let values: Vec<u64> = r.percentiles.iter().map(|p| p.1).collect();
    for w in values.windows(2) {
        assert!(w[0] <= w[1]);
    }
}

#[test]
fn percentile_lookup_by_label() {
    let mut outcomes = Vec::new();
    for v in [10u64, 20, 30, 40] {
        outcomes.push(RequestResult::success(200, "OK".to_string(), v, 1));
    }
    let r = LoadTestResults::new(outcomes, 100);
    assert!(r.percentile(500).is_some());
    assert_eq!(r.percentile(999), Some(40));
    assert_eq!(r.percentile(123), None);
    let empty = LoadTestResults::new(Vec::new(), 0);
    assert_eq!(empty.percentile(500), None);
}

#[test]
fn incremental_add_matches_fold() {
    let build = |latencies: &[u64]| {
        latencies
            .iter()
            .map(|v| RequestResult::success(200, "OK".to_string(), *v, 2))
            .collect::<Vec<_>>()
    };
    let mut incremental = LoadTestResults::new(build(&[5, 9]), 77);
    incremental.add_result(RequestResult::error("timeout".to_string(), 100));
    let direct = {
        let mut outcomes = build(&[5, 9]);
        outcomes.push(RequestResult::error("timeout".to_string(), 100));
        LoadTestResults::new(outcomes, 77)
    };
    assert_eq!(incremental.total_requests, direct.total_requests);
    assert_eq!(incremental.successful_requests, direct.successful_requests);
    assert_eq!(incremental.failed_requests, direct.failed_requests);
    assert_eq!(incremental.average_response_time, direct.average_response_time);
    assert_eq!(incremental.min_response_time, direct.min_response_time);
    assert_eq!(incremental.max_response_time, direct.max_response_time);
    assert_eq!(incremental.status_codes, direct.status_codes);
    assert_eq!(incremental.errors, direct.errors);
    assert_eq!(incremental.percentiles, direct.percentiles);
}
