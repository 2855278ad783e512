use pressr::result::{LoadTestResults, RequestResult};

fn successful_outcome(status: u16, latency_ms: u64, size: usize) -> RequestResult {
    RequestResult::success(status, "OK".to_string(), latency_ms, size)
}

#[test]
fn empty_run_yields_all_zero() {
    let r = LoadTestResults::new(Vec::new(), 0);
    assert_eq!(r.total_requests, 0);
    assert_eq!(r.successful_requests, 0);
    assert_eq!(r.failed_requests, 0);
    assert_eq!(r.average_response_time, 0);
    assert_eq!(r.min_response_time, 0);
    assert_eq!(r.max_response_time, 0);
    assert_eq!(r.throughput_milli, 0);
    assert!(r.status_codes.is_empty());
    assert!(r.errors.is_empty());
    assert!(r.percentiles.is_empty());
    assert_eq!(r.total_data_transferred, Some(0));
}

#[test]
fn empty_run_with_nonzero_duration() {
    let r = LoadTestResults::new(Vec::new(), 1500);
    assert_eq!(r.total_requests, 0);
    assert_eq!(r.throughput_milli, 0);
    assert!(r.percentiles.is_empty());
}

#[test]
fn all_successes_scenario() {
    // 50 attempts, each HTTP 200 with a 10-byte body after at least 5 ms
    let mut outcomes = Vec::new();
    for i in 0..50u64 {
        outcomes.push(successful_outcome(200, 6 + (i % 3), 10));
    }
    let r = LoadTestResults::new(outcomes, 1000);
    assert_eq!(r.total_requests, 50);
    assert_eq!(r.successful_requests, 50);
    assert_eq!(r.failed_requests, 0);
    assert!(r.min_response_time >= 5);
    assert!(r.max_response_time >= 5);
    assert_eq!(r.status_codes, vec![(200, 50)]);
    assert!(r.errors.is_empty());
    assert_eq!(r.total_data_transferred, Some(500));
    assert_eq!(r.percentiles.len(), 5);
    for w in &r.requests {
        assert!(w.success);
        assert!(w.error.is_none());
    }
}

#[test]
fn all_server_errors_scenario() {
    let mut outcomes = Vec::new();
    for _ in 0..20 {
        outcomes.push(RequestResult::success(
            500,
            "Internal Server Error".to_string(),
            5,
            3,
        ));
    }
    let r = LoadTestResults::new(outcomes, 400);
    assert_eq!(r.successful_requests, 0);
    assert_eq!(r.failed_requests, 20);
    assert_eq!(r.status_codes, vec![(500, 20)]);
    for w in &r.requests {
        let msg = w.error.as_ref().expect("failed outcome must carry an error");
        assert!(!msg.is_empty());
        assert!(msg.contains("500"));
        assert_eq!(msg, "HTTP Error: 500 Internal Server Error");
    }
    // no successes: no percentiles are derivable
    assert!(r.percentiles.is_empty());
}

#[test]
fn alternating_success_and_refusal_scenario() {
    let mut outcomes = Vec::new();
    for i in 0..20 {
        if i % 2 == 0 {
            outcomes.push(successful_outcome(200, 4, 2));
        } else {
            outcomes.push(RequestResult::error("connection refused".to_string(), 1));
        }
    }
    let r = LoadTestResults::new(outcomes, 100);
    assert_eq!(r.total_requests, 20);
    assert_eq!(r.successful_requests, 10);
    assert_eq!(r.failed_requests, 10);
    let refusal = r
        .errors
        .iter()
        .find(|(k, _)| k == "connection refused")
        .expect("refusals must be tallied under one key");
    assert_eq!(refusal.1, 10);
    assert_eq!(r.errors.len(), 1);
    assert_eq!(r.status_codes, vec![(200, 10)]);
}

#[test]
fn serialized_run_timing() {
    // 10 outcomes of 50 ms each collected over 500 ms of wall clock: the
    // mean is exactly one delay, and throughput is 20 requests per second
    let mut outcomes = Vec::new();
    for _ in 0..10 {
        outcomes.push(successful_outcome(204, 50, 0));
    }
    let r = LoadTestResults::new(outcomes, 500);
    assert_eq!(r.average_response_time, 50);
    assert_eq!(r.min_response_time, 50);
    assert_eq!(r.max_response_time, 50);
    assert_eq!(r.throughput_milli, 10 * 1_000_000 / 500);
}

#[test]
fn counts_always_sum_to_total() {
    let outcomes = vec![
        successful_outcome(200, 10, 1),
        RequestResult::error("timeout".to_string(), 30),
        successful_outcome(404, 7, 9),
        RequestResult::body_read_failure(200, "reset".to_string(), 12),
    ];
    let r = LoadTestResults::new(outcomes, 60);
    assert_eq!(r.total_requests, 4);
    assert_eq!(r.successful_requests + r.failed_requests, r.total_requests);
    assert_eq!(r.successful_requests, 1);
}

#[test]
fn mean_lies_between_extremes() {
    let outcomes = vec![
        successful_outcome(200, 3, 1),
        successful_outcome(200, 100, 1),
        successful_outcome(200, 20, 1),
    ];
    let r = LoadTestResults::new(outcomes, 200);
    assert_eq!(r.min_response_time, 3);
    assert_eq!(r.max_response_time, 100);
    assert_eq!(r.average_response_time, (3 + 100 + 20) / 3);
    assert!(r.min_response_time <= r.average_response_time);
    assert!(r.average_response_time <= r.max_response_time);
}

#[test]
fn aggregation_is_repeatable() {
    let build = || {
        vec![
            successful_outcome(200, 8, 4),
            RequestResult::error("connection refused".to_string(), 2),
            successful_outcome(503, 15, 0),
            successful_outcome(200, 9, 4),
        ]
    };
    let a = LoadTestResults::new(build(), 77);
    let b = LoadTestResults::new(build(), 77);
    assert_eq!(a.total_requests, b.total_requests);
    assert_eq!(a.successful_requests, b.successful_requests);
    assert_eq!(a.failed_requests, b.failed_requests);
    assert_eq!(a.average_response_time, b.average_response_time);
    assert_eq!(a.min_response_time, b.min_response_time);
    assert_eq!(a.max_response_time, b.max_response_time);
    assert_eq!(a.duration_ms, b.duration_ms);
    assert_eq!(a.throughput_milli, b.throughput_milli);
    assert_eq!(a.status_codes, b.status_codes);
    assert_eq!(a.errors, b.errors);
    assert_eq!(a.total_data_transferred, b.total_data_transferred);
    assert_eq!(a.percentiles, b.percentiles);
}

#[test]
fn body_read_failure_keeps_status_and_drops_size() {
    let w = RequestResult::body_read_failure(206, "connection reset".to_string(), 40);
    assert_eq!(w.status, Some(206));
    assert!(!w.success);
    assert_eq!(w.response_size, None);
    assert_eq!(
        w.error.as_deref(),
        Some("Error reading response body: connection reset")
    );
    let r = LoadTestResults::new(vec![w], 40);
    assert_eq!(r.total_data_transferred, None);
    assert_eq!(r.status_codes, vec![(206, 1)]);
}

#[test]
fn mixed_sizes_disable_transfer_total() {
    let outcomes = vec![
        successful_outcome(200, 5, 7),
        RequestResult::error("timeout".to_string(), 90),
    ];
    let r = LoadTestResults::new(outcomes, 100);
    assert_eq!(r.total_data_transferred, None);
}
