use fetchcore::engine::{
    decide_transfer, resolve_final_status, ProbeResult, TransferPlan, DEFAULT_CHUNK_COUNT,
};
use fetchcore::progress::ProgressCounter;
use fetchcore::task::DownloadStatus;

#[test]
fn no_range_support_forces_single_stream() {
    let probe = ProbeResult { content_length: 800000, accepts_ranges: false };
    assert!(matches!(decide_transfer(&probe, DEFAULT_CHUNK_COUNT), TransferPlan::SingleStream));
}

#[test]
fn unknown_length_forces_single_stream() {
    let probe = ProbeResult { content_length: 0, accepts_ranges: true };
    assert!(matches!(decide_transfer(&probe, DEFAULT_CHUNK_COUNT), TransferPlan::SingleStream));
}

#[test]
fn capable_server_gets_multi_stream() {
    let probe = ProbeResult { content_length: 800000, accepts_ranges: true };
    match decide_transfer(&probe, DEFAULT_CHUNK_COUNT) {
        TransferPlan::MultiStream(ranges) => {
            assert_eq!(ranges.len(), 8);
            assert_eq!(ranges[0].start, 0);
            assert_eq!(ranges[7].end, 799999);
        },
        TransferPlan::SingleStream => panic!("expected the multi-stream path"),
    }
}

#[test]
fn all_workers_ok_completes() {
    let outcomes: Vec<Result<(), String>> = vec![Ok(()), Ok(()), Ok(())];
    assert!(matches!(resolve_final_status(&outcomes), DownloadStatus::Completed));
}

#[test]
fn one_worker_failure_errors_with_its_reason() {
    let outcomes: Vec<Result<(), String>> =
        vec![Ok(()), Err("connection reset".to_string()), Err("late".to_string())];
    match resolve_final_status(&outcomes) {
        DownloadStatus::Error(reason) => assert_eq!(reason, "connection reset"),
        _ => panic!("expected an error status"),
    }
}

#[test]
fn counter_only_grows() {
    let mut c = ProgressCounter::new();
    assert_eq!(c.current(), 0);
    c.add(4096);
    assert_eq!(c.current(), 4096);
    c.add(0);
    assert_eq!(c.current(), 4096);
    c.add(1);
    assert_eq!(c.current(), 4097);
}

#[test]
fn counter_saturates_instead_of_wrapping() {
    let mut c = ProgressCounter::new();
    c.add(u64::MAX - 1);
    c.add(10);
    assert_eq!(c.current(), u64::MAX);
}

#[test]
fn retry_budget_is_small_and_fixed_by_default() {
    let policy = fetchcore::retry::RetryPolicy::default();
    assert_eq!(policy.budget, 3);
    assert!(policy.should_retry(0));
    assert!(policy.should_retry(2));
    assert!(!policy.should_retry(3));
    assert!(!policy.should_retry(100));
}

#[test]
fn backoff_grows_then_caps() {
    let policy = fetchcore::retry::RetryPolicy::new(10);
    assert_eq!(policy.backoff_ms(0), 500);
    assert_eq!(policy.backoff_ms(1), 1000);
    assert_eq!(policy.backoff_ms(8), 4500);
    assert_eq!(policy.backoff_ms(9), 5000);
    assert_eq!(policy.backoff_ms(50), 5000);
}
