use loadgen::errors::ErrorKind;
use loadgen::request::failure_outcome;
use loadgen::request::success_outcome;
use loadgen::request::RequestOutcome;
use loadgen::stats::aggregate;
use loadgen::stats::ReportCode;

#[test]
fn counts_always_add_up_to_total() {
    let outcomes = vec![
        success_outcome(100, 10, Some(200)),
        failure_outcome(ErrorKind::ConnectFailed, 3),
        success_outcome(50, 20, Some(200)),
        failure_outcome(ErrorKind::IoError, 4),
        success_outcome(70, 30, Some(200)),
    ];
    let rep = aggregate(&outcomes);
    assert_eq!(rep.total, 5);
    assert_eq!(rep.succeeded, 3);
    assert_eq!(rep.failed, 2);
    assert_eq!(rep.succeeded + rep.failed, rep.total);
}

#[test]
fn byte_extremes_cover_successes_only() {
    // the failing outcome carries a large byte count that must be
    // ignored
    let failing = RequestOutcome {
        byte_count: 9999,
        elapsed_ms: 1,
        status_code: None,
        error: Some(ErrorKind::IoError),
    };
    let outcomes = vec![
        success_outcome(50, 10, Some(200)),
        failing,
        success_outcome(10, 20, Some(200)),
        success_outcome(30, 30, Some(200)),
    ];
    let rep = aggregate(&outcomes);
    assert_eq!(rep.min_bytes, 10);
    assert_eq!(rep.max_bytes, 50);
    assert!(rep.min_bytes <= rep.max_bytes);
}

#[test]
fn byte_extremes_are_zero_without_success() {
    let outcomes = vec![
        failure_outcome(ErrorKind::ConnectFailed, 1),
        failure_outcome(ErrorKind::ResolutionFailed, 2),
    ];
    let rep = aggregate(&outcomes);
    assert_eq!(rep.succeeded, 0);
    assert_eq!(rep.min_bytes, 0);
    assert_eq!(rep.max_bytes, 0);
}

#[test]
fn median_is_the_upper_middle_element() {
    let outcomes = vec![
        success_outcome(1, 40, Some(200)),
        success_outcome(1, 10, Some(200)),
        success_outcome(1, 30, Some(200)),
        success_outcome(1, 20, Some(200)),
    ];
    let rep = aggregate(&outcomes);
    assert_eq!(rep.latencies_sorted, vec![10, 20, 30, 40]);
    // index 4 / 2 = 2, not the average 25
    assert_eq!(rep.median_latency_ms, 30);
    assert_eq!(rep.mean_latency_ms, 25);
}

#[test]
fn single_successful_request() {
    let outcomes = vec![success_outcome(512, 12, Some(200))];
    let rep = aggregate(&outcomes);
    assert_eq!(rep.total, 1);
    assert_eq!(rep.succeeded, 1);
    assert_eq!(rep.failed, 0);
    assert!(rep.distinct_codes.is_empty());
    assert_eq!(rep.min_bytes, 512);
    assert_eq!(rep.max_bytes, 512);
    assert_eq!(rep.median_latency_ms, 12);
    assert_eq!(rep.mean_latency_ms, 12);
}

#[test]
fn zero_byte_success_counts_as_success() {
    let outcomes = vec![success_outcome(0, 5, None)];
    let rep = aggregate(&outcomes);
    assert_eq!(rep.succeeded, 1);
    assert_eq!(rep.failed, 0);
    assert_eq!(rep.min_bytes, 0);
    assert_eq!(rep.max_bytes, 0);
}

#[test]
fn distinct_codes_hold_no_duplicates() {
    let outcomes = vec![
        success_outcome(10, 1, Some(404)),
        success_outcome(10, 2, Some(404)),
        failure_outcome(ErrorKind::IoError, 3),
        failure_outcome(ErrorKind::IoError, 4),
        success_outcome(10, 5, Some(200)),
    ];
    let rep = aggregate(&outcomes);
    assert_eq!(rep.distinct_codes.len(), 2);
    assert!(rep.distinct_codes.contains(&ReportCode::Status(404)));
    assert!(rep.distinct_codes.contains(&ReportCode::Transport(ErrorKind::IoError)));
}

#[test]
fn successful_200_adds_no_code() {
    let outcomes = vec![
        success_outcome(10, 1, Some(200)),
        failure_outcome(ErrorKind::TlsHandshakeFailed, 2),
    ];
    let rep = aggregate(&outcomes);
    assert_eq!(rep.distinct_codes, vec![ReportCode::Transport(ErrorKind::TlsHandshakeFailed)]);
}

#[test]
fn latencies_cover_failures_too() {
    let outcomes = vec![
        success_outcome(10, 100, Some(200)),
        failure_outcome(ErrorKind::ConnectFailed, 2),
    ];
    let rep = aggregate(&outcomes);
    assert_eq!(rep.latencies_sorted, vec![2, 100]);
    assert_eq!(rep.mean_latency_ms, 51);
    assert_eq!(rep.median_latency_ms, 100);
}
