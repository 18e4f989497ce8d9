use loadgen::errors::ErrorKind;
use loadgen::request::failure_outcome;
use loadgen::request::message_constructor;
use loadgen::request::success_outcome;

#[test]
fn message_layout_matches_http_1_1() {
    let m = message_constructor("www.example.com", "/res");
    assert_eq!(m, "GET /res HTTP/1.1\r\nHost: www.example.com\r\nConnection: close\r\n\r\n");
}

#[test]
fn message_for_root_resource() {
    let m = message_constructor("example.com", "/");
    assert_eq!(m, "GET / HTTP/1.1\r\nHost: example.com\r\nConnection: close\r\n\r\n");
}

#[test]
fn success_outcome_carries_no_error() {
    let o = success_outcome(1234, 56, Some(200));
    assert_eq!(o.error, None);
    assert_eq!(o.byte_count, 1234);
    assert_eq!(o.elapsed_ms, 56);
    assert_eq!(o.status_code, Some(200));
}

#[test]
fn zero_byte_drain_is_still_a_success() {
    // a peer that accepts and closes without sending anything
    let o = success_outcome(0, 7, None);
    assert_eq!(o.error, None);
    assert_eq!(o.byte_count, 0);
    assert_eq!(o.status_code, None);
}

#[test]
fn failure_outcome_carries_its_kind() {
    let o = failure_outcome(ErrorKind::ConnectFailed, 9);
    assert_eq!(o.error, Some(ErrorKind::ConnectFailed));
    assert_eq!(o.elapsed_ms, 9);
    assert_eq!(o.byte_count, 0);
    assert_eq!(o.status_code, None);
}
