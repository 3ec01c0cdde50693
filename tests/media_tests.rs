use viewer_stream::media::{content_range, plan_stream, STATUS_OK, STATUS_PARTIAL_CONTENT};

#[test]
fn partial_window_is_framed() {
    let p = plan_stream(Some("bytes=200-299"), 1000);
    assert_eq!(p.status, 206);
    assert_eq!(p.status, STATUS_PARTIAL_CONTENT);
    assert_eq!(p.start, 200);
    assert_eq!(p.length, 100);
    assert_eq!(p.content_range.as_deref(), Some("bytes 200-299/1000"));
}

#[test]
fn clamped_window_is_framed() {
    let p = plan_stream(Some("bytes=950-2000"), 1000);
    assert_eq!(p.status, 206);
    assert_eq!(p.start, 950);
    assert_eq!(p.length, 50);
    assert_eq!(p.content_range.as_deref(), Some("bytes 950-999/1000"));
}

#[test]
fn no_header_serves_whole_file() {
    let p = plan_stream(None, 1000);
    assert_eq!(p.status, 200);
    assert_eq!(p.status, STATUS_OK);
    assert_eq!(p.start, 0);
    assert_eq!(p.length, 1000);
    assert!(p.content_range.is_none());
}

#[test]
fn unsatisfiable_header_serves_whole_file() {
    let p = plan_stream(Some("bytes=1000-"), 1000);
    assert_eq!(p.status, 200);
    assert_eq!(p.length, 1000);
}

#[test]
fn content_range_text() {
    assert_eq!(content_range(0, 0, 1), "bytes 0-0/1");
    assert_eq!(
        content_range(10, 18446744073709551615, 18446744073709551615),
        "bytes 10-18446744073709551615/18446744073709551615"
    );
}
