use viewer_stream::range::{parse_range, resolve_range};

#[test]
fn exact_window_is_returned() {
    assert_eq!(parse_range("bytes=200-299", 1000), Some((200, 299)));
    assert_eq!(parse_range("bytes=0-0", 1), Some((0, 0)));
    assert_eq!(parse_range("bytes=0-999", 1000), Some((0, 999)));
}

#[test]
fn end_is_clamped_to_last_byte() {
    assert_eq!(parse_range("bytes=950-2000", 1000), Some((950, 999)));
}

#[test]
fn missing_or_unparsable_end_means_last_byte() {
    assert_eq!(parse_range("bytes=100-", 1000), Some((100, 999)));
    assert_eq!(parse_range("bytes=100-abc", 1000), Some((100, 999)));
    assert_eq!(parse_range("bytes=100-\u{e9}", 1000), Some((100, 999)));
    assert_eq!(parse_range("bytes=5-\u{e9}", 10), Some((5, 9)));
    assert_eq!(parse_range("bytes=5-\u{e9}\u{e9}-", 10), None);
    assert_eq!(parse_range("bytes=\u{e9}5-9", 10), None);
    assert_eq!(parse_range("bytes=\u{661}-9", 10), None);
}

#[test]
fn start_past_end_of_resource_is_full() {
    assert_eq!(parse_range("bytes=1000-1001", 1000), None);
    assert_eq!(parse_range("bytes=5000-", 1000), None);
    assert_eq!(parse_range("bytes=0-10", 0), None);
}

#[test]
fn malformed_headers_are_full() {
    assert_eq!(parse_range("bytes=-500", 1000), None);
    assert_eq!(parse_range("items=0-10", 1000), None);
    assert_eq!(parse_range("bytes=1-2-3", 1000), None);
    assert_eq!(parse_range("bytes=12", 1000), None);
    assert_eq!(parse_range("bytes=x-10", 1000), None);
    assert_eq!(parse_range("", 1000), None);
    assert_eq!(parse_range("bytes", 1000), None);
}

#[test]
fn end_before_start_is_full() {
    assert_eq!(parse_range("bytes=500-100", 1000), None);
}

#[test]
fn numbers_follow_unsigned_parsing() {
    assert_eq!(parse_range("bytes=+5-+9", 1000), Some((5, 9)));
    assert_eq!(parse_range("bytes=007-010", 1000), Some((7, 10)));
    assert_eq!(parse_range("bytes=18446744073709551616-", u64::MAX), None);
    assert_eq!(
        parse_range("bytes=18446744073709551614-18446744073709551616", u64::MAX),
        Some((18446744073709551614, 18446744073709551614))
    );
}

#[test]
fn absent_header_is_full() {
    assert_eq!(resolve_range(None, 1000), None);
    assert_eq!(resolve_range(Some("bytes=1-2"), 1000), Some((1, 2)));
}
