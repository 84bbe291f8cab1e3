use chobits::http::{content_length_from_headers, header_body_split, is_http_post};
use chobits::proxy::no_proxy_with_loopback;
use chobits::session::parse_session_choice;
use chobits::snapshot::{take_head, take_tail, truncate_snapshot};
use chobits::viewport::{active_line_from_viewport, pane_screen_text, viewport_row};

#[test]
fn detects_http_post_prefix() {
    assert!(is_http_post(b"POST /snapshot HTTP/1.1\r\n"));
    assert!(!is_http_post(b"{\"tab\":\"0\"}"));
}

#[test]
fn parses_content_length_case_insensitive() {
    let headers = b"POST /snapshot HTTP/1.1\r\nHost: localhost\r\nContent-Length: 42\r\n";
    assert_eq!(content_length_from_headers(headers), Some(42));
}

#[test]
fn header_body_split_finds_blank_line() {
    let buf = b"POST /x HTTP/1.1\r\nContent-Length: 0\r\n\r\n";
    assert_eq!(header_body_split(buf), Some(buf.len()));
}

#[test]
fn content_length_missing_or_not_utf8_is_none() {
    assert_eq!(content_length_from_headers(b"POST / HTTP/1.1\r\nHost: x\r\n"), None);
    assert_eq!(content_length_from_headers(b"content-length: 7\xff\r\n"), None);
    assert_eq!(content_length_from_headers(b"CONTENT-LENGTH:  9 \r\n"), Some(9));
}

#[test]
fn empty_becomes_loopback_defaults() {
    assert_eq!(no_proxy_with_loopback(""), "127.0.0.1,localhost,::1");
}

#[test]
fn appends_missing_loopback_hosts() {
    assert_eq!(
        no_proxy_with_loopback("example.com"),
        "example.com,127.0.0.1,localhost,::1"
    );
}

#[test]
fn does_not_duplicate_existing_entries() {
    assert_eq!(
        no_proxy_with_loopback("LOCALHOST,127.0.0.1,::1,corp.internal"),
        "LOCALHOST,127.0.0.1,::1,corp.internal"
    );
}

#[test]
fn no_proxy_is_idempotent_on_concrete_list() {
    let once = no_proxy_with_loopback(" a.com , ,b.org");
    assert_eq!(once, "a.com,b.org,127.0.0.1,localhost,::1");
    assert_eq!(no_proxy_with_loopback(&once), once);
}

#[test]
fn take_tail_last_line_without_trailing_newline() {
    let s = "line1\nline2\nline3";
    assert_eq!(take_tail(s, 5), "line3");
    assert_eq!(take_tail(s, 12), "line2\nline3");
}

#[test]
fn take_head_respects_line_boundaries() {
    let s = "line1\nline2\nline3";
    assert_eq!(take_head(s, 6), "line1");
    assert_eq!(take_head(s, 12), "line1\nline2");
}

#[test]
fn truncate_splits_utf8_safely() {
    let s = "é".repeat(100);
    let out = truncate_snapshot(&s, 20);
    assert!(out.is_char_boundary(out.len()));
    assert!(out.len() <= 20);
}

#[test]
fn truncate_output_within_max_bytes() {
    let s = "x\n".repeat(5000);
    let max = 4096;
    let out = truncate_snapshot(&s, max);
    assert!(out.len() <= max);
    assert!(out.contains("bytes truncated"));
}

#[test]
fn snapshot_truncate_output_within_max_bytes() {
    let s = "x\n".repeat(5000);
    let max = 4096;
    let out = truncate_snapshot(&s, max);
    assert!(out.len() <= max);
}

#[test]
fn truncate_short_input_unchanged() {
    let s = "hello\nworld";
    assert_eq!(truncate_snapshot(s, 100), s);
}

#[test]
fn truncate_keeps_head_and_tail_with_marker() {
    let s = "aaaa\nbbbb\ncccc\ndddd\neeee\nffff\ngggg\nhhhh\niiii\njjjj\nkkkk\nllll\n";
    let out = truncate_snapshot(s, 50);
    assert!(out.len() <= 50);
    assert!(out.starts_with("aaaa"));
    assert!(out.contains("... [10 bytes truncated] ..."));
}

#[test]
fn pane_screen_text_strips_ansi_and_trims() {
    let viewport = vec!["\x1b[31mhello\x1b[0m ".to_string(), "world".to_string()];
    assert_eq!(pane_screen_text(&viewport), "hello\nworld");
}

#[test]
fn viewport_row_accounts_for_frame_offset() {
    assert_eq!(viewport_row(5, 0, 2), 3);
}

#[test]
fn active_line_from_viewport_reads_cursor_line() {
    let viewport = vec!["line0".into(), "line1".into(), "line2".into()];
    assert_eq!(active_line_from_viewport(&viewport, 3, 0, 1), "line2");
}

#[test]
fn active_line_empty_when_cursor_missing_from_viewport() {
    let viewport = vec!["only".into()];
    assert_eq!(active_line_from_viewport(&viewport, 99, 0, 0), "");
}

#[test]
fn accepts_valid_one_based_index() {
    assert_eq!(parse_session_choice("1", 3), Some(1));
    assert_eq!(parse_session_choice(" 2 ", 3), Some(2));
    assert_eq!(parse_session_choice("3", 3), Some(3));
}

#[test]
fn rejects_out_of_range_or_invalid() {
    assert_eq!(parse_session_choice("0", 3), None);
    assert_eq!(parse_session_choice("4", 3), None);
    assert_eq!(parse_session_choice("abc", 3), None);
    assert_eq!(parse_session_choice("", 3), None);
}
