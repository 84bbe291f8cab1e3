use chobits::bar::{
    bar_message, max_scroll_offset, message_height, message_heights, received_text, visible_slices, AppState,
    Message, VisibleSlice,
};

#[test]
fn message_height_counts_wrapped_lines() {
    assert_eq!(message_height("hello", 10), 1);
    assert_eq!(message_height("12345678901", 10), 2);
    assert_eq!(message_height("a\nbbb", 2), 3);
}

#[test]
fn message_height_edge_cases() {
    assert_eq!(message_height("", 10), 1);
    assert_eq!(message_height("abc", 0), 3);
    assert_eq!(message_height("ééé", 2), 3);
    assert_eq!(message_height("\n\n", 5), 1);
}

#[test]
fn max_scroll_offset_zero_when_content_fits() {
    let mut state = AppState::new(10);
    state.messages.push_back(Message { text: "hi".into(), timestamp_ms: 0 });
    assert_eq!(max_scroll_offset(&state, 5, 20), 0);
}

#[test]
fn push_at_bottom_keeps_scroll_at_zero() {
    let mut state = AppState::new(10);
    state.push("first".into(), 0, 5, 20);
    state.push("second".into(), 1, 5, 20);
    assert_eq!(state.scroll_offset, 0);
    assert_eq!(state.messages.len(), 2);
}

#[test]
fn push_while_scrolled_up_increases_offset() {
    let mut state = AppState::new(10);
    state.push("first".into(), 0, 2, 5);
    state.scroll_up(1, 10);
    assert!(state.scroll_offset > 0);
    let before = state.scroll_offset;
    state.push("second".into(), 1, 2, 5);
    assert!(state.scroll_offset >= before);
}

#[test]
fn push_evicts_oldest_at_history_limit() {
    let mut state = AppState::new(2);
    state.push("one".into(), 0, 5, 20);
    state.push("two".into(), 1, 5, 20);
    state.push("three".into(), 2, 5, 20);
    assert_eq!(state.messages.len(), 2);
    assert_eq!(state.messages.front().unwrap().text, "two");
    assert_eq!(state.messages.back().unwrap().text, "three");
}

#[test]
fn scroll_up_and_down_clamp() {
    let mut state = AppState::new(10);
    state.push("line".into(), 0, 2, 5);
    state.scroll_up(99, 1);
    assert_eq!(state.scroll_offset, 1);
    state.scroll_down(99);
    assert_eq!(state.scroll_offset, 0);
}

#[test]
fn visible_slices_at_bottom_and_scrolled() {
    let hs = [2u16, 3, 1];
    assert_eq!(
        visible_slices(&hs, 4, 0),
        vec![
            VisibleSlice { index: 1, row: 0, height: 3, skip_lines: 0, position: 1 },
            VisibleSlice { index: 2, row: 3, height: 1, skip_lines: 0, position: 0 },
        ]
    );
    assert_eq!(
        visible_slices(&hs, 4, 9),
        vec![
            VisibleSlice { index: 0, row: 0, height: 2, skip_lines: 0, position: 2 },
            VisibleSlice { index: 1, row: 2, height: 2, skip_lines: 0, position: 1 },
        ]
    );
    assert!(visible_slices(&[], 4, 0).is_empty());
}

#[test]
fn message_heights_follow_scrollback() {
    let mut state = AppState::new(5);
    state.push("abcdef".into(), 0, 10, 3);
    state.push("x".into(), 1, 10, 3);
    assert_eq!(message_heights(&state, 3), vec![2, 1]);
}

#[test]
fn read_message_returns_trimmed_text() {
    assert_eq!(received_text(b"  hello chi\n"), Some("hello chi".to_string()));
}

#[test]
fn read_message_empty_connection_returns_none() {
    assert_eq!(received_text(b""), None);
    assert_eq!(received_text(b" \n\t"), None);
}

#[test]
fn received_text_replaces_invalid_utf8() {
    assert_eq!(received_text(b"ok\xff"), Some("ok\u{FFFD}".to_string()));
}

#[test]
fn bar_receives_what_is_sent() {
    assert_eq!(bar_message("hi"), b"hi\n".to_vec());
    assert_eq!(bar_message("ちぃ"), "ちぃ\n".as_bytes().to_vec());
    assert_eq!(received_text(&bar_message("  hello chi ")), Some("hello chi".to_string()));
    assert_eq!(received_text(&bar_message("ちぃ")), Some("ちぃ".to_string()));
    assert_eq!(received_text(&bar_message(" \t ")), None);
}

#[test]
fn push_keeps_nothing_with_zero_history() {
    let mut state = AppState::new(0);
    state.push("hello".into(), 1, 5, 10);
    assert_eq!(state.messages.len(), 0);
    assert_eq!(state.scroll_offset, 0);
}
