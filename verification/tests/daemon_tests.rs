use chobits::daemon::{
    deliver_payload, next_monologue_alias, payload_text, plays_expression, quiet_requested,
    reaction, read_limit, snapshot_action, starts_request, user_prompt, BodyReader, BodyStage,
    Monologue, SnapshotAction, SnapshotHistory,
};
use chobits::llm::LlmResponse;

/// Drives a body reader over `rest` delivered in pieces of at most `piece` bytes.
fn read_request(first: &[u8], rest: &[u8], piece: usize, limit: u64) -> Option<String> {
    if first.is_empty() || !starts_request(first) {
        return None;
    }
    let mut reader = BodyReader::new(first, limit);
    let mut pos = 0;
    while let Some(want) = reader.wanted() {
        let n = want.min(piece).min(rest.len() - pos);
        if n == 0 {
            reader.end_of_stream();
            break;
        }
        reader.feed(&rest[pos..pos + n]);
        pos += n;
    }
    assert_eq!(reader.stage, BodyStage::Done);
    payload_text(&reader.buf, limit)
}

#[test]
fn accepts_http_post_body() {
    let req = b"POST /snapshot HTTP/1.1\r\nContent-Length: 11\r\n\r\nhello world";
    let payload = read_request(&req[..req.len().min(512)], &[], 512, 4096);
    assert_eq!(payload.as_deref(), Some("hello world"));
}

#[test]
fn ignores_non_http_traffic() {
    let payload = read_request(b"{\"screen\":\"hi\"}", &[], 512, 4096);
    assert_eq!(payload, None);
}

#[test]
fn body_arriving_in_pieces_is_read_to_its_length() {
    let head = b"POST /snapshot HTTP/1.1\r\nContent-Le";
    let rest = b"ngth: 5\r\n\r\nabcdefgh";
    assert_eq!(read_request(head, rest, 3, 4096).as_deref(), Some("abcde"));
}

#[test]
fn headers_never_ending_give_no_body() {
    assert_eq!(read_request(b"POST / HTTP/1.1\r\nX: y", b"", 7, 4096), None);
}

#[test]
fn read_limit_adds_slack() {
    assert_eq!(read_limit(4096), 5120);
    assert_eq!(read_limit(usize::MAX), usize::MAX as u64);
}

#[test]
fn deliver_payload_truncates() {
    assert_eq!(deliver_payload("", 10), None);
    assert_eq!(deliver_payload("short", 10), Some("short".to_string()));
    let long = "x\n".repeat(100);
    assert!(deliver_payload(&long, 60).unwrap().len() <= 60);
}

#[test]
fn history_tracks_unchanged_time() {
    let mut h = SnapshotHistory::new();
    assert_eq!(h.record("a".into(), 1000), (0, true));
    assert_eq!(h.record("a".into(), 4000), (3000, false));
    assert_eq!(h.record("b".into(), 5000), (0, true));
    assert_eq!(h.record("b".into(), 9000), (4000, false));
    for i in 0..20u64 {
        h.record("c".into(), 10_000 + i);
    }
    assert_eq!(h.entries.len(), 16);
}

#[test]
fn snapshot_actions() {
    assert_eq!(snapshot_action(true, 0, 30), SnapshotAction::React);
    assert_eq!(snapshot_action(false, 29_999, 30), SnapshotAction::Wait);
    assert_eq!(snapshot_action(false, 30_000, 30), SnapshotAction::StartMonologue);
}

#[test]
fn unchanged_screen_is_not_reacted_to() {
    let mut h = SnapshotHistory::new();
    let (_, changed) = h.record("same".into(), 0);
    assert_eq!(snapshot_action(changed, 0, 30), SnapshotAction::React);
    for t in [1_000u64, 29_000, 31_000, 500_000] {
        let (for_ms, changed) = h.record("same".into(), t);
        assert!(!changed);
        assert_eq!(for_ms, t);
        assert_ne!(snapshot_action(changed, for_ms, 30), SnapshotAction::React);
    }
}

#[test]
fn prompt_and_reaction() {
    assert_eq!(user_prompt("SYS", "screen"), "SYS\n\nUser's terminal snapshot:\nscreen");
    let r = reaction(None, None, "idle");
    assert_eq!((r.text.as_str(), r.expression.as_str()), ("...", "idle"));
    let decoded = LlmResponse { text: "ok".into(), expression: "wave".into() };
    let r = reaction(Some("{}"), Some(decoded), "idle");
    assert_eq!(r.expression, "wave");
    assert!(plays_expression(&r, "idle"));
    assert!(!plays_expression(&reaction(Some("x"), None, "idle"), "idle"));
}

#[test]
fn monologue_start_and_stop() {
    let mut m = Monologue { active: false };
    assert!(m.start());
    assert!(!m.start());
    assert!(m.stop());
    assert!(!m.stop());
}

#[test]
fn monologue_never_picks_resting_look() {
    let aliases = vec!["idle".to_string(), "wave".to_string(), "bounce".to_string()];
    for _ in 0..20 {
        let a = next_monologue_alias(&aliases, "idle").unwrap();
        assert!(a == "wave" || a == "bounce");
    }
    assert_eq!(next_monologue_alias(&["idle".to_string()], "idle"), None);
}

#[test]
fn quiet_flag() {
    assert!(quiet_requested(&["-q".to_string()]));
    assert!(quiet_requested(&["x".to_string(), "--quiet".to_string()]));
    assert!(!quiet_requested(&["--loud".to_string()]));
}
