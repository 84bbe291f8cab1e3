use chobits::plugin::{
    active_line_from_pane, configured_max_bytes, configured_port, detached, focused_pane,
    pane_command, plugin_snapshot, snapshot_url, PaneSummary,
};

fn pane(id: u32, focused: bool, plugin: bool) -> PaneSummary {
    PaneSummary {
        id,
        is_focused: focused,
        is_plugin: plugin,
        title: format!("pane {id}"),
        terminal_command: None,
    }
}

#[test]
fn focused_terminal_pane_is_found() {
    let tabs = vec![
        (0usize, vec![pane(1, false, false), pane(2, true, true)]),
        (1usize, vec![pane(3, false, false), pane(4, true, false)]),
    ];
    assert_eq!(focused_pane(&tabs), Some((1, 1)));
    assert_eq!(focused_pane(&tabs[..1]), None);
}

#[test]
fn pane_command_prefers_running_command() {
    let mut p = pane(1, true, false);
    let args = vec!["cargo".to_string(), "test".to_string()];
    assert_eq!(pane_command(Some(&args), &p), "cargo test");
    assert_eq!(pane_command(Some(&[]), &p), "pane 1");
    p.terminal_command = Some("bash".into());
    assert_eq!(pane_command(None, &p), "bash");
}

#[test]
fn active_line_needs_a_cursor() {
    let viewport = vec!["line0".to_string(), "line1".to_string()];
    assert_eq!(active_line_from_pane(None, 0, 0, &viewport), "");
    assert_eq!(active_line_from_pane(Some(2), 0, 1, &viewport), "line1");
}

#[test]
fn plugin_snapshot_is_sorted_json() {
    let body = plugin_snapshot(2, "vim", "fn main()", "a\nb", 4096);
    assert_eq!(
        body,
        r#"{"active_line":"fn main()","cmd":"vim","screen":"a\nb","tab":"2"}"#
    );
    let v: serde_json::Value = serde_json::from_str(&body).unwrap();
    assert_eq!(v["screen"], "a\nb");
    assert!(plugin_snapshot(0, "x", "", &"y".repeat(5000), 100).len() <= 100);
}

#[test]
fn plugin_settings() {
    assert_eq!(snapshot_url(7880), "http://127.0.0.1:7880/snapshot");
    assert_eq!(configured_port(Some("9000")), 9000);
    assert_eq!(configured_port(Some("bad")), 7880);
    assert_eq!(configured_port(None), 7880);
    assert_eq!(configured_max_bytes(Some("100")), 100);
    assert_eq!(configured_max_bytes(Some("-1")), 4096);
    assert!(detached(&[(false, 3), (true, 0)]));
    assert!(!detached(&[(true, 1), (true, 0)]));
    assert!(!detached(&[]));
}
