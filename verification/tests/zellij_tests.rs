use chobits::zellij::{
    filter_chobits_sessions, granted_permissions_text, kdl_escape, merge_permission_entry,
    parse_permissions_kdl, render_permissions_kdl, zellij_permissions_kdl, ZellijRunner,
};

#[test]
fn kdl_escape_backslash_and_quote() {
    assert_eq!(kdl_escape(r#"C:\foo"bar"#), r##"C:\\foo\"bar"##);
}

#[test]
fn parse_permissions_kdl_reads_entries() {
    let kdl = r##""/plugins/a.wasm" {
    ReadApplicationState
    RunCommands
}
"/other/b.wasm" {
    ReadPaneContents
}
"##;
    let entries = parse_permissions_kdl(kdl);
    assert_eq!(entries.len(), 2);
    assert_eq!(entries[0].0, "/plugins/a.wasm");
    assert_eq!(entries[0].1, vec!["ReadApplicationState", "RunCommands"]);
    assert_eq!(entries[1].0, "/other/b.wasm");
    assert_eq!(entries[1].1, vec!["ReadPaneContents"]);
}

#[test]
fn render_permissions_kdl_round_trip() {
    let entries = vec![
        (
            "/plugins/a.wasm".to_string(),
            vec!["ReadApplicationState".to_string(), "RunCommands".to_string()],
        ),
        ("/other/b.wasm".to_string(), vec!["ReadPaneContents".to_string()]),
    ];
    let rendered = render_permissions_kdl(&entries);
    assert_eq!(parse_permissions_kdl(&rendered), entries);
}

#[test]
fn merge_permission_entry_replaces_existing() {
    let existing = r##""/plugins/a.wasm" {
    ReadApplicationState
}
"##;
    let key = kdl_escape("/plugins/a.wasm");
    let entries = parse_permissions_kdl(existing);
    let new_perms = ["ReadApplicationState", "ReadPaneContents", "WebAccess"];
    let perms: Vec<String> = new_perms.iter().map(|p| (*p).to_string()).collect();
    let entries = merge_permission_entry(entries, &key, &perms);
    let reparsed = parse_permissions_kdl(&render_permissions_kdl(&entries));
    assert_eq!(reparsed.len(), 1);
    assert_eq!(reparsed[0].1, new_perms);
}

#[test]
fn merge_permission_entry_appends_new_key() {
    let entries = vec![("a".to_string(), vec!["X".to_string()])];
    let merged = merge_permission_entry(entries, "b", &["Y".to_string()]);
    assert_eq!(merged.len(), 2);
    assert_eq!(merged[1], ("b".to_string(), vec!["Y".to_string()]));
}

#[test]
fn granted_text_reads_back_the_grant() {
    let text = granted_permissions_text("", "/p/c.wasm", &["RunCommands".to_string()]);
    let entries = parse_permissions_kdl(&text);
    assert_eq!(entries, vec![("/p/c.wasm".to_string(), vec!["RunCommands".to_string()])]);
}

#[test]
fn filter_chobits_sessions_skips_exited_and_foreign() {
    let text = "chobits-20250101-120000\nother-session\nchobits-old EXITED\nchobits-live attached";
    assert_eq!(
        filter_chobits_sessions(text),
        vec!["chobits-20250101-120000".to_string(), "chobits-live".to_string()]
    );
}

#[test]
fn zellij_runner_arguments() {
    let z = ZellijRunner::new("zellij".into(), "/c".into(), "/d".into());
    assert_eq!(z.base_args(), vec!["--config-dir", "/c", "--data-dir", "/d"]);
    assert_eq!(
        z.attach_args("s1"),
        vec!["--config-dir", "/c", "--data-dir", "/d", "attach", "s1"]
    );
    assert_eq!(
        z.list_sessions(true, b"chobits-a\nx\n", b"", "0"),
        Ok(vec!["chobits-a".to_string()])
    );
    assert_eq!(
        z.list_sessions(false, b"", b" boom \n", "1"),
        Err("zellij list-sessions failed: boom".to_string())
    );
    assert_eq!(
        z.list_sessions(false, b"", b"", "exit status: 2"),
        Err("zellij list-sessions exited with exit status: 2".to_string())
    );
    assert_eq!(zellij_permissions_kdl(Some("/cache")), Some("/cache/permissions.kdl".to_string()));
    assert_eq!(zellij_permissions_kdl(None), None);
}
