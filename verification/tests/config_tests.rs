use chobits::config::{
    build_layout_kdl, build_layout_kdl_from, default_bg_color, default_offset_x, default_offset_y,
    default_scale, escape_kdl_path, expand_tilde, layout_from_config_text, live_ascii_args,
    executable_candidates, first_existing, resolve_config_path, root_choice, wasm_candidates, vts_port_mismatch, RootCandidate, vts_url_port, AliasAllowList, Config, LayoutKdlParams,
    LiveAsciiConfig, VtsConfig, DEFAULT_LAYOUT_KDL,
};

#[test]
fn build_layout_kdl_from_substitutes_and_escapes_paths() {
    let template =
        "cmd=\"{chobits_bin}\" wasm=\"{plugin_path}\" secs={interval_secs} args={live_ascii_args}";
    let params = LayoutKdlParams {
        chobits_bin: r"C:\Chobits\bin\chobits.exe",
        plugin_wasm: r"C:\Chobits\local\bin\plugin.wasm",
        interval_secs: 15,
        max_bytes: 4096,
        snapshot_port: chobits::snapshot::DEFAULT_SNAPSHOT_PORT,
        live_ascii_args: r#""model.json" "--vts" "--vts-port" "8001""#,
        live_ascii_bin: r"C:\Chobits\local\bin\live-ascii.exe",
        chobits_bar_bin: r"C:\Chobits\local\bin\chobits-bar.exe",
    };
    let out = build_layout_kdl_from(template, &params);
    assert!(out.contains(r"C:\\Chobits\\bin\\chobits.exe"));
    assert!(out.contains(r"C:\\Chobits\\local\\bin\\plugin.wasm"));
    assert!(out.contains("secs=15"));
    assert!(out.contains(r#""model.json" "--vts" "--vts-port" "8001""#));
}

fn sample_live_ascii(model: &str) -> LiveAsciiConfig {
    LiveAsciiConfig {
        model_set: model.into(),
        enable_vts: true,
        vts_port: 8001,
        enable_mouse: true,
        enable_physics: true,
        image_protocol: "halfblock".into(),
        bg_color: default_bg_color(),
        scale: default_scale(),
        offset_x: default_offset_x(),
        offset_y: default_offset_y(),
    }
}

#[test]
fn live_ascii_args_includes_defaults() {
    let cfg = sample_live_ascii("models/hiyori.model3.json");
    let args = live_ascii_args(&cfg);
    assert!(args.contains(r#""models/hiyori.model3.json""#));
    assert!(args.contains("\"--vts\""));
    assert!(args.contains("\"--vts-port\""));
    assert!(args.contains("\"8001\""));
    assert!(args.contains("\"--mouse\""));
    assert!(args.contains("\"--physics\""));
    assert!(args.contains("\"--image-protocol\""));
    assert!(args.contains("\"halfblock\""));
    assert!(!args.contains("--bg-color"));
}

#[test]
fn live_ascii_args_includes_optional_overrides() {
    let cfg = LiveAsciiConfig {
        model_set: "m.json".into(),
        enable_vts: false,
        vts_port: 8001,
        enable_mouse: false,
        enable_physics: false,
        image_protocol: "kitty".into(),
        bg_color: "rgba(1,2,3,4)".into(),
        scale: "200%".into(),
        offset_x: "10%".into(),
        offset_y: "20%".into(),
    };
    let args = live_ascii_args(&cfg);
    assert!(!args.contains("--vts"));
    assert!(!args.contains("--mouse"));
    assert!(!args.contains("--physics"));
    assert!(args.contains("\"kitty\""));
    assert!(args.contains("\"--bg-color\""));
    assert!(args.contains("\"rgba(1,2,3,4)\""));
    assert!(args.contains("\"--scale\""));
    assert!(args.contains("\"200%\""));
    assert!(args.contains("\"--offsetx\""));
    assert!(args.contains("\"--offsety\""));
}

#[test]
fn live_ascii_args_exact_default_line() {
    let cfg = sample_live_ascii("m.json");
    assert_eq!(
        live_ascii_args(&cfg),
        r#""m.json" "--vts" "--vts-port" "8001" "--mouse" "--physics" "--image-protocol" "halfblock""#
    );
}

#[test]
fn escape_kdl_path_doubles_backslashes() {
    assert_eq!(escape_kdl_path(r"a\b\\c"), r"a\\b\\\\c");
    assert_eq!(escape_kdl_path("/plain/path"), "/plain/path");
    assert_eq!(escape_kdl_path(r#"C:\a"b"#), r#"C:\\a\"b"#);
}

#[test]
fn build_layout_kdl_fills_default_template() {
    let params = LayoutKdlParams {
        chobits_bin: "/r/local/bin/chobits",
        plugin_wasm: "/r/local/bin/chobits-zellij.wasm",
        interval_secs: 10,
        max_bytes: 4096,
        snapshot_port: 7880,
        live_ascii_args: "\"m.json\"",
        live_ascii_bin: "/r/local/bin/live-ascii",
        chobits_bar_bin: "/r/local/bin/chobits-bar",
    };
    let out = build_layout_kdl(&params);
    assert!(out.contains("command=\"/r/local/bin/chobits\""));
    assert!(out.contains("snapshot_port \"7880\""));
    assert!(out.contains("max_bytes \"4096\""));
    assert!(out.contains("args \"m.json\""));
    assert!(!out.contains("{chobits_bin}"));
    assert!(DEFAULT_LAYOUT_KDL.contains("{plugin_path}"));
}

#[test]
fn default_config_uses_documented_defaults() {
    let c = Config::default_config("/opt/chobits");
    assert_eq!(c.llm.backend, "ollama");
    assert_eq!(c.llm.url, "http://localhost:11434");
    assert_eq!(c.llm.model, "qwen3:0.6b");
    assert_eq!(c.llm.max_tokens, 512);
    assert_eq!(c.snapshot.port, 7880);
    assert_eq!(c.snapshot.max_bytes, 4096);
    assert_eq!(c.persona.name, "Chi");
    assert_eq!(c.bar.port, 7879);
    assert_eq!(c.bar.history_length, 50);
    assert_eq!(c.vts.url, "ws://127.0.0.1:8001");
    assert_eq!(c.vts.auth_token_path, "/opt/chobits/.chobits/vts_token.json");
    assert_eq!(c.zellij.config_dir, "/opt/chobits/.zellij/config");
    assert_eq!(c.zellij.layout, DEFAULT_LAYOUT_KDL);
    assert!(c.persona.description.starts_with("Curious and warm terminal companion."));
}

#[test]
fn expand_tilde_expands_home_prefix() {
    assert_eq!(expand_tilde("~/models", Some("/home/u")), "/home/u/models");
    assert_eq!(expand_tilde("~", Some("/home/u")), "/home/u");
    assert_eq!(expand_tilde("~", None), "~");
    assert_eq!(expand_tilde("~/x", None), "~/x");
    assert_eq!(expand_tilde("/abs", Some("/home/u")), "/abs");
}

#[test]
fn resolve_config_path_cases() {
    assert_eq!(resolve_config_path("~/m", Some("/h"), "/root"), "/h/m");
    assert_eq!(resolve_config_path("/abs/m", Some("/h"), "/root"), "/abs/m");
    assert_eq!(resolve_config_path("models/x", Some("/h"), "/root"), "/root/models/x");
}

#[test]
fn vts_url_port_parses_last_colon() {
    assert_eq!(vts_url_port("ws://127.0.0.1:8001"), Some(8001));
    assert_eq!(vts_url_port("ws://127.0.0.1:8001/"), Some(8001));
    assert_eq!(vts_url_port("ws://localhost"), None);
    assert_eq!(vts_url_port("ws://h:99999"), None);
}

#[test]
fn vts_port_mismatch_reports_url_port() {
    let live = sample_live_ascii("m.json");
    let mut vts = VtsConfig::default_in("/r");
    assert_eq!(vts_port_mismatch(&live, &vts), None);
    vts.url = "ws://127.0.0.1:9000".into();
    assert_eq!(vts_port_mismatch(&live, &vts), Some(9000));
}

#[test]
fn load_layout_from_config_reads_zellij_section() {
    let text = "\n[zellij]\nlayout = \"\"\"\nlayout {\n    pane command=\"{chobits_bin}\"\n}\n\"\"\"\n";
    let layout = layout_from_config_text(Some(text));
    assert!(layout.contains("pane command=\"{chobits_bin}\""));
}

#[test]
fn load_layout_from_config_falls_back_to_default() {
    let layout = layout_from_config_text(Some("[llm]\nbackend = \"ollama\"\n"));
    assert!(layout.contains("plugin location=\"tab-bar\""));
    assert_eq!(layout_from_config_text(None), DEFAULT_LAYOUT_KDL);
}

#[test]
fn layout_single_quoted_is_read() {
    let text = "[zellij]\nlayout = '''\n  layout { x }\n'''\n[other]\n";
    assert_eq!(layout_from_config_text(Some(text)), "layout { x }");
}

#[test]
fn alias_allow_list_keys() {
    assert_eq!(AliasAllowList::One("a".into()).keys(), vec!["a".to_string()]);
    assert_eq!(
        AliasAllowList::Many(vec!["a".into(), "b".into()]).keys(),
        vec!["a".to_string(), "b".to_string()]
    );
}

fn candidate(path: &str, has_marker: bool, has_config: bool, has_bin_dir: bool) -> RootCandidate {
    RootCandidate { path: path.to_string(), has_marker, has_config, has_bin_dir }
}

#[test]
fn root_choice_follows_resolution_order() {
    let up = vec![
        candidate("/opt/chobits/bin", false, false, false),
        candidate("/opt/chobits", false, true, true),
        candidate("/opt", true, false, false),
        candidate("/", false, false, false),
    ];
    assert_eq!(root_choice(Some("/custom"), &up), "/custom");
    assert_eq!(root_choice(None, &up), "/opt");
    assert_eq!(root_choice(None, &up[..2]), "/opt/chobits");
    assert_eq!(root_choice(None, &[candidate("/x", false, false, true)]), "/x");
    assert_eq!(root_choice(None, &up[..1]), ".");
    assert_eq!(root_choice(None, &[]), ".");
}

#[test]
fn executable_search_order() {
    assert_eq!(
        executable_candidates("/r", "zellij", "exe"),
        vec![
            "/r/local/bin/zellij.exe".to_string(),
            "/r/local/bin/zellij".to_string(),
            "/r/bin/zellij.exe".to_string(),
            "/r/bin/zellij".to_string(),
        ]
    );
    assert_eq!(executable_candidates("/r", "zellij", "")[0], "/r/local/bin/zellij");
    let found = vec![
        ("/r/local/bin/zellij.exe".to_string(), false),
        ("/r/local/bin/zellij".to_string(), false),
        ("/r/bin/zellij.exe".to_string(), true),
        ("/r/bin/zellij".to_string(), true),
    ];
    assert_eq!(first_existing(&found, "zellij"), "/r/bin/zellij.exe");
    assert_eq!(first_existing(&found[..2], "zellij"), "zellij");
}

#[test]
fn wasm_search_order() {
    let ancestors = vec!["/w/target/debug".to_string(), "/w".to_string()];
    assert_eq!(
        wasm_candidates("/r", &ancestors, "p.wasm"),
        vec![
            "/r/local/bin/p.wasm".to_string(),
            "/r/bin/p.wasm".to_string(),
            "/w/target/debug/target/wasm32-wasip1/debug/p.wasm".to_string(),
            "/w/target/debug/target/wasm32-wasip1/release/p.wasm".to_string(),
            "/w/target/wasm32-wasip1/debug/p.wasm".to_string(),
            "/w/target/wasm32-wasip1/release/p.wasm".to_string(),
        ]
    );
}
