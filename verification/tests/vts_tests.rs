use chobits::config::{AliasAllowList, VtsConfig};
use chobits::labels::{animation_matches, file_stem_key, normalize_label, slugify};
use chobits::vts::{
    auth_token_from_text, build_alias_maps, build_cache, connect_step, discover_cache, default_alias_for_key,
    expression_key, is_idle_loop_target, llm_alias_list, lookup_cache_key, loop_name_for_key,
    pick_allow_list_key, pick_default_loop_key, resolve_llm_alias, waiting_loop_label,
    AliasTargets, AnimationPhase, CachedHotkey, ConnectStep, ExpressionEntry, HotkeyAction,
    HotkeyInfo, HotkeyKind, LoopPlan, MotionEvent, MotionStep, MotionWait, MotionWaitOutcome,
    PlayStep, ProbeResult, VtsPlayer,
};

const TAP_MOTION: &str = "motion/hiyori_tap.motion3.json";

fn sample_hotkey(name: &str, action: HotkeyAction, file: &str) -> HotkeyInfo {
    HotkeyInfo {
        name: name.into(),
        action,
        file: file.into(),
        hotkey_id: format!("id-{name}"),
    }
}

fn test_entry(kind: HotkeyKind, can_loop: bool) -> ExpressionEntry {
    ExpressionEntry {
        hotkey_id: "test-hotkey".into(),
        animation_file: String::new(),
        kind,
        can_loop,
        duration_ms: 2000,
        loop_interval_ms: if can_loop { 4000 } else { 2000 },
        fallback_ms: 2000,
    }
}

fn aliases(pairs: &[(&str, &[&str])]) -> Vec<AliasTargets> {
    pairs
        .iter()
        .map(|(a, ks)| AliasTargets {
            alias: a.to_string(),
            keys: ks.iter().map(|k| k.to_string()).collect(),
        })
        .collect()
}

fn cached(key: &str, entry: ExpressionEntry) -> CachedHotkey {
    CachedHotkey { key: key.into(), entry }
}

fn loop_test_cache() -> Vec<CachedHotkey> {
    vec![
        cached("idle_0", test_entry(HotkeyKind::Motion, true)),
        cached("idle_1", test_entry(HotkeyKind::Motion, true)),
        cached("idle_2", test_entry(HotkeyKind::Motion, true)),
        cached("tap_0", test_entry(HotkeyKind::Motion, false)),
        cached("flick_body_0", test_entry(HotkeyKind::Motion, false)),
    ]
}

fn s(x: &str) -> String {
    x.to_string()
}

#[test]
fn llm_alias_list_returns_only_configured_aliases() {
    let t = aliases(&[("idle", &["idle_0", "idle_1"]), ("wave", &["tap_0"])]);
    assert_eq!(llm_alias_list(&t), vec!["idle".to_string(), "wave".to_string()]);
    assert!(llm_alias_list(&[]).is_empty());
}

#[test]
fn resolve_picks_from_allow_list() {
    let t = aliases(&[("idle", &["idle_0", "idle_1"])]);
    let resolved = resolve_llm_alias("idle", &t, &s("idle_0"));
    assert!(resolved == "idle_0" || resolved == "idle_1");
    assert_eq!(resolve_llm_alias("unknown", &t, &s("idle_0")), "idle_0");
    assert_eq!(
        resolve_llm_alias("wave", &aliases(&[("wave", &["tap_0"])]), &s("idle_0")),
        "tap_0"
    );
}

#[test]
fn loop_name_uses_alias_when_allow_list_has_multiple() {
    let t = aliases(&[("idle", &["idle_0", "idle_1"])]);
    assert_eq!(loop_name_for_key(&s("idle_0"), &t), "idle");
    assert_eq!(loop_name_for_key(&s("tap_0"), &t), "tap_0");
}

#[test]
fn default_alias_finds_label_for_any_allow_list_member() {
    let t = aliases(&[("idle", &["idle_0", "idle_1"])]);
    assert_eq!(default_alias_for_key(&s("idle_1"), &t), "idle");
}

#[test]
fn default_alias_falls_back_to_least_alias() {
    let t = aliases(&[("wave", &["tap_0"]), ("bounce", &["tap_1"])]);
    assert_eq!(default_alias_for_key(&s("idle_9"), &t), "bounce");
    assert_eq!(default_alias_for_key(&s("idle_9"), &[]), "");
    let t = aliases(&[("wave", &["tap_0"]), ("idle", &["idle_0"])]);
    assert_eq!(default_alias_for_key(&s("other"), &t), "idle");
}

#[test]
fn is_idle_loop_target_matches_idle_kind_and_alias() {
    let entry = test_entry(HotkeyKind::Idle, true);
    let t = aliases(&[("idle", &["idle_2"])]);
    assert!(is_idle_loop_target(&s("idle_2"), &entry, &t));
    let motion = test_entry(HotkeyKind::Motion, true);
    assert!(!is_idle_loop_target(&s("tap_0"), &motion, &t));
    assert!(is_idle_loop_target(&s("idle_2"), &motion, &t));
}

#[test]
fn waiting_loop_label_tries_thinking_then_default() {
    let mut cache = loop_test_cache();
    cache.push(cached("thinking", test_entry(HotkeyKind::Motion, false)));
    assert_eq!(waiting_loop_label(&cache, &[], &s("idle_0")), "thinking");

    let t = aliases(&[("thinking", &["tap_0"])]);
    assert_eq!(waiting_loop_label(&loop_test_cache(), &t, &s("idle_0")), "thinking");

    let idle = aliases(&[("idle", &["idle_0", "idle_1"])]);
    assert_eq!(waiting_loop_label(&loop_test_cache(), &idle, &s("idle_0")), "idle");
    assert_eq!(waiting_loop_label(&loop_test_cache(), &[], &s("idle_0")), "idle_0");
}

#[test]
fn default_loop_prefers_idle_alias_over_discovery_order() {
    let cache = loop_test_cache();
    let order = vec![s("tap_0"), s("idle_0"), s("idle_1")];
    let t = aliases(&[("idle", &["idle_0", "idle_1", "idle_2"])]);
    assert_eq!(pick_default_loop_key(&cache, &order, &s("tap_0"), &t), "idle_0");
}

#[test]
fn default_loop_uses_discovery_order_then_fallback() {
    let cache = loop_test_cache();
    let order = vec![s("tap_0"), s("idle_1"), s("idle_0")];
    assert_eq!(pick_default_loop_key(&cache, &order, &s("tap_0"), &[]), "idle_1");
    let order = vec![s("tap_0")];
    assert_eq!(pick_default_loop_key(&cache, &order, &s("flick_body_0"), &[]), "flick_body_0");
}

#[test]
fn animation_matches_equivalent_paths() {
    assert!(animation_matches("motion/hiyori_m01.motion3.json", "hiyori_m01.motion3.json"));
    assert!(animation_matches(
        "motion/hiyori_m03.motion3.json",
        "motions/hiyori_m03.motion3.json"
    ));
    assert!(animation_matches(
        "motions/hiyori_tap.motion3.json",
        "motion/hiyori_tap.motion3.json"
    ));
    assert!(!animation_matches(
        "motion/hiyori_m01.motion3.json",
        "motion/hiyori_tap.motion3.json"
    ));
}

#[test]
fn lookup_cache_key_accepts_vts_hotkey_names() {
    let cache = loop_test_cache();
    assert_eq!(lookup_cache_key(&cache, "Idle #0").as_deref(), Some("idle_0"));
    assert_eq!(lookup_cache_key(&cache, "Idle #2").as_deref(), Some("idle_2"));
    assert_eq!(lookup_cache_key(&cache, "Flick@Body #0").as_deref(), Some("flick_body_0"));
    assert_eq!(lookup_cache_key(&cache, "Nothing"), None);
}

#[test]
fn hiyori_motion_keys_use_group_labels() {
    let hk = sample_hotkey("Idle #0", HotkeyAction::TriggerAnimation, "motion/hiyori_m01.motion3.json");
    assert_eq!(expression_key(&hk, true).as_deref(), Some("idle_0"));
}

#[test]
fn weak_motion_labels_use_file_stem() {
    let hk = sample_hotkey(" #0", HotkeyAction::TriggerAnimation, "motions/mtn_02.motion3.json");
    assert_eq!(expression_key(&hk, true).as_deref(), Some("mtn_02"));
}

#[test]
fn labels_and_slugs() {
    assert_eq!(slugify("Hello, World!"), "hello_world");
    assert_eq!(slugify("__A--B__"), "a_b");
    assert_eq!(normalize_label("  Motion: Tap Body "), Some("tap_body".to_string()));
    assert_eq!(normalize_label("!!!"), None);
    assert_eq!(file_stem_key("a/b/Smile.exp3.json"), Some("smile".to_string()));
    assert_eq!(file_stem_key(""), None);
}

#[test]
fn pick_allow_list_key_picks_a_member() {
    let keys = vec![s("a"), s("b"), s("c")];
    for _ in 0..20 {
        let k = pick_allow_list_key(&keys);
        assert!(keys.contains(&k));
    }
    assert_eq!(pick_allow_list_key(&[s("only")]), "only");
    assert_eq!(pick_allow_list_key(&[]), "");
}

#[test]
fn build_cache_skips_duplicates_and_other_actions() {
    let hs = vec![
        sample_hotkey("Idle #0", HotkeyAction::TriggerAnimation, "motion/a.motion3.json"),
        sample_hotkey("Smile", HotkeyAction::ToggleExpression, "exp/smile.exp3.json"),
        sample_hotkey("Idle #0", HotkeyAction::ChangeIdleAnimation, "motion/b.motion3.json"),
        sample_hotkey("Reset", HotkeyAction::Other, ""),
    ];
    let (cache, order) = build_cache(true, "Hiyori", &hs).expect("cache");
    assert_eq!(order, vec![s("idle_0"), s("smile")]);
    assert_eq!(cache.len(), 2);
    assert_eq!(cache[0].entry.kind, HotkeyKind::Motion);
    assert_eq!(cache[0].entry.duration_ms, 3000);
    assert_eq!(cache[0].entry.loop_interval_ms, 4000);
    assert!(!cache[1].entry.can_loop);
    assert_eq!(cache[1].entry.loop_interval_ms, 2000);
    assert_eq!(cache[1].entry.hotkey_id, "id-Smile");
}

#[test]
fn build_cache_errors() {
    assert_eq!(
        build_cache(false, "m", &[]).err(),
        Some("VTS has no model loaded — start live-ascii with a model first".to_string())
    );
    assert_eq!(
        build_cache(true, "Hiyori", &[]).err(),
        Some("No motion/expression hotkeys found on model \"Hiyori\"".to_string())
    );
}

#[test]
fn alias_maps_register_valid_targets_only() {
    let cache = vec![
        cached("idle_0", test_entry(HotkeyKind::Motion, true)),
        cached("smile", test_entry(HotkeyKind::Expression, false)),
    ];
    let vts = VtsConfig {
        url: s("ws://127.0.0.1:8001"),
        plugin_name: s("Chobits"),
        developer: s("Chobits"),
        auth_token_path: s("/t"),
        connect_timeout_secs: 30,
        expression_alias: vec![
            (s("Happy"), AliasAllowList::Many(vec![s("Smile"), s("smile"), s("idle_0")])),
            (s(""), AliasAllowList::One(s("smile"))),
        ],
        motion_alias: vec![
            (s("happy"), AliasAllowList::One(s("idle_0"))),
            (s("Idle"), AliasAllowList::Many(vec![s("Idle #0"), s("missing")])),
            (s("none"), AliasAllowList::One(s("smile"))),
        ],
    };
    let t = build_alias_maps(&cache, &vts);
    assert_eq!(t.len(), 2);
    assert_eq!(t[0].alias, "happy");
    assert_eq!(t[0].keys, vec![s("smile")]);
    assert_eq!(t[1].alias, "idle");
    assert_eq!(t[1].keys, vec![s("idle_0")]);
}

#[test]
fn player_plans_play_and_loop() {
    let mut motion = test_entry(HotkeyKind::Motion, true);
    motion.animation_file = TAP_MOTION.into();
    motion.fallback_ms = 3000;
    let idle = test_entry(HotkeyKind::Idle, true);
    let cache = vec![cached("tap", motion), cached("rest", idle), cached("smile", test_entry(HotkeyKind::Expression, false))];
    let player = VtsPlayer::from_discovery(cache, vec![s("tap"), s("rest"), s("smile")], &VtsConfig {
        url: s("u"),
        plugin_name: s("p"),
        developer: s("d"),
        auth_token_path: s("/t"),
        connect_timeout_secs: 1,
        expression_alias: vec![],
        motion_alias: vec![],
    });
    assert_eq!(player.default_loop_key, "tap");
    match player.plan_play("Tap") {
        PlayStep::TriggerAndAwaitMotion { hotkey_id, animation_file, fallback_ms } => {
            assert_eq!(hotkey_id, "test-hotkey");
            assert_eq!(animation_file, TAP_MOTION);
            assert_eq!(fallback_ms, 3000);
        }
        other => panic!("unexpected {other:?}"),
    }
    match player.plan_play("smile") {
        PlayStep::TriggerAndWait { wait_ms, .. } => assert_eq!(wait_ms, 2000),
        other => panic!("unexpected {other:?}"),
    }
    match player.plan_looping("rest") {
        LoopPlan::HoldIdle { hotkey_id } => assert_eq!(hotkey_id, "test-hotkey"),
        other => panic!("unexpected {other:?}"),
    }
    match player.plan_looping("tap") {
        LoopPlan::Cycle { name } => assert_eq!(name, "tap"),
        other => panic!("unexpected {other:?}"),
    }
    assert!(player.load_named("unknown-name").hotkey_id == "test-hotkey");
    assert_eq!(player.default_expression_label(), "");
}

fn feed(events: Vec<MotionEvent>, expected: &str, fallback_ms: u64) -> MotionWaitOutcome {
    let mut wait = MotionWait::new(fallback_ms);
    for ev in events {
        match wait.step(&ev, expected) {
            MotionStep::Listen => {}
            MotionStep::Finish(o) => return o,
            MotionStep::FallbackWait(_) => return MotionWaitOutcome::Fallback,
        }
    }
    match wait.step(&MotionEvent::TimedOut, expected) {
        MotionStep::FallbackWait(_) => MotionWaitOutcome::Fallback,
        MotionStep::Finish(o) => o,
        MotionStep::Listen => panic!("a timeout never keeps listening"),
    }
}

fn anim(name: &str, phase: AnimationPhase) -> MotionEvent {
    MotionEvent::Animation { name: name.into(), phase, length_ms: 1500 }
}

#[test]
fn wait_for_motion_end_completes_on_matching_end() {
    let outcome = feed(
        vec![anim(TAP_MOTION, AnimationPhase::Start), anim(TAP_MOTION, AnimationPhase::End)],
        TAP_MOTION,
        100,
    );
    assert_eq!(outcome, MotionWaitOutcome::Completed);
}

#[test]
fn wait_for_motion_end_completes_on_idle_end() {
    let m = "motion/hiyori_m01.motion3.json";
    let outcome = feed(vec![anim(m, AnimationPhase::Start), anim(m, AnimationPhase::End)], m, 100);
    assert_eq!(outcome, MotionWaitOutcome::Completed);
}

#[test]
fn wait_for_motion_end_ignores_stale_end_without_start() {
    let outcome = feed(vec![anim(TAP_MOTION, AnimationPhase::End)], TAP_MOTION, 1);
    assert_eq!(outcome, MotionWaitOutcome::Fallback);
}

#[test]
fn wait_for_motion_end_ignores_unrelated_events() {
    let outcome = feed(
        vec![
            anim("motion/other.motion3.json", AnimationPhase::End),
            anim(TAP_MOTION, AnimationPhase::Start),
            anim(TAP_MOTION, AnimationPhase::End),
        ],
        TAP_MOTION,
        100,
    );
    assert_eq!(outcome, MotionWaitOutcome::Completed);
}

#[test]
fn wait_for_motion_end_honours_cancel() {
    let outcome = feed(vec![MotionEvent::Cancelled], TAP_MOTION, 100);
    assert_eq!(outcome, MotionWaitOutcome::Cancelled);
}

#[test]
fn wait_for_motion_end_falls_back_without_end() {
    let outcome = feed(vec![], TAP_MOTION, 1);
    assert_eq!(outcome, MotionWaitOutcome::Fallback);
}

#[test]
fn motion_start_sets_fallback_length() {
    let mut w = MotionWait::new(100);
    assert_eq!(w.step(&anim(TAP_MOTION, AnimationPhase::Start), TAP_MOTION), MotionStep::Listen);
    assert_eq!(w.step(&MotionEvent::Closed, TAP_MOTION), MotionStep::FallbackWait(1500));
}

#[test]
fn connect_steps() {
    assert!(matches!(connect_step(&ProbeResult::Active, 0, 30), ConnectStep::Connected));
    assert!(matches!(connect_step(&ProbeResult::Inactive, 29_999, 30), ConnectStep::Retry));
    match connect_step(&ProbeResult::Inactive, 30_000, 30) {
        ConnectStep::GiveUp(m) => assert_eq!(m, "VTS API is not active"),
        other => panic!("unexpected {other:?}"),
    }
    match connect_step(&ProbeResult::Failed(s("refused")), 31_000, 30) {
        ConnectStep::GiveUp(m) => assert_eq!(m, "VTS connection failed after 30s: refused"),
        other => panic!("unexpected {other:?}"),
    }
}

#[test]
fn auth_token_is_trimmed() {
    assert_eq!(auth_token_from_text("  tok\n"), Some(s("tok")));
    assert_eq!(auth_token_from_text(" \n"), None);
}

#[test]
fn plan_looping_falls_back_to_waiting_label_for_thinking() {
    let player = VtsPlayer {
        default_loop_key: s("idle_0"),
        alias_allow: vec![],
        cache: loop_test_cache(),
    };
    match player.plan_looping("thinking") {
        LoopPlan::Cycle { name } => assert_eq!(name, "thinking"),
        other => panic!("unexpected plan {other:?}"),
    }
    let stray = VtsPlayer {
        default_loop_key: s("idle_0"),
        alias_allow: aliases(&[("thinking", &["nothing"])]),
        cache: loop_test_cache(),
    };
    match stray.plan_looping("thinking") {
        LoopPlan::Cycle { name } => assert_eq!(name, "idle_0"),
        other => panic!("unexpected plan {other:?}"),
    }
    let held = VtsPlayer {
        default_loop_key: s("idle_0"),
        alias_allow: aliases(&[("idle", &["idle_0"])]),
        cache: loop_test_cache(),
    };
    match held.plan_looping("thinking") {
        LoopPlan::HoldIdle { hotkey_id } => assert_eq!(hotkey_id, "test-hotkey"),
        other => panic!("unexpected plan {other:?}"),
    }
    let empty = VtsPlayer { default_loop_key: s("gone"), alias_allow: vec![], cache: loop_test_cache() };
    assert!(matches!(empty.plan_looping("missing"), LoopPlan::Unknown));
    assert!(matches!(empty.plan_looping("thinking"), LoopPlan::Unknown));
}

#[test]
fn discover_cache_leaves_out_endless_stem_searches() {
    let hs = vec![
        sample_hotkey("Idle #0", HotkeyAction::TriggerAnimation, "motion/a.motion3.json"),
        sample_hotkey("#1", HotkeyAction::TriggerAnimation, ".abc"),
    ];
    let (cache, order) = discover_cache(true, "Hiyori", &hs).expect("cache");
    assert_eq!(order, vec![s("idle_0")]);
    assert_eq!(cache.len(), 1);
    assert_eq!(
        discover_cache(false, "m", &hs).err(),
        Some("VTS has no model loaded — start live-ascii with a model first".to_string())
    );
}
