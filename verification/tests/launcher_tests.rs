use chobits::launcher::{
    bar_command, bar_port, inner_size, picked_session, send_args, send_payload, session_name,
    session_plan, start_command, zellij_paths, BarCommand, BarInput, SessionPlan, StartCommand,
};

fn strings(v: &[&str]) -> Vec<String> {
    v.iter().map(|s| s.to_string()).collect()
}

#[test]
fn start_commands() {
    assert!(matches!(start_command(&[]), StartCommand::Launch));
    match start_command(&strings(&["zellij", "ls", "-n"])) {
        StartCommand::Zellij(rest) => assert_eq!(rest, strings(&["ls", "-n"])),
        other => panic!("unexpected {other:?}"),
    }
    assert!(matches!(start_command(&strings(&["-h"])), StartCommand::Help));
    match start_command(&strings(&["frob"])) {
        StartCommand::Unknown(c) => assert_eq!(c, "frob"),
        other => panic!("unexpected {other:?}"),
    }
}

#[test]
fn sessions_and_paths() {
    assert_eq!(session_name("20250101-120000"), "chobits-20250101-120000");
    let p = zellij_paths("/c", "/d");
    assert_eq!(p.layouts_dir, "/c/layouts");
    assert_eq!(p.plugins_dir, "/d/plugins");
    assert_eq!(p.layout_path, "/c/layouts/layout.kdl");
    assert_eq!(session_plan(0), SessionPlan::Create);
    assert_eq!(session_plan(1), SessionPlan::AttachOnly);
    assert_eq!(session_plan(3), SessionPlan::Ask);
    let sessions = strings(&["chobits-a", "chobits-b"]);
    assert_eq!(picked_session(" 2\n", &sessions), Some("chobits-b".to_string()));
    assert_eq!(picked_session("3", &sessions), None);
}

#[test]
fn send_arguments() {
    assert_eq!(send_args(&strings(&["--port", "9000", "--text", "hi"]), 7880), (9000, Some("hi".to_string())));
    assert_eq!(send_args(&strings(&["--port", "nope"]), 7880), (7878, None));
    assert_eq!(send_args(&strings(&["--port"]), 7880), (7880, None));
    assert_eq!(send_payload(Some("x".into()), ""), Some("x".to_string()));
    assert_eq!(send_payload(None, "  from stdin \n"), Some("from stdin".to_string()));
    assert_eq!(send_payload(None, " \n"), None);
    assert_eq!(send_payload(Some(String::new()), "ignored"), None);
}

#[test]
fn bar_program_decisions() {
    assert_eq!(bar_port(Some(1234), Some("99")), 1234);
    assert_eq!(bar_port(None, Some("99")), 99);
    assert_eq!(bar_port(None, Some("x")), 7879);
    assert_eq!(bar_port(None, None), 7879);
    assert_eq!(inner_size(80, 24), (22, 78));
    assert_eq!(inner_size(1, 1), (0, 0));
    assert_eq!(bar_command(BarInput::Char('q', false)), BarCommand::Quit);
    assert_eq!(bar_command(BarInput::Char('c', true)), BarCommand::Quit);
    assert_eq!(bar_command(BarInput::Char('c', false)), BarCommand::Nothing);
    assert_eq!(bar_command(BarInput::Escape), BarCommand::Quit);
    assert_eq!(bar_command(BarInput::ScrollUp), BarCommand::ScrollUp);
}
