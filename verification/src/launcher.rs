//! The command-line programs: what `chobits-start`, `chobits-send` and
//! `chobits-bar` decide from their arguments and settings.
use vstd::prelude::*;
use crate::paths::{join_path, path_join};
use crate::session::{parse_session_choice, session_choice_spec};
use crate::text::{append_str, chars_of, parse_uint, parse_uint_exec, string_of, string_views, trim, trimmed};

verus! {

// ---------------------------------------------------------------------------
// chobits-start
// ---------------------------------------------------------------------------

/// What `chobits-start` was asked to do.
#[derive(Debug, Clone)]
pub enum StartCommand {
    /// No argument: launch or attach to a session.
    Launch,
    /// `zellij <args>`: hand the arguments to the bundled Zellij.
    Zellij(Vec<String>),
    /// `help`, `--help` or `-h`.
    Help,
    /// Anything else.
    Unknown(String),
}

/// What `chobits-start` does for its arguments (the program name left out).
pub open spec fn start_command_spec(args: Seq<Seq<char>>, r: StartCommand) -> bool {
    if args.len() == 0 {
        r is Launch
    } else if args[0] == "zellij"@ {
        r matches StartCommand::Zellij(rest) && string_views(rest@) == args.drop_first()
    } else if args[0] == "help"@ || args[0] == "--help"@ || args[0] == "-h"@ {
        r is Help
    } else {
        r matches StartCommand::Unknown(c) && c@ == args[0]
    }
}

/// What `chobits-start` was asked to do.
pub fn start_command(args: &[String]) -> (r: StartCommand)
    ensures
        start_command_spec(string_views(args@), r),
{
    if args.len() == 0 {
        return StartCommand::Launch;
    }
    let cmd = &args[0];
    if *cmd == "zellij".to_owned() {
        let mut rest: Vec<String> = Vec::new();
        let mut i: usize = 1;
        while i < args.len()
            invariant
                1 <= i <= args@.len(),
                string_views(rest@) == string_views(args@).subrange(1, i as int),
            decreases args@.len() - i,
        {
            let ghost before = rest@;
            rest.push(args[i].clone());
            assert(string_views(rest@) == string_views(before).push(args@[i as int]@));
            i += 1;
            assert(string_views(rest@) == string_views(args@).subrange(1, i as int));
        }
        assert(string_views(args@).subrange(1, args@.len() as int) == string_views(args@).drop_first());
        return StartCommand::Zellij(rest);
    }
    if *cmd == "help".to_owned() || *cmd == "--help".to_owned() || *cmd == "-h".to_owned() {
        return StartCommand::Help;
    }
    StartCommand::Unknown(cmd.clone())
}

/// The name of a new session started at `timestamp`.
pub fn session_name(timestamp: &str) -> (r: String)
    ensures
        r@ == "chobits-"@ + timestamp@,
{
    let mut v = chars_of("chobits-");
    append_str(&mut v, timestamp);
    string_of(v.as_slice())
}

/// Where the launcher keeps Zellij's files.
#[derive(Debug, Clone)]
pub struct ZellijPaths {
    pub layouts_dir: String,
    pub plugins_dir: String,
    pub layout_path: String,
}

/// `<config>/layouts`, `<data>/plugins` and `<config>/layouts/layout.kdl`.
pub fn zellij_paths(config_dir: &str, data_dir: &str) -> (r: ZellijPaths)
    ensures
        r.layouts_dir@ == path_join(config_dir@, "layouts"@),
        r.plugins_dir@ == path_join(data_dir@, "plugins"@),
        r.layout_path@ == path_join(path_join(config_dir@, "layouts"@), "layout.kdl"@),
{
    let layouts_dir = join_path(config_dir, "layouts");
    let plugins_dir = join_path(data_dir, "plugins");
    let layout_path = join_path(layouts_dir.as_str(), "layout.kdl");
    ZellijPaths { layouts_dir, plugins_dir, layout_path }
}

/// What to do about the running chobits sessions.
#[derive(Debug, Clone, Copy, PartialEq, Eq, Structural)]
pub enum SessionPlan {
    /// None runs: create one.
    Create,
    /// One runs: attach to it.
    AttachOnly,
    /// Several run: ask which.
    Ask,
}

pub fn session_plan(count: usize) -> (r: SessionPlan)
    ensures
        count == 0 ==> r == SessionPlan::Create,
        count == 1 ==> r == SessionPlan::AttachOnly,
        count > 1 ==> r == SessionPlan::Ask,
{
    if count == 0 {
        SessionPlan::Create
    } else if count == 1 {
        SessionPlan::AttachOnly
    } else {
        SessionPlan::Ask
    }
}

/// The session the user picked by typing `input` among `sessions`.
pub fn picked_session(input: &str, sessions: &[String]) -> (r: Option<String>)
    ensures
        match session_choice_spec(input@, sessions@.len() as nat) {
            Some(n) => r matches Some(s) && s@ == sessions@[n - 1]@,
            None => r is None,
        },
{
    match parse_session_choice(input, sessions.len()) {
        Some(n) => Some(sessions[n - 1].clone()),
        None => None,
    }
}

// ---------------------------------------------------------------------------
// chobits-send
// ---------------------------------------------------------------------------

/// The port `chobits-send` falls back to.
pub const SEND_FALLBACK_PORT: u16 = 7878;

/// The settings of `chobits-send` after reading arguments from index `i`:
/// `--port <n>` sets the port (the fallback port when `n` is not a `u16`),
/// `--text <t>` sets the text; an option without a value and anything else
/// is skipped; later options win.
pub open spec fn send_args_spec(args: Seq<Seq<char>>, i: int, port: u16, text: Option<Seq<char>>) -> (u16, Option<Seq<char>>)
    decreases args.len() - i,
{
    if i < 0 || i >= args.len() {
        (port, text)
    } else if args[i] == "--port"@ && i + 1 < args.len() {
        let p = match parse_uint(args[i + 1], 65535) {
            Some(n) => n as u16,
            None => SEND_FALLBACK_PORT,
        };
        send_args_spec(args, i + 2, p, text)
    } else if args[i] == "--text"@ && i + 1 < args.len() {
        send_args_spec(args, i + 2, port, Some(args[i + 1]))
    } else {
        send_args_spec(args, i + 1, port, text)
    }
}

/// The port and text `chobits-send` was given (the program name left out),
/// starting from the configured port.
pub fn send_args(args: &[String], configured_port: u16) -> (r: (u16, Option<String>))
    ensures
        ({
            let (p, t) = send_args_spec(string_views(args@), 0, configured_port, None);
            &&& r.0 == p
            &&& match t {
                Some(x) => r.1 matches Some(y) && y@ == x,
                None => r.1 is None,
            }
        }),
{
    let port_flag = "--port".to_owned();
    let text_flag = "--text".to_owned();
    let mut port = configured_port;
    let mut text: Option<String> = None;
    let mut i: usize = 0;
    while i < args.len()
        invariant
            i <= args@.len(),
            port_flag@ == "--port"@,
            text_flag@ == "--text"@,
            send_args_spec(string_views(args@), i as int, port, match text {
                Some(x) => Some(x@),
                None => None,
            }) == send_args_spec(string_views(args@), 0, configured_port, None),
        decreases args@.len() - i,
    {
        if args[i] == port_flag && i + 1 < args.len() {
            let c = chars_of(args[i + 1].as_str());
            port = match parse_uint_exec(c.as_slice(), 65535) {
                Some(n) => n as u16,
                None => SEND_FALLBACK_PORT,
            };
            i += 2;
        } else if args[i] == text_flag && i + 1 < args.len() {
            text = Some(args[i + 1].clone());
            i += 2;
        } else {
            i += 1;
        }
    }
    (port, text)
}

/// What `chobits-send` sends: the given text, else the standard input
/// trimmed; none when that is empty (an error).
pub fn send_payload(text: Option<String>, stdin: &str) -> (r: Option<String>)
    ensures
        match text {
            Some(t) => if t@.len() == 0 {
                r is None
            } else {
                r == Some(t)
            },
            None => if trim(stdin@).len() == 0 {
                r is None
            } else {
                r matches Some(x) && x@ == trim(stdin@)
            },
        },
{
    let payload = match text {
        Some(t) => t,
        None => {
            let c = chars_of(stdin);
            let t = trimmed(c.as_slice());
            string_of(t.as_slice())
        },
    };
    if payload.as_str().is_empty() {
        None
    } else {
        Some(payload)
    }
}

// ---------------------------------------------------------------------------
// chobits-bar
// ---------------------------------------------------------------------------

/// The port the bar listens on when neither the configuration nor the
/// environment gives one.
pub const BAR_FALLBACK_PORT: u16 = 7879;

/// The bar's port: the configured one, else `CHOBITS_BAR_PORT` parsed as a
/// `u16`, else 7879.
pub fn bar_port(configured: Option<u16>, env_value: Option<&str>) -> (r: u16)
    ensures
        configured matches Some(p) ==> r == p,
        configured is None ==> match env_value {
            Some(v) => match parse_uint(v@, 65535) {
                Some(n) => r == n,
                None => r == BAR_FALLBACK_PORT,
            },
            None => r == BAR_FALLBACK_PORT,
        },
{
    match configured {
        Some(p) => p,
        None => match env_value {
            Some(v) => {
                let c = chars_of(v);
                match parse_uint_exec(c.as_slice(), 65535) {
                    Some(n) => n as u16,
                    None => BAR_FALLBACK_PORT,
                }
            },
            None => BAR_FALLBACK_PORT,
        },
    }
}

/// The inside of the bar's frame: the terminal less its border, as rows
/// and as a width.
pub fn inner_size(width: u16, height: u16) -> (r: (u16, usize))
    ensures
        r.0 == (if height >= 2 { height - 2 } else { 0 }),
        r.1 == (if width >= 2 { width - 2 } else { 0 }),
{
    let h: u16 = if height >= 2 {
        height - 2
    } else {
        0
    };
    let w: u16 = if width >= 2 {
        width - 2
    } else {
        0
    };
    (h, w as usize)
}

/// What the bar's terminal reported.
#[derive(Debug, Clone, Copy, PartialEq, Eq, Structural)]
pub enum BarInput {
    /// A key with a character, and whether Control was held.
    Char(char, bool),
    Escape,
    ScrollUp,
    ScrollDown,
    Other,
}

/// What the bar does about it.
#[derive(Debug, Clone, Copy, PartialEq, Eq, Structural)]
pub enum BarCommand {
    Quit,
    /// Scroll up three lines, within the limit.
    ScrollUp,
    /// Scroll down three lines.
    ScrollDown,
    Nothing,
}

/// `q`, Escape and Control-C quit; the wheel scrolls three lines.
pub fn bar_command(input: BarInput) -> (r: BarCommand)
    ensures
        r == match input {
            BarInput::Char(c, ctrl) => if c == 'q' || (c == 'c' && ctrl) {
                BarCommand::Quit
            } else {
                BarCommand::Nothing
            },
            BarInput::Escape => BarCommand::Quit,
            BarInput::ScrollUp => BarCommand::ScrollUp,
            BarInput::ScrollDown => BarCommand::ScrollDown,
            BarInput::Other => BarCommand::Nothing,
        },
{
    match input {
        BarInput::Char(c, ctrl) => if c == 'q' || (c == 'c' && ctrl) {
            BarCommand::Quit
        } else {
            BarCommand::Nothing
        },
        BarInput::Escape => BarCommand::Quit,
        BarInput::ScrollUp => BarCommand::ScrollUp,
        BarInput::ScrollDown => BarCommand::ScrollDown,
        BarInput::Other => BarCommand::Nothing,
    }
}

} // verus!
