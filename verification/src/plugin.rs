//! The Zellij plugin: which pane it watches, what it posts about it, and
//! its settings.
use vstd::prelude::*;
use crate::llm::{json_quoted, json_string};
use crate::snapshot::{DEFAULT_SNAPSHOT_PORT, truncate_snapshot, truncate_spec};
use crate::text::{append_chars, append_str, chars_of, decimal, decimal_exec, join, parse_uint, parse_uint_exec, string_of, string_views};
use crate::viewport::{active_line_from_viewport, shown_line, viewport_row_spec};
use crate::llm::join_with;

verus! {

/// The snapshot budget when none is configured.
pub const DEFAULT_MAX_BYTES: usize = 4096;

/// What the plugin reads of a pane.
#[derive(Debug, Clone)]
pub struct PaneSummary {
    pub id: u32,
    pub is_focused: bool,
    pub is_plugin: bool,
    pub title: String,
    pub terminal_command: Option<String>,
}

/// The pane to watch: the first focused terminal pane, tab by tab in the
/// order given, as the positions of its tab and of the pane in that tab.
pub open spec fn focused_pane_spec(tabs: Seq<(usize, Vec<PaneSummary>)>, t: int) -> Option<(int, int)>
    decreases tabs.len() - t,
{
    if t < 0 || t >= tabs.len() {
        None
    } else {
        match focused_in(tabs[t].1@, 0) {
            Some(p) => Some((t, p)),
            None => focused_pane_spec(tabs, t + 1),
        }
    }
}

/// The first focused terminal pane at index `i` or later.
pub open spec fn focused_in(ps: Seq<PaneSummary>, i: int) -> Option<int>
    decreases ps.len() - i,
{
    if i < 0 || i >= ps.len() {
        None
    } else if ps[i].is_focused && !ps[i].is_plugin {
        Some(i)
    } else {
        focused_in(ps, i + 1)
    }
}

/// The pane to watch: the positions of its tab and of the pane in the tab.
pub fn focused_pane(tabs: &[(usize, Vec<PaneSummary>)]) -> (r: Option<(usize, usize)>)
    ensures
        match focused_pane_spec(tabs@, 0) {
            Some((t, p)) => r == Some((t as usize, p as usize)),
            None => r is None,
        },
        r matches Some((t, p)) ==> t < tabs@.len() && p < tabs@[t as int].1@.len(),
{
    let mut t: usize = 0;
    while t < tabs.len()
        invariant
            t <= tabs@.len(),
            focused_pane_spec(tabs@, t as int) == focused_pane_spec(tabs@, 0),
        decreases tabs@.len() - t,
    {
        let ps = &tabs[t].1;
        let mut i: usize = 0;
        while i < ps.len()
            invariant
                t < tabs@.len(),
                *ps == tabs@[t as int].1,
                focused_pane_spec(tabs@, t as int) == focused_pane_spec(tabs@, 0),
                i <= ps@.len(),
                focused_in(ps@, i as int) == focused_in(ps@, 0),
            decreases ps@.len() - i,
        {
            if ps[i].is_focused && !ps[i].is_plugin {
                return Some((t, i));
            }
            i += 1;
        }
        t += 1;
    }
    None
}

/// The command shown for a pane: the command it runs, its words joined by
/// spaces, when known and not empty; else the command it was started with;
/// else its title.
pub open spec fn pane_command_spec(running: Option<Seq<Seq<char>>>, terminal_command: Option<Seq<char>>, title: Seq<char>) -> Seq<char> {
    match running {
        Some(args) if args.len() > 0 => join(args, " "@),
        _ => match terminal_command {
            Some(c) => c,
            None => title,
        },
    }
}

/// The command shown for a pane.
pub fn pane_command(running: Option<&[String]>, pane: &PaneSummary) -> (r: String)
    ensures
        r@ == pane_command_spec(
            match running {
                Some(a) => Some(string_views(a@)),
                None => None,
            },
            match pane.terminal_command {
                Some(c) => Some(c@),
                None => None,
            },
            pane.title@,
        ),
{
    if let Some(args) = running {
        if args.len() > 0 {
            let j = join_with(args, " ");
            return string_of(j.as_slice());
        }
    }
    match &pane.terminal_command {
        Some(c) => c.clone(),
        None => pane.title.clone(),
    }
}

/// The line under the cursor of a pane: none without a cursor.
pub fn active_line_from_pane(
    cursor_y: Option<usize>,
    pane_y: usize,
    pane_content_y: usize,
    viewport: &[String],
) -> (r: String)
    ensures
        cursor_y is None ==> r@.len() == 0,
        cursor_y matches Some(y) ==> ({
            let row = viewport_row_spec(y as int, pane_y as int, pane_content_y as int);
            if row < viewport@.len() {
                r@ == shown_line(viewport@[row]@)
            } else {
                r@ == Seq::<char>::empty()
            }
        }),
{
    match cursor_y {
        None => String::new(),
        Some(y) => active_line_from_viewport(viewport, y, pane_y, pane_content_y),
    }
}

/// The JSON object the plugin posts, as `serde_json` writes it: keys in
/// ascending order, no spaces, the tab's index as a string.
pub open spec fn snapshot_json(tab: usize, cmd: Seq<char>, active_line: Seq<char>, screen: Seq<char>) -> Seq<char> {
    "{\"active_line\":"@ + json_quoted(active_line) + ",\"cmd\":"@ + json_quoted(cmd)
        + ",\"screen\":"@ + json_quoted(screen) + ",\"tab\":"@ + json_quoted(decimal(tab as nat))
        + "}"@
}

/// The snapshot the plugin posts: the JSON object, within `max_bytes`.
pub fn plugin_snapshot(tab: usize, cmd: &str, active_line: &str, screen: &str, max_bytes: usize) -> (r: String)
    ensures
        r@ == truncate_spec(snapshot_json(tab, cmd@, active_line@, screen@), max_bytes as nat),
{
    let mut v = chars_of("{\"active_line\":");
    append_str(&mut v, json_string(active_line).as_str());
    append_str(&mut v, ",\"cmd\":");
    append_str(&mut v, json_string(cmd).as_str());
    append_str(&mut v, ",\"screen\":");
    append_str(&mut v, json_string(screen).as_str());
    append_str(&mut v, ",\"tab\":");
    let d = string_of(decimal_exec(tab as u64).as_slice());
    append_str(&mut v, json_string(d.as_str()).as_str());
    append_str(&mut v, "}");
    let body = string_of(v.as_slice());
    truncate_snapshot(body.as_str(), max_bytes)
}

/// Where the plugin posts snapshots.
pub fn snapshot_url(port: u16) -> (r: String)
    ensures
        r@ == "http://127.0.0.1:"@ + decimal(port as nat) + "/snapshot"@,
{
    let mut v = chars_of("http://127.0.0.1:");
    append_chars(&mut v, decimal_exec(port as u64).as_slice());
    append_str(&mut v, "/snapshot");
    string_of(v.as_slice())
}

/// The session is detached when the current session has no client; false
/// when no session is current. Sessions are `(is_current, connected_clients)`.
pub open spec fn detached_spec(sessions: Seq<(bool, usize)>, i: int) -> bool
    decreases sessions.len() - i,
{
    if i < 0 || i >= sessions.len() {
        false
    } else if sessions[i].0 {
        sessions[i].1 == 0
    } else {
        detached_spec(sessions, i + 1)
    }
}

/// Whether the plugin's session is detached.
pub fn detached(sessions: &[(bool, usize)]) -> (r: bool)
    ensures
        r == detached_spec(sessions@, 0),
{
    let mut i: usize = 0;
    while i < sessions.len()
        invariant
            i <= sessions@.len(),
            detached_spec(sessions@, i as int) == detached_spec(sessions@, 0),
        decreases sessions@.len() - i,
    {
        if sessions[i].0 {
            return sessions[i].1 == 0;
        }
        i += 1;
    }
    false
}

/// The snapshot port from the plugin's configuration: the value parsed as
/// a `u16`, else the default port.
pub fn configured_port(value: Option<&str>) -> (r: u16)
    ensures
        match value {
            Some(v) => match parse_uint(v@, 65535) {
                Some(n) => r == n,
                None => r == DEFAULT_SNAPSHOT_PORT,
            },
            None => r == DEFAULT_SNAPSHOT_PORT,
        },
{
    match value {
        Some(v) => {
            let c = chars_of(v);
            match parse_uint_exec(c.as_slice(), 65535) {
                Some(n) => n as u16,
                None => DEFAULT_SNAPSHOT_PORT,
            }
        },
        None => DEFAULT_SNAPSHOT_PORT,
    }
}

/// The snapshot budget from the plugin's configuration: the value parsed
/// as a `usize`, else 4096.
pub fn configured_max_bytes(value: Option<&str>) -> (r: usize)
    ensures
        match value {
            Some(v) => match parse_uint(v@, usize::MAX as nat) {
                Some(n) => r == n,
                None => r == DEFAULT_MAX_BYTES,
            },
            None => r == DEFAULT_MAX_BYTES,
        },
{
    match value {
        Some(v) => {
            let c = chars_of(v);
            match parse_uint_exec(c.as_slice(), usize::MAX as u64) {
                Some(n) => n as usize,
                None => DEFAULT_MAX_BYTES,
            }
        },
        None => DEFAULT_MAX_BYTES,
    }
}


/// The permissions the plugin is granted ahead of time.
pub open spec fn plugin_permissions_spec() -> Seq<Seq<char>> {
    seq!["ReadApplicationState"@, "ReadPaneContents"@, "WebAccess"@]
}

/// The permissions the plugin is granted ahead of time.
pub fn plugin_permissions() -> (r: Vec<String>)
    ensures
        string_views(r@) == plugin_permissions_spec(),
{
    let mut v: Vec<String> = Vec::new();
    v.push("ReadApplicationState".to_owned());
    v.push("ReadPaneContents".to_owned());
    v.push("WebAccess".to_owned());
    assert(string_views(v@) == plugin_permissions_spec());
    v
}

} // verus!
