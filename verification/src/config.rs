//! Configuration: the settings of every part, their defaults, and the
//! Zellij layout and live-ascii command line built from them.
use vstd::prelude::*;
use crate::paths::{is_absolute, join_path, path_is_absolute, path_join};
use crate::snapshot::DEFAULT_SNAPSHOT_PORT;
use crate::text::{
    append_chars, chars_of, copy_range, decimal, decimal_exec, find, find_exec, has_prefix,
    join, join_exec, last_index_of, last_index_of_exec, parse_uint, parse_uint_exec, replace,
    replace_exec, starts_with, string_of, string_views, trim, trimmed, views,
};
use crate::labels::trim_char_end;

verus! {

/// The default Zellij layout. Its placeholders are filled in at launch:
/// `{chobits_bin}`, `{plugin_path}`, `{interval_secs}`, `{max_bytes}`,
/// `{live_ascii_args}`, `{live_ascii_bin}`, `{chobits_bar_bin}` and
/// `{snapshot_port}`.
pub const DEFAULT_LAYOUT_KDL: &'static str = r#"layout {
    pane size=1 borderless=true {
        plugin location="tab-bar"
    }
    pane split_direction="vertical" {
        pane size=1 borderless=true command="{chobits_bin}" {
            args "--quiet"
        }
        pane focus=true
        pane split_direction="horizontal" size="30%" {
            pane command="{live_ascii_bin}" name="LIVE-ASCII" {
                args {live_ascii_args}
            }
            pane command="{chobits_bar_bin}" size="30%" borderless=true
        }
        pane size=1 borderless=true {
            plugin location="file:{plugin_path}" {
                snapshot_port "{snapshot_port}"
                interval_secs "{interval_secs}"
                max_bytes "{max_bytes}"
            }
        }
    }
    pane size=1 borderless=true {
        plugin location="status-bar"
    }
}
"#;

/// The file that marks the root of an installation.
pub const ROOT_MARKER: &'static str = ".chobits-root";

/// An alias target in the configuration: one hotkey or an allow-list.
#[derive(Debug, Clone, PartialEq, Eq)]
pub enum AliasAllowList {
    One(String),
    Many(Vec<String>),
}

/// The hotkeys an alias target names, in order.
pub open spec fn allow_list_keys(a: AliasAllowList) -> Seq<String> {
    match a {
        AliasAllowList::One(k) => seq![k],
        AliasAllowList::Many(ks) => ks@,
    }
}

impl AliasAllowList {
    pub fn keys(&self) -> (r: Vec<String>)
        ensures
            r@ == allow_list_keys(*self),
    {
        match self {
            AliasAllowList::One(key) => {
                let mut v: Vec<String> = Vec::new();
                v.push(key.clone());
                v
            },
            AliasAllowList::Many(keys) => {
                let mut v: Vec<String> = Vec::new();
                let mut i: usize = 0;
                while i < keys.len()
                    invariant
                        i <= keys@.len(),
                        v@ == keys@.subrange(0, i as int),
                    decreases keys@.len() - i,
                {
                    v.push(keys[i].clone());
                    i += 1;
                    assert(v@ == keys@.subrange(0, i as int));
                }
                assert(keys@.subrange(0, keys@.len() as int) == keys@);
                v
            },
        }
    }
}

/// `[vts]`: the VTube Studio connection and the alias tables.
#[derive(Debug, Clone)]
pub struct VtsConfig {
    pub url: String,
    pub plugin_name: String,
    pub developer: String,
    pub auth_token_path: String,
    pub connect_timeout_secs: u64,
    /// LLM labels for expression hotkeys, in the order of the file.
    pub expression_alias: Vec<(String, AliasAllowList)>,
    /// LLM labels for motion hotkeys, in the order of the file.
    pub motion_alias: Vec<(String, AliasAllowList)>,
}


// ---------------------------------------------------------------------------
// The settings
// ---------------------------------------------------------------------------

/// `[bar]`: the chobits-bar reaction pane.
#[derive(Debug, Clone)]
pub struct BarConfig {
    /// TCP port chobits-bar listens on for text reactions.
    pub port: u16,
    /// How many reactions the scrollback keeps.
    pub history_length: usize,
}

/// `[zellij]`: Zellij's directories and the layout template.
#[derive(Debug, Clone)]
pub struct ZellijConfig {
    pub config_dir: String,
    pub data_dir: String,
    pub layout: String,
}

/// `[snapshot]`: the pane snapshots the plugin posts.
#[derive(Debug, Clone)]
pub struct SnapshotConfig {
    /// Localhost HTTP port for `POST /snapshot` from the Zellij plugin.
    pub port: u16,
    /// Incoming snapshots are cut to this many bytes (head and tail kept).
    pub max_bytes: usize,
    /// Polling interval of the plugin, in seconds.
    pub interval_secs: u64,
}

/// `[llm]`: the language model backend.
#[derive(Debug, Clone)]
pub struct LlmConfig {
    pub backend: String,
    pub url: String,
    pub model: String,
    pub max_tokens: u32,
    pub api_key: String,
}

/// `[persona]`: who the companion is.
#[derive(Debug, Clone)]
pub struct PersonaConfig {
    pub name: String,
    pub description: String,
}

/// `[live-ascii]`: the avatar renderer.
#[derive(Debug, Clone)]
pub struct LiveAsciiConfig {
    pub model_set: String,
    pub enable_vts: bool,
    pub vts_port: u16,
    pub enable_mouse: bool,
    pub enable_physics: bool,
    pub image_protocol: String,
    pub bg_color: String,
    pub scale: String,
    pub offset_x: String,
    pub offset_y: String,
}

/// `[idle]`: when the companion speaks up unprompted.
#[derive(Debug, Clone)]
pub struct IdleConfig {
    pub idle_timeout_secs: u64,
}

/// The whole configuration.
#[derive(Debug, Clone)]
pub struct Config {
    pub llm: LlmConfig,
    pub persona: PersonaConfig,
    pub idle: IdleConfig,
    pub snapshot: SnapshotConfig,
    pub zellij: ZellijConfig,
    pub live_ascii: LiveAsciiConfig,
    pub vts: VtsConfig,
    pub bar: BarConfig,
}

// ---------------------------------------------------------------------------
// Defaults
// ---------------------------------------------------------------------------

pub fn default_history_length() -> (r: usize)
    ensures
        r == 50,
{
    50
}

pub fn default_snapshot_port() -> (r: u16)
    ensures
        r == DEFAULT_SNAPSHOT_PORT,
{
    DEFAULT_SNAPSHOT_PORT
}

pub fn default_bar_port() -> (r: u16)
    ensures
        r == 7879,
{
    7879
}

pub fn default_vts_port() -> (r: u16)
    ensures
        r == 8001,
{
    8001
}

pub fn default_vts_url() -> (r: String)
    ensures
        r@ == "ws://127.0.0.1:8001"@,
{
    "ws://127.0.0.1:8001".to_owned()
}

pub fn default_vts_plugin_name() -> (r: String)
    ensures
        r@ == "Chobits"@,
{
    "Chobits".to_owned()
}

pub fn default_vts_developer() -> (r: String)
    ensures
        r@ == "Chobits"@,
{
    "Chobits".to_owned()
}

/// `<root>/.chobits/vts_token.json`.
pub fn default_vts_auth_token_path(root: &str) -> (r: String)
    ensures
        r@ == path_join(path_join(root@, ".chobits"@), "vts_token.json"@),
{
    let d = join_path(root, ".chobits");
    join_path(d.as_str(), "vts_token.json")
}

pub fn default_vts_connect_timeout_secs() -> (r: u64)
    ensures
        r == 30,
{
    30
}

pub fn default_backend() -> (r: String)
    ensures
        r@ == "ollama"@,
{
    "ollama".to_owned()
}

pub fn default_url() -> (r: String)
    ensures
        r@ == "http://localhost:11434"@,
{
    "http://localhost:11434".to_owned()
}

pub fn default_model() -> (r: String)
    ensures
        r@ == "qwen3:0.6b"@,
{
    "qwen3:0.6b".to_owned()
}

pub fn default_max_tokens() -> (r: u32)
    ensures
        r == 512,
{
    512
}

pub fn default_max_snapshot_bytes() -> (r: usize)
    ensures
        r == 4096,
{
    4096
}

pub fn default_persona_name() -> (r: String)
    ensures
        r@ == "Chi"@,
{
    "Chi".to_owned()
}

/// The text of the default persona.
pub open spec fn default_persona_text() -> Seq<char> {
    "Curious and warm terminal companion. You speak in short, casual reactions —one or two sentences max.  You genuinely care about what the user is working on."@
}

pub fn default_persona_description() -> (r: String)
    ensures
        r@ == default_persona_text(),
{
    "Curious and warm terminal companion. You speak in short, casual reactions —one or two sentences max.  You genuinely care about what the user is working on.".to_owned()
}

pub fn default_idle_timeout() -> (r: u64)
    ensures
        r == 30,
{
    30
}

pub fn default_interval_secs() -> (r: u64)
    ensures
        r == 10,
{
    10
}

pub fn default_true() -> (r: bool)
    ensures
        r,
{
    true
}

pub fn default_image_protocol() -> (r: String)
    ensures
        r@ == "halfblock"@,
{
    "halfblock".to_owned()
}

/// No model: the empty path.
pub fn default_live_ascii_model() -> (r: String)
    ensures
        r@.len() == 0,
{
    String::new()
}

/// `<root>/.zellij/config`.
pub fn default_zellij_config_dir(root: &str) -> (r: String)
    ensures
        r@ == path_join(path_join(root@, ".zellij"@), "config"@),
{
    let d = join_path(root, ".zellij");
    join_path(d.as_str(), "config")
}

/// `<root>/.zellij/data`.
pub fn default_zellij_data_dir(root: &str) -> (r: String)
    ensures
        r@ == path_join(path_join(root@, ".zellij"@), "data"@),
{
    let d = join_path(root, ".zellij");
    join_path(d.as_str(), "data")
}

/// The layout template: `DEFAULT_LAYOUT_KDL`.
pub fn default_layout() -> (r: String)
    ensures
        r@ == DEFAULT_LAYOUT_KDL@,
{
    DEFAULT_LAYOUT_KDL.to_owned()
}

pub fn default_bg_color() -> (r: String)
    ensures
        r@ == "rgba(0,0,0,0)"@,
{
    "rgba(0,0,0,0)".to_owned()
}

pub fn default_scale() -> (r: String)
    ensures
        r@ == "100%"@,
{
    "100%".to_owned()
}

pub fn default_offset_x() -> (r: String)
    ensures
        r@ == "0%"@,
{
    "0%".to_owned()
}

pub fn default_offset_y() -> (r: String)
    ensures
        r@ == "0%"@,
{
    "0%".to_owned()
}

/// The `[vts]` settings without aliases.
pub open spec fn is_default_vts(v: VtsConfig, root: Seq<char>) -> bool {
    &&& v.url@ == "ws://127.0.0.1:8001"@
    &&& v.plugin_name@ == "Chobits"@
    &&& v.developer@ == "Chobits"@
    &&& v.auth_token_path@ == path_join(path_join(root, ".chobits"@), "vts_token.json"@)
    &&& v.connect_timeout_secs == 30
    &&& v.expression_alias@.len() == 0
    &&& v.motion_alias@.len() == 0
}

impl VtsConfig {
    /// The default `[vts]` settings of an installation at `root`.
    pub fn default_in(root: &str) -> (r: VtsConfig)
        ensures
            is_default_vts(r, root@),
    {
        VtsConfig {
            url: default_vts_url(),
            plugin_name: default_vts_plugin_name(),
            developer: default_vts_developer(),
            auth_token_path: default_vts_auth_token_path(root),
            connect_timeout_secs: default_vts_connect_timeout_secs(),
            expression_alias: Vec::new(),
            motion_alias: Vec::new(),
        }
    }
}

impl Default for BarConfig {
    fn default() -> (r: BarConfig)
        ensures
            r.port == 7879,
            r.history_length == 50,
    {
        BarConfig { port: default_bar_port(), history_length: default_history_length() }
    }
}

/// The configuration used when there is no `config.toml`, for an
/// installation at `root`.
pub open spec fn is_default_config(c: Config, root: Seq<char>) -> bool {
    &&& c.llm.backend@ == "ollama"@
    &&& c.llm.url@ == "http://localhost:11434"@
    &&& c.llm.model@ == "qwen3:0.6b"@
    &&& c.llm.max_tokens == 512
    &&& c.llm.api_key@.len() == 0
    &&& c.snapshot.port == DEFAULT_SNAPSHOT_PORT
    &&& c.snapshot.max_bytes == 4096
    &&& c.snapshot.interval_secs == 10
    &&& c.persona.name@ == "Chi"@
    &&& c.persona.description@ == default_persona_text()
    &&& c.idle.idle_timeout_secs == 30
    &&& is_default_vts(c.vts, root)
    &&& c.zellij.config_dir@ == path_join(path_join(root, ".zellij"@), "config"@)
    &&& c.zellij.data_dir@ == path_join(path_join(root, ".zellij"@), "data"@)
    &&& c.zellij.layout@ == DEFAULT_LAYOUT_KDL@
    &&& c.live_ascii.model_set@.len() == 0
    &&& c.live_ascii.enable_vts
    &&& c.live_ascii.vts_port == 8001
    &&& c.live_ascii.enable_mouse
    &&& c.live_ascii.enable_physics
    &&& c.live_ascii.image_protocol@ == "halfblock"@
    &&& c.live_ascii.bg_color@ == "rgba(0,0,0,0)"@
    &&& c.live_ascii.scale@ == "100%"@
    &&& c.live_ascii.offset_x@ == "0%"@
    &&& c.live_ascii.offset_y@ == "0%"@
    &&& c.bar.port == 7879
    &&& c.bar.history_length == 50
}

impl Config {
    /// The configuration used when there is no `config.toml`.
    pub fn default_config(root: &str) -> (r: Config)
        ensures
            is_default_config(r, root@),
    {
        Config {
            llm: LlmConfig {
                backend: default_backend(),
                url: default_url(),
                model: default_model(),
                max_tokens: default_max_tokens(),
                api_key: String::new(),
            },
            snapshot: SnapshotConfig {
                port: default_snapshot_port(),
                max_bytes: default_max_snapshot_bytes(),
                interval_secs: default_interval_secs(),
            },
            persona: PersonaConfig {
                name: default_persona_name(),
                description: default_persona_description(),
            },
            idle: IdleConfig { idle_timeout_secs: default_idle_timeout() },
            vts: VtsConfig::default_in(root),
            zellij: ZellijConfig {
                config_dir: default_zellij_config_dir(root),
                data_dir: default_zellij_data_dir(root),
                layout: default_layout(),
            },
            live_ascii: LiveAsciiConfig {
                model_set: default_live_ascii_model(),
                enable_vts: default_true(),
                vts_port: default_vts_port(),
                enable_mouse: default_true(),
                enable_physics: default_true(),
                image_protocol: default_image_protocol(),
                bg_color: default_bg_color(),
                scale: default_scale(),
                offset_x: default_offset_x(),
                offset_y: default_offset_y(),
            },
            bar: BarConfig { port: default_bar_port(), history_length: default_history_length() },
        }
    }
}


// ---------------------------------------------------------------------------
// The layout and the live-ascii command line
// ---------------------------------------------------------------------------

/// A path for a KDL double-quoted string: backslashes doubled, then each
/// double quote preceded by a backslash.
pub open spec fn escape_kdl_path_spec(p: Seq<char>) -> Seq<char> {
    replace(replace(p, seq!['\\'], seq!['\\', '\\']), seq!['"'], seq!['\\', '"'])
}

/// Escape a path for embedding in a KDL double-quoted string.
pub fn escape_kdl_path(p: &str) -> (r: String)
    ensures
        r@ == escape_kdl_path_spec(p@),
{
    let v = chars_of(p);
    let e = escape_chars(v.as_slice());
    string_of(e.as_slice())
}

fn escape_chars(v: &[char]) -> (r: Vec<char>)
    ensures
        r@ == escape_kdl_path_spec(v@),
{
    let bs: [char; 1] = ['\\'];
    let bs2: [char; 2] = ['\\', '\\'];
    let q: [char; 1] = ['"'];
    let q2: [char; 2] = ['\\', '"'];
    assert(bs@ == seq!['\\']);
    assert(bs2@ == seq!['\\', '\\']);
    assert(q@ == seq!['"']);
    assert(q2@ == seq!['\\', '"']);
    let a = replace_exec(v, bs.as_slice(), bs2.as_slice());
    replace_exec(a.as_slice(), q.as_slice(), q2.as_slice())
}

/// The runtime values substituted into a layout template.
pub struct LayoutKdlParams<'a> {
    pub chobits_bin: &'a str,
    pub plugin_wasm: &'a str,
    pub interval_secs: u64,
    pub max_bytes: usize,
    pub snapshot_port: u16,
    pub live_ascii_args: &'a str,
    pub live_ascii_bin: &'a str,
    pub chobits_bar_bin: &'a str,
}

/// `t` with every placeholder replaced, one after the other: the paths
/// escaped for KDL, the numbers in decimal, the live-ascii arguments as they are.
pub open spec fn layout_spec(t: Seq<char>, p: LayoutKdlParams) -> Seq<char> {
    let a = replace(t, "{chobits_bin}"@, escape_kdl_path_spec(p.chobits_bin@));
    let b = replace(a, "{plugin_path}"@, escape_kdl_path_spec(p.plugin_wasm@));
    let c = replace(b, "{interval_secs}"@, decimal(p.interval_secs as nat));
    let d = replace(c, "{max_bytes}"@, decimal(p.max_bytes as nat));
    let e = replace(d, "{snapshot_port}"@, decimal(p.snapshot_port as nat));
    let f = replace(e, "{live_ascii_args}"@, p.live_ascii_args@);
    let g = replace(f, "{live_ascii_bin}"@, escape_kdl_path_spec(p.live_ascii_bin@));
    replace(g, "{chobits_bar_bin}"@, escape_kdl_path_spec(p.chobits_bar_bin@))
}

fn replace_placeholder(text: &[char], name: &str, value: &[char]) -> (r: Vec<char>)
    requires
        name@.len() > 0,
    ensures
        r@ == replace(text@, name@, value@),
{
    let n = chars_of(name);
    replace_exec(text, n.as_slice(), value)
}

/// The layout: `template` with every placeholder filled in.
pub fn build_layout_kdl_from(template: &str, params: &LayoutKdlParams) -> (r: String)
    ensures
        r@ == layout_spec(template@, *params),
{
    proof {
        reveal_strlit("{chobits_bin}");
        reveal_strlit("{plugin_path}");
        reveal_strlit("{interval_secs}");
        reveal_strlit("{max_bytes}");
        reveal_strlit("{snapshot_port}");
        reveal_strlit("{live_ascii_args}");
        reveal_strlit("{live_ascii_bin}");
        reveal_strlit("{chobits_bar_bin}");
    }
    let t = chars_of(template);
    let v1 = escape_chars(chars_of(params.chobits_bin).as_slice());
    let a = replace_placeholder(t.as_slice(), "{chobits_bin}", v1.as_slice());
    let v2 = escape_chars(chars_of(params.plugin_wasm).as_slice());
    let b = replace_placeholder(a.as_slice(), "{plugin_path}", v2.as_slice());
    let v3 = decimal_exec(params.interval_secs);
    let c = replace_placeholder(b.as_slice(), "{interval_secs}", v3.as_slice());
    let v4 = decimal_exec(params.max_bytes as u64);
    let d = replace_placeholder(c.as_slice(), "{max_bytes}", v4.as_slice());
    let v5 = decimal_exec(params.snapshot_port as u64);
    let e = replace_placeholder(d.as_slice(), "{snapshot_port}", v5.as_slice());
    let v6 = chars_of(params.live_ascii_args);
    let f = replace_placeholder(e.as_slice(), "{live_ascii_args}", v6.as_slice());
    let v7 = escape_chars(chars_of(params.live_ascii_bin).as_slice());
    let g = replace_placeholder(f.as_slice(), "{live_ascii_bin}", v7.as_slice());
    let v8 = escape_chars(chars_of(params.chobits_bar_bin).as_slice());
    let h = replace_placeholder(g.as_slice(), "{chobits_bar_bin}", v8.as_slice());
    string_of(h.as_slice())
}

/// The default layout with every placeholder filled in.
pub fn build_layout_kdl(params: &LayoutKdlParams) -> (r: String)
    ensures
        r@ == layout_spec(DEFAULT_LAYOUT_KDL@, *params),
{
    build_layout_kdl_from(DEFAULT_LAYOUT_KDL, params)
}

/// `s` in double quotes.
pub open spec fn quoted(s: Seq<char>) -> Seq<char> {
    seq!['"'] + s + seq!['"']
}

fn quoted_chars(s: &[char]) -> (r: Vec<char>)
    ensures
        r@ == quoted(s@),
{
    let mut v: Vec<char> = Vec::new();
    v.push('"');
    append_chars(&mut v, s);
    v.push('"');
    v
}

fn push_quoted(parts: &mut Vec<Vec<char>>, s: &str)
    ensures
        views(final(parts)@) == views(old(parts)@).push(quoted(s@)),
{
    let c = chars_of(s);
    let q = quoted_chars(c.as_slice());
    let ghost before = parts@;
    parts.push(q);
    assert(views(parts@) == views(before).push(quoted(s@)));
}

/// `p` followed by `flag` when `on`.
pub open spec fn with_flag(p: Seq<Seq<char>>, on: bool, flag: Seq<char>) -> Seq<Seq<char>> {
    if on {
        p.push(quoted(flag))
    } else {
        p
    }
}

/// `p` followed by `flag` and `value` when `value` is not `default`.
pub open spec fn with_override(
    p: Seq<Seq<char>>,
    flag: Seq<char>,
    value: Seq<char>,
    default: Seq<char>,
) -> Seq<Seq<char>> {
    if value != default {
        p + seq![quoted(flag), quoted(value)]
    } else {
        p
    }
}

/// The tokens of the live-ascii `args` line, each in double quotes: the
/// model; `--vts --vts-port <port>` when VTS is on; `--mouse`, `--physics`
/// when on; `--image-protocol <protocol>`; then `--bg-color`, `--scale`,
/// `--offsetx`, `--offsety` with their values where they differ from the
/// defaults.
pub open spec fn live_ascii_parts(cfg: LiveAsciiConfig) -> Seq<Seq<char>> {
    let p0 = seq![quoted(escape_kdl_path_spec(cfg.model_set@))];
    let p1 = if cfg.enable_vts {
        p0 + seq![quoted("--vts"@), quoted("--vts-port"@), quoted(decimal(cfg.vts_port as nat))]
    } else {
        p0
    };
    let p3 = with_flag(with_flag(p1, cfg.enable_mouse, "--mouse"@), cfg.enable_physics, "--physics"@);
    let p4 = p3 + seq![quoted("--image-protocol"@), quoted(cfg.image_protocol@)];
    let p5 = with_override(p4, "--bg-color"@, cfg.bg_color@, "rgba(0,0,0,0)"@);
    let p6 = with_override(p5, "--scale"@, cfg.scale@, "100%"@);
    let p7 = with_override(p6, "--offsetx"@, cfg.offset_x@, "0%"@);
    with_override(p7, "--offsety"@, cfg.offset_y@, "0%"@)
}

fn push_flag(parts: &mut Vec<Vec<char>>, on: bool, flag: &str)
    ensures
        views(final(parts)@) == with_flag(views(old(parts)@), on, flag@),
{
    if on {
        push_quoted(parts, flag);
    }
}

fn push_override(parts: &mut Vec<Vec<char>>, flag: &str, value: &String, default: &String)
    ensures
        views(final(parts)@) == with_override(views(old(parts)@), flag@, value@, default@),
{
    if *value != *default {
        let ghost before = views(parts@);
        push_quoted(parts, flag);
        push_quoted(parts, value.as_str());
        assert(views(parts@) == before + seq![quoted(flag@), quoted(value@)]);
    }
}

fn live_ascii_head(cfg: &LiveAsciiConfig) -> (r: Vec<Vec<char>>)
    ensures
        views(r@) == with_flag(
            with_flag(
                if cfg.enable_vts {
                    seq![quoted(escape_kdl_path_spec(cfg.model_set@))] + seq![
                        quoted("--vts"@),
                        quoted("--vts-port"@),
                        quoted(decimal(cfg.vts_port as nat)),
                    ]
                } else {
                    seq![quoted(escape_kdl_path_spec(cfg.model_set@))]
                },
                cfg.enable_mouse,
                "--mouse"@,
            ),
            cfg.enable_physics,
            "--physics"@,
        ) + seq![quoted("--image-protocol"@), quoted(cfg.image_protocol@)],
{
    let mut parts: Vec<Vec<char>> = Vec::new();
    let model = escape_kdl_path(cfg.model_set.as_str());
    push_quoted(&mut parts, model.as_str());
    assert(views(parts@) == seq![quoted(escape_kdl_path_spec(cfg.model_set@))]);
    if cfg.enable_vts {
        let ghost before = views(parts@);
        push_quoted(&mut parts, "--vts");
        push_quoted(&mut parts, "--vts-port");
        let port = decimal_exec(cfg.vts_port as u64);
        let ghost mid = parts@;
        parts.push(quoted_chars(port.as_slice()));
        assert(views(parts@) == views(mid).push(quoted(decimal(cfg.vts_port as nat))));
        assert(views(parts@) == before + seq![
            quoted("--vts"@),
            quoted("--vts-port"@),
            quoted(decimal(cfg.vts_port as nat)),
        ]);
    }
    push_flag(&mut parts, cfg.enable_mouse, "--mouse");
    push_flag(&mut parts, cfg.enable_physics, "--physics");
    let ghost before = views(parts@);
    push_quoted(&mut parts, "--image-protocol");
    push_quoted(&mut parts, cfg.image_protocol.as_str());
    assert(views(parts@) == before + seq![quoted("--image-protocol"@), quoted(cfg.image_protocol@)]);
    parts
}

/// The live-ascii `args` line: its tokens separated by spaces.
pub fn live_ascii_args(cfg: &LiveAsciiConfig) -> (r: String)
    ensures
        r@ == join(live_ascii_parts(*cfg), seq![' ']),
{
    let mut parts = live_ascii_head(cfg);
    push_override(&mut parts, "--bg-color", &cfg.bg_color, &default_bg_color());
    push_override(&mut parts, "--scale", &cfg.scale, &default_scale());
    push_override(&mut parts, "--offsetx", &cfg.offset_x, &default_offset_x());
    push_override(&mut parts, "--offsety", &cfg.offset_y, &default_offset_y());
    let line = join_exec(&parts, ' ');
    string_of(line.as_slice())
}

// ---------------------------------------------------------------------------
// Paths of an installation
// ---------------------------------------------------------------------------

/// `<root>/bin/`: the launcher's directory.
pub fn bin_dir(root: &str) -> (r: String)
    ensures
        r@ == path_join(root@, "bin"@),
{
    join_path(root, "bin")
}

/// `<root>/local/bin/`: bundled executables and the plugin.
pub fn local_bin_dir(root: &str) -> (r: String)
    ensures
        r@ == path_join(path_join(root@, "local"@), "bin"@),
{
    let l = join_path(root, "local");
    join_path(l.as_str(), "bin")
}

/// What `PathBuf::with_extension` gives for the path `p` and the extension
/// `ext`: the file name's extension replaced by `ext` (removed when `ext` is
/// empty), the path unchanged when it has no file name.
pub uninterp spec fn with_extension_name(p: Seq<char>, ext: Seq<char>) -> Seq<char>;

/// `p` with its extension set to `ext` (`PathBuf::with_extension`); the
/// contract names the result.
#[verifier::external_body]
fn path_with_extension(p: &str, ext: &str) -> (r: String)
    ensures
        r@ == with_extension_name(p@, ext@),
{
    std::path::PathBuf::from(p).with_extension(ext).to_string_lossy().into_owned()
}

/// Where a bundled executable `name` is looked for, in order: `local/bin/`
/// then `bin/` under the root, each first with the platform's executable
/// extension `ext`, then without.
pub open spec fn executable_candidates_spec(root: Seq<char>, name: Seq<char>, ext: Seq<char>) -> Seq<Seq<char>> {
    let l = path_join(path_join(root, "local"@), "bin"@);
    let b = path_join(root, "bin"@);
    seq![
        with_extension_name(path_join(l, name), ext),
        path_join(l, name),
        with_extension_name(path_join(b, name), ext),
        path_join(b, name),
    ]
}

/// The places to look for a bundled executable, in search order.
pub fn executable_candidates(root: &str, name: &str, ext: &str) -> (r: Vec<String>)
    ensures
        string_views(r@) == executable_candidates_spec(root@, name@, ext@),
{
    let l = local_bin_dir(root);
    let b = bin_dir(root);
    let ln = join_path(l.as_str(), name);
    let bn = join_path(b.as_str(), name);
    let mut r: Vec<String> = Vec::new();
    r.push(path_with_extension(ln.as_str(), ext));
    r.push(ln);
    r.push(path_with_extension(bn.as_str(), ext));
    r.push(bn);
    assert(string_views(r@) =~= executable_candidates_spec(root@, name@, ext@));
    r
}

/// `<a>/target/wasm32-wasip1/<profile>/<name>`: a Cargo build of the plugin.
pub open spec fn build_output(a: Seq<char>, profile: Seq<char>, name: Seq<char>) -> Seq<char> {
    path_join(path_join(path_join(path_join(a, "target"@), "wasm32-wasip1"@), profile), name)
}

/// The Cargo build outputs of the plugin above the executable: for each
/// ancestor, nearest first, its debug build, then its release build.
pub open spec fn build_outputs(ancestors: Seq<Seq<char>>, name: Seq<char>) -> Seq<Seq<char>>
    decreases ancestors.len(),
{
    if ancestors.len() == 0 {
        Seq::empty()
    } else {
        seq![
            build_output(ancestors[0], "debug"@, name),
            build_output(ancestors[0], "release"@, name),
        ] + build_outputs(ancestors.drop_first(), name)
    }
}

/// Where the plugin file `name` is looked for, in order: `local/bin/` and
/// `bin/` under the root, then the Cargo build outputs above the executable.
pub open spec fn wasm_candidates_spec(root: Seq<char>, ancestors: Seq<Seq<char>>, name: Seq<char>) -> Seq<Seq<char>> {
    seq![
        path_join(path_join(path_join(root, "local"@), "bin"@), name),
        path_join(path_join(root, "bin"@), name),
    ] + build_outputs(ancestors, name)
}

fn build_output_of(a: &str, profile: &str, name: &str) -> (r: String)
    ensures
        r@ == build_output(a@, profile@, name@),
{
    let t = join_path(a, "target");
    let w = join_path(t.as_str(), "wasm32-wasip1");
    let p = join_path(w.as_str(), profile);
    join_path(p.as_str(), name)
}

/// The places to look for the plugin file, in search order; `ancestors` are
/// the directories above the executable, nearest first.
pub fn wasm_candidates(root: &str, ancestors: &[String], name: &str) -> (r: Vec<String>)
    ensures
        string_views(r@) == wasm_candidates_spec(root@, string_views(ancestors@), name@),
{
    let l = local_bin_dir(root);
    let b = bin_dir(root);
    let mut r: Vec<String> = Vec::new();
    r.push(join_path(l.as_str(), name));
    r.push(join_path(b.as_str(), name));
    let ghost head = string_views(r@);
    assert(head =~= seq![
        path_join(path_join(path_join(root@, "local"@), "bin"@), name@),
        path_join(path_join(root@, "bin"@), name@),
    ]);
    assert(string_views(ancestors@).subrange(0, ancestors@.len() as int) =~= string_views(ancestors@));
    let mut i: usize = 0;
    while i < ancestors.len()
        invariant
            i <= ancestors@.len(),
            head == seq![
                path_join(path_join(path_join(root@, "local"@), "bin"@), name@),
                path_join(path_join(root@, "bin"@), name@),
            ],
            string_views(r@) + build_outputs(string_views(ancestors@).subrange(i as int, ancestors@.len() as int), name@)
                == head + build_outputs(string_views(ancestors@), name@),
        decreases ancestors@.len() - i,
    {
        let ghost rest = string_views(ancestors@).subrange(i as int, ancestors@.len() as int);
        assert(rest.drop_first() =~= string_views(ancestors@).subrange(i + 1, ancestors@.len() as int));
        assert(rest[0] == ancestors@[i as int]@);
        let ghost before = string_views(r@);
        r.push(build_output_of(ancestors[i].as_str(), "debug", name));
        r.push(build_output_of(ancestors[i].as_str(), "release", name));
        assert(string_views(r@) =~= before + seq![
            build_output(rest[0], "debug"@, name@),
            build_output(rest[0], "release"@, name@),
        ]);
        assert(string_views(r@) + build_outputs(rest.drop_first(), name@) =~= before + build_outputs(rest, name@));
        i += 1;
    }
    assert(string_views(ancestors@).subrange(ancestors@.len() as int, ancestors@.len() as int) =~= Seq::<Seq<char>>::empty());
    assert(string_views(r@) + Seq::<Seq<char>>::empty() =~= string_views(r@));
    r
}

/// The first path found to exist, else `fallback`.
pub open spec fn first_existing_spec(found: Seq<(String, bool)>, fallback: Seq<char>) -> Seq<char>
    decreases found.len(),
{
    if found.len() == 0 {
        fallback
    } else if found[0].1 {
        found[0].0@
    } else {
        first_existing_spec(found.drop_first(), fallback)
    }
}

/// The first of the candidates that exists (each paired with whether it
/// does), else `fallback` (a bare name, left to `$PATH`).
pub fn first_existing(found: &[(String, bool)], fallback: &str) -> (r: String)
    ensures
        r@ == first_existing_spec(found@, fallback@),
{
    assert(found@.subrange(0, found@.len() as int) =~= found@);
    let mut i: usize = 0;
    while i < found.len()
        invariant
            i <= found@.len(),
            first_existing_spec(found@.subrange(i as int, found@.len() as int), fallback@)
                == first_existing_spec(found@, fallback@),
        decreases found@.len() - i,
    {
        let ghost rest = found@.subrange(i as int, found@.len() as int);
        assert(rest.drop_first() =~= found@.subrange(i + 1, found@.len() as int));
        if found[i].1 {
            return found[i].0.clone();
        }
        i += 1;
    }
    fallback.to_owned()
}

/// `<root>/config.toml`.
pub fn config_path(root: &str) -> (r: String)
    ensures
        r@ == path_join(root@, "config.toml"@),
{
    join_path(root, "config.toml")
}

/// `<root>/logs/`.
pub fn log_dir(root: &str) -> (r: String)
    ensures
        r@ == path_join(root@, "logs"@),
{
    join_path(root, "logs")
}

/// `<root>/models/`.
pub fn models_dir(root: &str) -> (r: String)
    ensures
        r@ == path_join(root@, "models"@),
{
    join_path(root, "models")
}

/// `path` with a leading `~` or `~/` expanded against `home`: `~` alone
/// becomes `home` (or stays `~` without one); `~/rest` becomes `home` joined
/// with `rest` when there is a home; anything else is unchanged.
pub open spec fn expand_tilde_spec(path: Seq<char>, home: Option<Seq<char>>) -> Seq<char> {
    if path == "~"@ {
        match home {
            Some(h) => h,
            None => "~"@,
        }
    } else if has_prefix(path, "~/"@) && home is Some {
        path_join(home->0, path.subrange(2, path.len() as int))
    } else {
        path
    }
}

/// A directory on the way up from the executable, with what it holds.
#[derive(Debug, Clone)]
pub struct RootCandidate {
    pub path: String,
    /// It holds the root marker file (`ROOT_MARKER`).
    pub has_marker: bool,
    /// It holds a `config.toml`.
    pub has_config: bool,
    /// It holds a `bin/` directory.
    pub has_bin_dir: bool,
}

/// The first candidate at or after `i` that holds the root marker.
pub open spec fn first_marked(a: Seq<RootCandidate>, i: int) -> Option<int>
    decreases a.len() - i,
{
    if i < 0 || i >= a.len() {
        None
    } else if a[i].has_marker {
        Some(i)
    } else {
        first_marked(a, i + 1)
    }
}

/// The first candidate at or after `i` that holds `config.toml` or `bin/`.
pub open spec fn first_furnished(a: Seq<RootCandidate>, i: int) -> Option<int>
    decreases a.len() - i,
{
    if i < 0 || i >= a.len() {
        None
    } else if a[i].has_config || a[i].has_bin_dir {
        Some(i)
    } else {
        first_furnished(a, i + 1)
    }
}

/// The root of the installation: the `CHOBITS_ROOT` value when set; else the
/// nearest ancestor (listed nearest first) holding the root marker; else the
/// nearest holding `config.toml` or `bin/`; else `.`.
pub open spec fn root_choice_spec(env_root: Option<Seq<char>>, a: Seq<RootCandidate>) -> Seq<char> {
    match env_root {
        Some(r) => r,
        None => match first_marked(a, 0) {
            Some(i) => a[i].path@,
            None => match first_furnished(a, 0) {
                Some(i) => a[i].path@,
                None => seq!['.'],
            },
        },
    }
}

/// Chooses the root of the installation from the `CHOBITS_ROOT` value and
/// the ancestors of the executable, nearest first.
pub fn root_choice(env_root: Option<&str>, ancestors: &[RootCandidate]) -> (r: String)
    ensures
        r@ == root_choice_spec(opt_view(env_root), ancestors@),
{
    if let Some(root) = env_root {
        return root.to_owned();
    }
    let mut i: usize = 0;
    while i < ancestors.len()
        invariant
            i <= ancestors@.len(),
            env_root is None,
            first_marked(ancestors@, 0) == first_marked(ancestors@, i as int),
        decreases ancestors@.len() - i,
    {
        if ancestors[i].has_marker {
            return ancestors[i].path.clone();
        }
        i += 1;
    }
    let mut j: usize = 0;
    while j < ancestors.len()
        invariant
            j <= ancestors@.len(),
            env_root is None,
            first_marked(ancestors@, 0) is None,
            first_furnished(ancestors@, 0) == first_furnished(ancestors@, j as int),
        decreases ancestors@.len() - j,
    {
        if ancestors[j].has_config || ancestors[j].has_bin_dir {
            return ancestors[j].path.clone();
        }
        j += 1;
    }
    let r = ".".to_owned();
    proof {
        reveal_strlit(".");
    }
    r
}

/// A `&str` option as a plain value.
pub open spec fn opt_view(o: Option<&str>) -> Option<Seq<char>> {
    match o {
        Some(h) => Some(h@),
        None => None,
    }
}

fn eq_chars(a: &[char], b: &[char]) -> (r: bool)
    ensures
        r == (a@ == b@),
{
    if a.len() != b.len() {
        return false;
    }
    let r = starts_with(a, b);
    assert(a@.subrange(0, a@.len() as int) == a@);
    r
}

/// Expands a leading `~` against the home directory.
pub fn expand_tilde(path: &str, home: Option<&str>) -> (r: String)
    ensures
        r@ == expand_tilde_spec(path@, opt_view(home)),
{
    proof {
        reveal_strlit("~");
        reveal_strlit("~/");
    }
    let v = chars_of(path);
    let tilde = chars_of("~");
    if eq_chars(v.as_slice(), tilde.as_slice()) {
        return match home {
            Some(h) => h.to_owned(),
            None => "~".to_owned(),
        };
    }
    let pre = chars_of("~/");
    if starts_with(v.as_slice(), pre.as_slice()) {
        if let Some(h) = home {
            let rest = copy_range(v.as_slice(), 2, v.len());
            let r = string_of(rest.as_slice());
            return join_path(h, r.as_str());
        }
    }
    path.to_owned()
}

/// A path from `config.toml`: `~` expanded, absolute paths as they are,
/// relative paths against the installation root.
pub open spec fn resolve_config_path_spec(path: Seq<char>, home: Option<Seq<char>>, root: Seq<char>) -> Seq<char> {
    if path == "~"@ || has_prefix(path, "~/"@) {
        expand_tilde_spec(path, home)
    } else if is_absolute(path) {
        path
    } else {
        path_join(root, path)
    }
}

/// Resolves a path coming from `config.toml`.
pub fn resolve_config_path(path: &str, home: Option<&str>, root: &str) -> (r: String)
    ensures
        r@ == resolve_config_path_spec(path@, opt_view(home), root@),
{
    proof {
        reveal_strlit("~");
        reveal_strlit("~/");
    }
    let v = chars_of(path);
    let tilde = chars_of("~");
    let pre = chars_of("~/");
    if eq_chars(v.as_slice(), tilde.as_slice()) || starts_with(v.as_slice(), pre.as_slice()) {
        return expand_tilde(path, home);
    }
    if path_is_absolute(path) {
        return path.to_owned();
    }
    join_path(root, path)
}

/// The port of a URL: what follows its last `:`, without trailing `/`s, as
/// a `u16`.
pub open spec fn url_port_spec(url: Seq<char>) -> Option<nat> {
    match last_index_of(url, ':') {
        Some(i) => parse_uint(trim_char_end(url.subrange(i + 1, url.len() as int), '/'), 65535),
        None => None,
    }
}

fn trim_end_slashes(v: &[char]) -> (r: Vec<char>)
    ensures
        r@ == trim_char_end(v@, '/'),
{
    let mut n: usize = v.len();
    assert(v@.subrange(0, n as int) == v@);
    while n > 0 && v[n - 1] == '/'
        invariant
            n <= v@.len(),
            trim_char_end(v@.subrange(0, n as int), '/') == trim_char_end(v@, '/'),
        decreases n,
    {
        assert(v@.subrange(0, n as int).drop_last() == v@.subrange(0, n - 1));
        n -= 1;
    }
    copy_range(v, 0, n)
}

/// The port in the VTS URL.
pub fn vts_url_port(url: &str) -> (r: Option<u16>)
    ensures
        match url_port_spec(url@) {
            Some(n) => r == Some(n as u16),
            None => r is None,
        },
{
    let v = chars_of(url);
    match last_index_of_exec(v.as_slice(), ':') {
        Some(i) => {
            let after = copy_range(v.as_slice(), i + 1, v.len());
            let t = trim_end_slashes(after.as_slice());
            match parse_uint_exec(t.as_slice(), 65535) {
                Some(n) => Some(n as u16),
                None => None,
            }
        },
        None => None,
    }
}

/// The port of the `[vts]` URL when it differs from `[live-ascii].vts_port`;
/// the two should be kept the same.
pub fn vts_port_mismatch(live_ascii: &LiveAsciiConfig, vts: &VtsConfig) -> (r: Option<u16>)
    ensures
        match url_port_spec(vts.url@) {
            Some(n) => if n != live_ascii.vts_port {
                r == Some(n as u16)
            } else {
                r is None
            },
            None => r is None,
        },
{
    match vts_url_port(vts.url.as_str()) {
        Some(p) => if p != live_ascii.vts_port {
            Some(p)
        } else {
            None
        },
        None => None,
    }
}

// ---------------------------------------------------------------------------
// The layout in config.toml
// ---------------------------------------------------------------------------

/// The `[zellij]` section of a config file: from its header to the next
/// line that opens a section, or to the end.
pub open spec fn zellij_section(raw: Seq<char>) -> Option<Seq<char>> {
    match find(raw, "[zellij]"@) {
        Some(s) => {
            let rest = raw.subrange(s + 8, raw.len() as int);
            let e = match find(rest, "\n["@) {
                Some(p) => s + 8 + p,
                None => raw.len() as int,
            };
            Some(raw.subrange(s, e))
        },
        None => None,
    }
}

/// The trimmed text between `open` and the next `close` in `section`.
pub open spec fn layout_between(section: Seq<char>, open: Seq<char>, close: Seq<char>) -> Option<Seq<char>> {
    match find(section, open) {
        Some(st) => {
            let after = section.subrange(st + open.len(), section.len() as int);
            match find(after, close) {
                Some(e) => Some(trim(after.subrange(0, e))),
                None => None,
            }
        },
        None => None,
    }
}

/// The layout written in a config file: the triple-quoted `layout` string
/// of its `[zellij]` section (double quotes tried first), trimmed; the
/// default layout when there is none or no file.
pub open spec fn layout_from_text_spec(raw: Option<Seq<char>>) -> Seq<char> {
    match raw {
        None => DEFAULT_LAYOUT_KDL@,
        Some(t) => match zellij_section(t) {
            Some(sec) => match layout_between(sec, "layout = \"\"\""@, "\"\"\""@) {
                Some(l) => l,
                None => match layout_between(sec, "layout = '''"@, "'''"@) {
                    Some(l) => l,
                    None => DEFAULT_LAYOUT_KDL@,
                },
            },
            None => DEFAULT_LAYOUT_KDL@,
        },
    }
}

fn layout_in_section(section: &[char], open: &str, close: &str) -> (r: Option<Vec<char>>)
    ensures
        match layout_between(section@, open@, close@) {
            Some(l) => r matches Some(x) && x@ == l,
            None => r is None,
        },
{
    let o = chars_of(open);
    let c = chars_of(close);
    match find_exec(section, o.as_slice(), 0) {
        Some(st) => {
            let n = section.len();
            assert(st + o@.len() <= n);
            let after = copy_range(section, st + o.len(), n);
            match find_exec(after.as_slice(), c.as_slice(), 0) {
                Some(e) => {
                    let inner = copy_range(after.as_slice(), 0, e);
                    Some(trimmed(inner.as_slice()))
                },
                None => None,
            }
        },
        None => None,
    }
}

/// The layout in the text of a config file (none when there is no file).
pub fn layout_from_config_text(raw: Option<&str>) -> (r: String)
    ensures
        r@ == layout_from_text_spec(opt_view(raw)),
{
    proof {
        reveal_strlit("[zellij]");
    }
    let text = match raw {
        Some(t) => t,
        None => return DEFAULT_LAYOUT_KDL.to_owned(),
    };
    let v = chars_of(text);
    let header = chars_of("[zellij]");
    let start = match find_exec(v.as_slice(), header.as_slice(), 0) {
        Some(s) => s,
        None => return DEFAULT_LAYOUT_KDL.to_owned(),
    };
    let n = v.len();
    assert(header@.len() == 8);
    assert(start + 8 <= n);
    let rest = copy_range(v.as_slice(), start + 8, n);
    let next = chars_of("\n[");
    let end = match find_exec(rest.as_slice(), next.as_slice(), 0) {
        Some(p) => start + 8 + p,
        None => v.len(),
    };
    let section = copy_range(v.as_slice(), start, end);
    match layout_in_section(section.as_slice(), "layout = \"\"\"", "\"\"\"") {
        Some(l) => string_of(l.as_slice()),
        None => match layout_in_section(section.as_slice(), "layout = '''", "'''") {
            Some(l) => string_of(l.as_slice()),
            None => DEFAULT_LAYOUT_KDL.to_owned(),
        },
    }
}

/// `v` holds no `{`, so no placeholder can start in it.
pub open spec fn brace_free(v: Seq<char>) -> bool {
    forall|i: int| 0 <= i < v.len() ==> v[i] != '{'
}

proof fn lemma_replace_brace_free(s: Seq<char>, from: Seq<char>, to: Seq<char>)
    requires
        from.len() > 0,
        from[0] == '{',
        brace_free(s),
    ensures
        replace(s, from, to) == s,
    decreases s.len(),
{
    if s.len() >= from.len() {
        assert(!has_prefix(s, from)) by {
            if has_prefix(s, from) {
                assert(s.subrange(0, from.len() as int)[0] == s[0]);
            }
        }
        let t = s.drop_first();
        assert(brace_free(t)) by {
            assert forall|i: int| 0 <= i < t.len() implies t[i] != '{' by {
                assert(t[i] == s[i + 1]);
            }
        }
        lemma_replace_brace_free(t, from, to);
        assert(seq![s[0]] + t == s);
    }
}

proof fn lemma_replace_other(s: Seq<char>, from: Seq<char>, to: Seq<char>)
    requires
        from.len() > 0,
        from[0] == '{',
        s.len() > 0,
        brace_free(s.drop_first()),
        !has_prefix(s, from),
    ensures
        replace(s, from, to) == s,
{
    if s.len() >= from.len() {
        lemma_replace_brace_free(s.drop_first(), from, to);
        assert(seq![s[0]] + s.drop_first() == s);
    }
}

proof fn lemma_replace_whole(from: Seq<char>, to: Seq<char>)
    requires
        from.len() > 0,
    ensures
        replace(from, from, to) == to,
{
    assert(from.subrange(0, from.len() as int) == from);
    assert(has_prefix(from, from));
    let rest = from.subrange(from.len() as int, from.len() as int);
    assert(rest == Seq::<char>::empty());
    assert(replace(rest, from, to) == rest);
    assert(replace(from, from, to) == to + replace(rest, from, to));
    assert(to + Seq::<char>::empty() == to);
}

proof fn lemma_differs_at(s: Seq<char>, p: Seq<char>, i: int)
    requires
        0 <= i < p.len(),
        i < s.len(),
        s[i] != p[i],
    ensures
        !has_prefix(s, p),
{
    if has_prefix(s, p) {
        assert(s.subrange(0, p.len() as int)[i] == s[i]);
    }
}

/// Each placeholder is filled with its own value: a template that is just
/// one placeholder becomes that placeholder's value (the paths escaped for
/// KDL, the numbers in decimal, the live-ascii arguments as they are), as
/// long as the value holds no `{` that a later placeholder could match; the
/// bar's command, filled last, always.
pub proof fn law_layout_fills_each_placeholder(p: LayoutKdlParams)
    ensures
        brace_free(escape_kdl_path_spec(p.chobits_bin@)) ==> layout_spec("{chobits_bin}"@, p) == escape_kdl_path_spec(p.chobits_bin@),
        brace_free(escape_kdl_path_spec(p.plugin_wasm@)) ==> layout_spec("{plugin_path}"@, p) == escape_kdl_path_spec(p.plugin_wasm@),
        brace_free(decimal(p.interval_secs as nat)) ==> layout_spec("{interval_secs}"@, p) == decimal(p.interval_secs as nat),
        brace_free(decimal(p.max_bytes as nat)) ==> layout_spec("{max_bytes}"@, p) == decimal(p.max_bytes as nat),
        brace_free(decimal(p.snapshot_port as nat)) ==> layout_spec("{snapshot_port}"@, p) == decimal(p.snapshot_port as nat),
        brace_free(p.live_ascii_args@) ==> layout_spec("{live_ascii_args}"@, p) == p.live_ascii_args@,
        brace_free(escape_kdl_path_spec(p.live_ascii_bin@)) ==> layout_spec("{live_ascii_bin}"@, p) == escape_kdl_path_spec(p.live_ascii_bin@),
        layout_spec("{chobits_bar_bin}"@, p) == escape_kdl_path_spec(p.chobits_bar_bin@),
{
    proof_reveal_placeholders();
    {
        let t = "{chobits_bin}"@;
        assert(brace_free(t.drop_first()));
        lemma_replace_whole(t, escape_kdl_path_spec(p.chobits_bin@));
        if brace_free(escape_kdl_path_spec(p.chobits_bin@)) { lemma_replace_brace_free(escape_kdl_path_spec(p.chobits_bin@), "{plugin_path}"@, escape_kdl_path_spec(p.plugin_wasm@)); }
        if brace_free(escape_kdl_path_spec(p.chobits_bin@)) { lemma_replace_brace_free(escape_kdl_path_spec(p.chobits_bin@), "{interval_secs}"@, decimal(p.interval_secs as nat)); }
        if brace_free(escape_kdl_path_spec(p.chobits_bin@)) { lemma_replace_brace_free(escape_kdl_path_spec(p.chobits_bin@), "{max_bytes}"@, decimal(p.max_bytes as nat)); }
        if brace_free(escape_kdl_path_spec(p.chobits_bin@)) { lemma_replace_brace_free(escape_kdl_path_spec(p.chobits_bin@), "{snapshot_port}"@, decimal(p.snapshot_port as nat)); }
        if brace_free(escape_kdl_path_spec(p.chobits_bin@)) { lemma_replace_brace_free(escape_kdl_path_spec(p.chobits_bin@), "{live_ascii_args}"@, p.live_ascii_args@); }
        if brace_free(escape_kdl_path_spec(p.chobits_bin@)) { lemma_replace_brace_free(escape_kdl_path_spec(p.chobits_bin@), "{live_ascii_bin}"@, escape_kdl_path_spec(p.live_ascii_bin@)); }
        if brace_free(escape_kdl_path_spec(p.chobits_bin@)) { lemma_replace_brace_free(escape_kdl_path_spec(p.chobits_bin@), "{chobits_bar_bin}"@, escape_kdl_path_spec(p.chobits_bar_bin@)); }
    }
    {
        let t = "{plugin_path}"@;
        assert(brace_free(t.drop_first()));
        lemma_differs_at(t, "{chobits_bin}"@, 1);
        lemma_replace_other(t, "{chobits_bin}"@, escape_kdl_path_spec(p.chobits_bin@));
        lemma_replace_whole(t, escape_kdl_path_spec(p.plugin_wasm@));
        if brace_free(escape_kdl_path_spec(p.plugin_wasm@)) { lemma_replace_brace_free(escape_kdl_path_spec(p.plugin_wasm@), "{interval_secs}"@, decimal(p.interval_secs as nat)); }
        if brace_free(escape_kdl_path_spec(p.plugin_wasm@)) { lemma_replace_brace_free(escape_kdl_path_spec(p.plugin_wasm@), "{max_bytes}"@, decimal(p.max_bytes as nat)); }
        if brace_free(escape_kdl_path_spec(p.plugin_wasm@)) { lemma_replace_brace_free(escape_kdl_path_spec(p.plugin_wasm@), "{snapshot_port}"@, decimal(p.snapshot_port as nat)); }
        if brace_free(escape_kdl_path_spec(p.plugin_wasm@)) { lemma_replace_brace_free(escape_kdl_path_spec(p.plugin_wasm@), "{live_ascii_args}"@, p.live_ascii_args@); }
        if brace_free(escape_kdl_path_spec(p.plugin_wasm@)) { lemma_replace_brace_free(escape_kdl_path_spec(p.plugin_wasm@), "{live_ascii_bin}"@, escape_kdl_path_spec(p.live_ascii_bin@)); }
        if brace_free(escape_kdl_path_spec(p.plugin_wasm@)) { lemma_replace_brace_free(escape_kdl_path_spec(p.plugin_wasm@), "{chobits_bar_bin}"@, escape_kdl_path_spec(p.chobits_bar_bin@)); }
    }
    {
        let t = "{interval_secs}"@;
        assert(brace_free(t.drop_first()));
        lemma_differs_at(t, "{chobits_bin}"@, 1);
        lemma_replace_other(t, "{chobits_bin}"@, escape_kdl_path_spec(p.chobits_bin@));
        lemma_differs_at(t, "{plugin_path}"@, 1);
        lemma_replace_other(t, "{plugin_path}"@, escape_kdl_path_spec(p.plugin_wasm@));
        lemma_replace_whole(t, decimal(p.interval_secs as nat));
        if brace_free(decimal(p.interval_secs as nat)) { lemma_replace_brace_free(decimal(p.interval_secs as nat), "{max_bytes}"@, decimal(p.max_bytes as nat)); }
        if brace_free(decimal(p.interval_secs as nat)) { lemma_replace_brace_free(decimal(p.interval_secs as nat), "{snapshot_port}"@, decimal(p.snapshot_port as nat)); }
        if brace_free(decimal(p.interval_secs as nat)) { lemma_replace_brace_free(decimal(p.interval_secs as nat), "{live_ascii_args}"@, p.live_ascii_args@); }
        if brace_free(decimal(p.interval_secs as nat)) { lemma_replace_brace_free(decimal(p.interval_secs as nat), "{live_ascii_bin}"@, escape_kdl_path_spec(p.live_ascii_bin@)); }
        if brace_free(decimal(p.interval_secs as nat)) { lemma_replace_brace_free(decimal(p.interval_secs as nat), "{chobits_bar_bin}"@, escape_kdl_path_spec(p.chobits_bar_bin@)); }
    }
    {
        let t = "{max_bytes}"@;
        assert(brace_free(t.drop_first()));
        lemma_replace_other(t, "{chobits_bin}"@, escape_kdl_path_spec(p.chobits_bin@));
        lemma_replace_other(t, "{plugin_path}"@, escape_kdl_path_spec(p.plugin_wasm@));
        lemma_replace_other(t, "{interval_secs}"@, decimal(p.interval_secs as nat));
        lemma_replace_whole(t, decimal(p.max_bytes as nat));
        if brace_free(decimal(p.max_bytes as nat)) { lemma_replace_brace_free(decimal(p.max_bytes as nat), "{snapshot_port}"@, decimal(p.snapshot_port as nat)); }
        if brace_free(decimal(p.max_bytes as nat)) { lemma_replace_brace_free(decimal(p.max_bytes as nat), "{live_ascii_args}"@, p.live_ascii_args@); }
        if brace_free(decimal(p.max_bytes as nat)) { lemma_replace_brace_free(decimal(p.max_bytes as nat), "{live_ascii_bin}"@, escape_kdl_path_spec(p.live_ascii_bin@)); }
        if brace_free(decimal(p.max_bytes as nat)) { lemma_replace_brace_free(decimal(p.max_bytes as nat), "{chobits_bar_bin}"@, escape_kdl_path_spec(p.chobits_bar_bin@)); }
    }
    {
        let t = "{snapshot_port}"@;
        assert(brace_free(t.drop_first()));
        lemma_differs_at(t, "{chobits_bin}"@, 1);
        lemma_replace_other(t, "{chobits_bin}"@, escape_kdl_path_spec(p.chobits_bin@));
        lemma_differs_at(t, "{plugin_path}"@, 1);
        lemma_replace_other(t, "{plugin_path}"@, escape_kdl_path_spec(p.plugin_wasm@));
        lemma_differs_at(t, "{interval_secs}"@, 1);
        lemma_replace_other(t, "{interval_secs}"@, decimal(p.interval_secs as nat));
        lemma_differs_at(t, "{max_bytes}"@, 1);
        lemma_replace_other(t, "{max_bytes}"@, decimal(p.max_bytes as nat));
        lemma_replace_whole(t, decimal(p.snapshot_port as nat));
        if brace_free(decimal(p.snapshot_port as nat)) { lemma_replace_brace_free(decimal(p.snapshot_port as nat), "{live_ascii_args}"@, p.live_ascii_args@); }
        if brace_free(decimal(p.snapshot_port as nat)) { lemma_replace_brace_free(decimal(p.snapshot_port as nat), "{live_ascii_bin}"@, escape_kdl_path_spec(p.live_ascii_bin@)); }
        if brace_free(decimal(p.snapshot_port as nat)) { lemma_replace_brace_free(decimal(p.snapshot_port as nat), "{chobits_bar_bin}"@, escape_kdl_path_spec(p.chobits_bar_bin@)); }
    }
    {
        let t = "{live_ascii_args}"@;
        assert(brace_free(t.drop_first()));
        lemma_differs_at(t, "{chobits_bin}"@, 1);
        lemma_replace_other(t, "{chobits_bin}"@, escape_kdl_path_spec(p.chobits_bin@));
        lemma_differs_at(t, "{plugin_path}"@, 1);
        lemma_replace_other(t, "{plugin_path}"@, escape_kdl_path_spec(p.plugin_wasm@));
        lemma_differs_at(t, "{interval_secs}"@, 1);
        lemma_replace_other(t, "{interval_secs}"@, decimal(p.interval_secs as nat));
        lemma_differs_at(t, "{max_bytes}"@, 1);
        lemma_replace_other(t, "{max_bytes}"@, decimal(p.max_bytes as nat));
        lemma_differs_at(t, "{snapshot_port}"@, 1);
        lemma_replace_other(t, "{snapshot_port}"@, decimal(p.snapshot_port as nat));
        lemma_replace_whole(t, p.live_ascii_args@);
        if brace_free(p.live_ascii_args@) { lemma_replace_brace_free(p.live_ascii_args@, "{live_ascii_bin}"@, escape_kdl_path_spec(p.live_ascii_bin@)); }
        if brace_free(p.live_ascii_args@) { lemma_replace_brace_free(p.live_ascii_args@, "{chobits_bar_bin}"@, escape_kdl_path_spec(p.chobits_bar_bin@)); }
    }
    {
        let t = "{live_ascii_bin}"@;
        assert(brace_free(t.drop_first()));
        lemma_differs_at(t, "{chobits_bin}"@, 1);
        lemma_replace_other(t, "{chobits_bin}"@, escape_kdl_path_spec(p.chobits_bin@));
        lemma_differs_at(t, "{plugin_path}"@, 1);
        lemma_replace_other(t, "{plugin_path}"@, escape_kdl_path_spec(p.plugin_wasm@));
        lemma_differs_at(t, "{interval_secs}"@, 1);
        lemma_replace_other(t, "{interval_secs}"@, decimal(p.interval_secs as nat));
        lemma_differs_at(t, "{max_bytes}"@, 1);
        lemma_replace_other(t, "{max_bytes}"@, decimal(p.max_bytes as nat));
        lemma_differs_at(t, "{snapshot_port}"@, 1);
        lemma_replace_other(t, "{snapshot_port}"@, decimal(p.snapshot_port as nat));
        lemma_replace_other(t, "{live_ascii_args}"@, p.live_ascii_args@);
        lemma_replace_whole(t, escape_kdl_path_spec(p.live_ascii_bin@));
        if brace_free(escape_kdl_path_spec(p.live_ascii_bin@)) { lemma_replace_brace_free(escape_kdl_path_spec(p.live_ascii_bin@), "{chobits_bar_bin}"@, escape_kdl_path_spec(p.chobits_bar_bin@)); }
    }
    {
        let t = "{chobits_bar_bin}"@;
        assert(brace_free(t.drop_first()));
        lemma_differs_at(t, "{chobits_bin}"@, 10);
        lemma_replace_other(t, "{chobits_bin}"@, escape_kdl_path_spec(p.chobits_bin@));
        lemma_differs_at(t, "{plugin_path}"@, 1);
        lemma_replace_other(t, "{plugin_path}"@, escape_kdl_path_spec(p.plugin_wasm@));
        lemma_differs_at(t, "{interval_secs}"@, 1);
        lemma_replace_other(t, "{interval_secs}"@, decimal(p.interval_secs as nat));
        lemma_differs_at(t, "{max_bytes}"@, 1);
        lemma_replace_other(t, "{max_bytes}"@, decimal(p.max_bytes as nat));
        lemma_differs_at(t, "{snapshot_port}"@, 1);
        lemma_replace_other(t, "{snapshot_port}"@, decimal(p.snapshot_port as nat));
        lemma_differs_at(t, "{live_ascii_args}"@, 1);
        lemma_replace_other(t, "{live_ascii_args}"@, p.live_ascii_args@);
        lemma_differs_at(t, "{live_ascii_bin}"@, 1);
        lemma_replace_other(t, "{live_ascii_bin}"@, escape_kdl_path_spec(p.live_ascii_bin@));
        lemma_replace_whole(t, escape_kdl_path_spec(p.chobits_bar_bin@));
    }
}

proof fn proof_reveal_placeholders()
    ensures
        "{chobits_bin}"@ =~= seq!['{', 'c', 'h', 'o', 'b', 'i', 't', 's', '_', 'b', 'i', 'n', '}'],
        "{plugin_path}"@ =~= seq!['{', 'p', 'l', 'u', 'g', 'i', 'n', '_', 'p', 'a', 't', 'h', '}'],
        "{interval_secs}"@ =~= seq!['{', 'i', 'n', 't', 'e', 'r', 'v', 'a', 'l', '_', 's', 'e', 'c', 's', '}'],
        "{max_bytes}"@ =~= seq!['{', 'm', 'a', 'x', '_', 'b', 'y', 't', 'e', 's', '}'],
        "{snapshot_port}"@ =~= seq!['{', 's', 'n', 'a', 'p', 's', 'h', 'o', 't', '_', 'p', 'o', 'r', 't', '}'],
        "{live_ascii_args}"@ =~= seq!['{', 'l', 'i', 'v', 'e', '_', 'a', 's', 'c', 'i', 'i', '_', 'a', 'r', 'g', 's', '}'],
        "{live_ascii_bin}"@ =~= seq!['{', 'l', 'i', 'v', 'e', '_', 'a', 's', 'c', 'i', 'i', '_', 'b', 'i', 'n', '}'],
        "{chobits_bar_bin}"@ =~= seq!['{', 'c', 'h', 'o', 'b', 'i', 't', 's', '_', 'b', 'a', 'r', '_', 'b', 'i', 'n', '}'],
{
    reveal_strlit("{chobits_bin}");
    reveal_strlit("{plugin_path}");
    reveal_strlit("{interval_secs}");
    reveal_strlit("{max_bytes}");
    reveal_strlit("{snapshot_port}");
    reveal_strlit("{live_ascii_args}");
    reveal_strlit("{live_ascii_bin}");
    reveal_strlit("{chobits_bar_bin}");
}

} // verus!
