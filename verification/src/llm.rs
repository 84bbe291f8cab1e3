//! The language model: the backend settings, the system prompt, the
//! requests sent to Ollama or an OpenAI-compatible server, and the reading
//! of their replies.
use vstd::prelude::*;
use crate::config::LlmConfig;
use crate::text::{
    append_chars, append_str, chars_of, decimal, decimal_exec, join, join_exec, lines, lines_exec,
    string_of, string_views, views,
};

verus! {

/// What the companion says and the alias of the expression it shows.
#[derive(Debug, Clone)]
pub struct LlmResponse {
    pub text: String,
    pub expression: String,
}

/// Where and how to ask the model.
#[derive(Debug, Clone)]
pub enum Backend {
    Ollama { url: String, model: String, max_tokens: u32 },
    OpenAiCompatible { url: String, model: String, api_key: String, max_tokens: u32 },
}

/// A JSON document, as the replies of the servers are read.
#[derive(Debug)]
pub enum JsonValue {
    Null,
    Bool(bool),
    /// A number, in the text it was written with.
    Number(String),
    Str(String),
    Array(Vec<JsonValue>),
    /// The members of an object, in order.
    Object(Vec<(String, JsonValue)>),
}

/// An HTTP POST to make: the URL, the headers and the JSON body.
#[derive(Debug, Clone)]
pub struct LlmRequest {
    pub url: String,
    pub headers: Vec<(String, String)>,
    pub body: String,
}

impl Backend {
    /// The backend a configuration names: Ollama for `ollama`, an
    /// OpenAI-compatible server for anything else.
    pub fn from_config(cfg: &LlmConfig) -> (r: Backend)
        ensures
            cfg.backend@ == "ollama"@ ==> r == (Backend::Ollama {
                url: cfg.url,
                model: cfg.model,
                max_tokens: cfg.max_tokens,
            }),
            cfg.backend@ != "ollama"@ ==> r == (Backend::OpenAiCompatible {
                url: cfg.url,
                model: cfg.model,
                api_key: cfg.api_key,
                max_tokens: cfg.max_tokens,
            }),
    {
        let api_key = cfg.api_key.clone();
        let max_tokens = cfg.max_tokens;
        let ollama = "ollama".to_owned();
        if cfg.backend == ollama {
            Backend::Ollama { url: cfg.url.clone(), model: cfg.model.clone(), max_tokens }
        } else {
            Backend::OpenAiCompatible {
                url: cfg.url.clone(),
                model: cfg.model.clone(),
                api_key,
                max_tokens,
            }
        }
    }
}

// ---------------------------------------------------------------------------
// The system prompt
// ---------------------------------------------------------------------------

/// The system prompt: the persona, the reply format, and the aliases the
/// model may pick from, separated by `, `, with the default one named.
pub open spec fn system_prompt_spec(
    name: Seq<char>,
    persona_description: Seq<char>,
    aliases: Seq<Seq<char>>,
    default_alias: Seq<char>,
) -> Seq<char> {
    "You are "@ + name + ".\n"@ + persona_description
        + "\n\nOUTPUT FORMAT — reply with exactly one JSON object, no other text:\n{\"text\": \"<your reaction, 1-2 sentences>\", \"expression\": \"<alias>\"}\n\nEXPRESSION ALIASES — the \"expression\" value MUST be exactly one of these (copy verbatim):\n"@
        + join(aliases, ", "@) + "\nDefault resting look: "@ + default_alias
        + ". Pick the alias that best matches your reaction."@
}

/// Joins `es` with `sep` between consecutive entries.
pub fn join_with(es: &[String], sep: &str) -> (r: Vec<char>)
    ensures
        r@ == join(string_views(es@), sep@),
{
    let mut out: Vec<char> = Vec::new();
    let s = chars_of(sep);
    let mut i: usize = 0;
    while i < es.len()
        invariant
            i <= es@.len(),
            s@ == sep@,
            out@ == join(string_views(es@).subrange(0, i as int), sep@),
        decreases es@.len() - i,
    {
        let ghost pre = string_views(es@).subrange(0, i as int);
        let ghost post = string_views(es@).subrange(0, i + 1);
        assert(post.drop_last() == pre);
        assert(post.last() == es@[i as int]@);
        if i > 0 {
            append_chars(&mut out, s.as_slice());
        }
        append_str(&mut out, es[i].as_str());
        i += 1;
        proof {
            if i == 1 {
                assert(post == seq![es@[0]@]);
            }
        }
    }
    assert(string_views(es@).subrange(0, es@.len() as int) == string_views(es@));
    out
}

/// The system prompt for the persona and the aliases.
pub fn build_system_prompt(
    name: &str,
    persona_description: &str,
    aliases: &[String],
    default_alias: &str,
) -> (r: String)
    ensures
        r@ == system_prompt_spec(name@, persona_description@, string_views(aliases@), default_alias@),
{
    let mut out = chars_of("You are ");
    append_str(&mut out, name);
    append_str(&mut out, ".\n");
    append_str(&mut out, persona_description);
    append_str(
        &mut out,
        "\n\nOUTPUT FORMAT — reply with exactly one JSON object, no other text:\n{\"text\": \"<your reaction, 1-2 sentences>\", \"expression\": \"<alias>\"}\n\nEXPRESSION ALIASES — the \"expression\" value MUST be exactly one of these (copy verbatim):\n",
    );
    let list = join_with(aliases, ", ");
    append_chars(&mut out, list.as_slice());
    append_str(&mut out, "\nDefault resting look: ");
    append_str(&mut out, default_alias);
    append_str(&mut out, ". Pick the alias that best matches your reaction.");
    string_of(out.as_slice())
}

// ---------------------------------------------------------------------------
// Requests
// ---------------------------------------------------------------------------

/// The lower-case hexadecimal digit of `n` (`0 <= n < 16`).
pub open spec fn hex_digit(n: int) -> char {
    if n < 10 {
        (48 + n) as char
    } else {
        (87 + n) as char
    }
}

/// How `serde_json` writes the character `c` inside a string literal: `"`
/// and `\` behind a backslash; backspace, tab, newline, form feed and
/// carriage return as `\b`, `\t`, `\n`, `\f`, `\r`; the other control
/// characters below U+0020 as `\u00` and two lower-case hex digits; any
/// other character as itself.
pub open spec fn json_escaped_char(c: char) -> Seq<char> {
    if c == '"' {
        seq!['\\', '"']
    } else if c == '\\' {
        seq!['\\', '\\']
    } else if c == '\u{8}' {
        seq!['\\', 'b']
    } else if c == '\t' {
        seq!['\\', 't']
    } else if c == '\n' {
        seq!['\\', 'n']
    } else if c == '\u{c}' {
        seq!['\\', 'f']
    } else if c == '\r' {
        seq!['\\', 'r']
    } else if (c as u32) < 0x20 {
        seq!['\\', 'u', '0', '0', hex_digit((c as u32) as int / 16), hex_digit((c as u32) as int % 16)]
    } else {
        seq![c]
    }
}

/// The characters of `s`, each written as `json_escaped_char` says.
pub open spec fn json_escaped(s: Seq<char>) -> Seq<char>
    decreases s.len(),
{
    if s.len() == 0 {
        Seq::empty()
    } else {
        json_escaped_char(s[0]) + json_escaped(s.drop_first())
    }
}

/// What `serde_json::to_string` gives for a string: the JSON string
/// literal that stands for it, its escaped characters between quotes.
pub open spec fn json_quoted(s: Seq<char>) -> Seq<char> {
    seq!['"'] + json_escaped(s) + seq!['"']
}

/// `s` as a JSON string literal (`serde_json::to_string` on a `&str`, which
/// writes to memory and does not fail on a string).
#[verifier::external_body]
pub(crate) fn json_string(s: &str) -> (r: String)
    ensures
        r@ == json_quoted(s@),
{
    serde_json::to_string(s).unwrap_or_default()
}

/// The body sent to Ollama's `/api/generate`, as `serde_json` writes the
/// object: keys in ascending order, no spaces.
pub open spec fn ollama_body(model: Seq<char>, prompt: Seq<char>, max_tokens: u32) -> Seq<char> {
    "{\"model\":"@ + json_quoted(model) + ",\"options\":{\"num_predict\":"@ + decimal(
        max_tokens as nat,
    ) + "},\"prompt\":"@ + json_quoted(prompt) + ",\"stream\":false}"@
}

/// The body sent to `/v1/chat/completions`, as `serde_json` writes the
/// object: keys in ascending order, no spaces.
pub open spec fn openai_body(model: Seq<char>, prompt: Seq<char>, max_tokens: u32) -> Seq<char> {
    "{\"max_tokens\":"@ + decimal(max_tokens as nat) + ",\"messages\":[{\"content\":"@
        + json_quoted(prompt) + ",\"role\":\"user\"}],\"model\":"@ + json_quoted(model)
        + ",\"response_format\":{\"type\":\"json_object\"},\"temperature\":0.7}"@
}

/// The headers of a request: the JSON content type, and a bearer token
/// when there is an API key.
pub open spec fn request_headers(api_key: Option<Seq<char>>) -> Seq<(Seq<char>, Seq<char>)> {
    let ct = seq![("Content-Type"@, "application/json"@)];
    match api_key {
        Some(k) => if k.len() > 0 {
            ct.push(("Authorization"@, "Bearer "@ + k))
        } else {
            ct
        },
        None => ct,
    }
}

pub open spec fn header_views(h: Seq<(String, String)>) -> Seq<(Seq<char>, Seq<char>)> {
    h.map_values(|p: (String, String)| (p.0@, p.1@))
}

/// The request a backend makes for `prompt`.
pub open spec fn request_spec(b: Backend, prompt: Seq<char>, r: LlmRequest) -> bool {
    match b {
        Backend::Ollama { url, model, max_tokens } => {
            &&& r.url@ == url@ + "/api/generate"@
            &&& header_views(r.headers@) == request_headers(None)
            &&& r.body@ == ollama_body(model@, prompt, max_tokens)
        },
        Backend::OpenAiCompatible { url, model, api_key, max_tokens } => {
            &&& r.url@ == url@ + "/v1/chat/completions"@
            &&& header_views(r.headers@) == request_headers(Some(api_key@))
            &&& r.body@ == openai_body(model@, prompt, max_tokens)
        },
    }
}

fn concat_str(a: &str, b: &str) -> (r: String)
    ensures
        r@ == a@ + b@,
{
    let mut v = chars_of(a);
    append_str(&mut v, b);
    string_of(v.as_slice())
}

impl Backend {
    /// The HTTP request that asks the model about `prompt`.
    pub fn request(&self, prompt: &str) -> (r: LlmRequest)
        ensures
            request_spec(*self, prompt@, r),
    {
        let mut headers: Vec<(String, String)> = Vec::new();
        headers.push(("Content-Type".to_owned(), "application/json".to_owned()));
        assert(header_views(headers@) == request_headers(None));
        match self {
            Backend::Ollama { url, model, max_tokens } => {
                let mut body = chars_of("{\"model\":");
                append_str(&mut body, json_string(model.as_str()).as_str());
                append_str(&mut body, ",\"options\":{\"num_predict\":");
                append_chars(&mut body, decimal_exec(*max_tokens as u64).as_slice());
                append_str(&mut body, "},\"prompt\":");
                append_str(&mut body, json_string(prompt).as_str());
                append_str(&mut body, ",\"stream\":false}");
                LlmRequest {
                    url: concat_str(url.as_str(), "/api/generate"),
                    headers,
                    body: string_of(body.as_slice()),
                }
            },
            Backend::OpenAiCompatible { url, model, api_key, max_tokens } => {
                if !api_key.as_str().is_empty() {
                    let ghost before = headers@;
                    headers.push(("Authorization".to_owned(), concat_str("Bearer ", api_key.as_str())));
                    assert(header_views(headers@) == header_views(before).push(
                        ("Authorization"@, "Bearer "@ + api_key@),
                    ));
                }
                let mut body = chars_of("{\"max_tokens\":");
                append_chars(&mut body, decimal_exec(*max_tokens as u64).as_slice());
                append_str(&mut body, ",\"messages\":[{\"content\":");
                append_str(&mut body, json_string(prompt).as_str());
                append_str(&mut body, ",\"role\":\"user\"}],\"model\":");
                append_str(&mut body, json_string(model.as_str()).as_str());
                append_str(
                    &mut body,
                    ",\"response_format\":{\"type\":\"json_object\"},\"temperature\":0.7}",
                );
                LlmRequest {
                    url: concat_str(url.as_str(), "/v1/chat/completions"),
                    headers,
                    body: string_of(body.as_slice()),
                }
            },
        }
    }
}

// ---------------------------------------------------------------------------
// Replies
// ---------------------------------------------------------------------------

/// The value of the first member `key` of an object; none for anything else.
pub open spec fn json_get(v: JsonValue, key: Seq<char>) -> Option<JsonValue> {
    match v {
        JsonValue::Object(ms) => member_from(ms@, key, 0),
        _ => None,
    }
}

/// The value of the first member named `key` at index `i` or later.
pub open spec fn member_from(ms: Seq<(String, JsonValue)>, key: Seq<char>, i: int) -> Option<JsonValue>
    decreases ms.len() - i,
{
    if i < 0 || i >= ms.len() {
        None
    } else if ms[i].0@ == key {
        Some(ms[i].1)
    } else {
        member_from(ms, key, i + 1)
    }
}

/// The text of a JSON string; none for anything else.
pub open spec fn json_str(v: Option<JsonValue>) -> Option<Seq<char>> {
    match v {
        Some(JsonValue::Str(s)) => Some(s@),
        _ => None,
    }
}

/// The first item of a JSON array; none for anything else or an empty array.
pub open spec fn json_first(v: Option<JsonValue>) -> Option<JsonValue> {
    match v {
        Some(JsonValue::Array(items)) => if items@.len() > 0 {
            Some(items@[0])
        } else {
            None
        },
        _ => None,
    }
}

pub open spec fn json_get_opt(v: Option<JsonValue>, key: Seq<char>) -> Option<JsonValue> {
    match v {
        Some(x) => json_get(x, key),
        None => None,
    }
}

/// The answer in an Ollama reply: its `response` string.
pub open spec fn ollama_reply_spec(v: JsonValue) -> Option<Seq<char>> {
    json_str(json_get(v, "response"@))
}

/// The answer in an OpenAI-compatible reply: the `content` string of the
/// `message` of its first `choices` item.
pub open spec fn openai_reply_spec(v: JsonValue) -> Option<Seq<char>> {
    json_str(json_get_opt(json_get_opt(json_first(json_get(v, "choices"@)), "message"@), "content"@))
}

/// The member `key` of an object.
pub fn json_member<'a>(v: &'a JsonValue, key: &str) -> (r: Option<&'a JsonValue>)
    ensures
        match json_get(*v, key@) {
            Some(x) => r matches Some(y) && *y == x,
            None => r is None,
        },
{
    let k = key.to_owned();
    match v {
        JsonValue::Object(ms) => {
            assert(json_get(*v, key@) == member_from(ms@, key@, 0));
            let mut i: usize = 0;
            while i < ms.len()
                invariant
                    i <= ms@.len(),
                    k@ == key@,
                    json_get(*v, key@) == member_from(ms@, key@, 0),
                    member_from(ms@, key@, i as int) == member_from(ms@, key@, 0),
                decreases ms@.len() - i,
            {
                if ms[i].0 == k {
                    assert(ms@[i as int].0@ == key@);
                    assert(member_from(ms@, key@, i as int) == Some(ms@[i as int].1));
                    return Some(&ms[i].1);
                }
                i += 1;
            }
            None
        },
        _ => None,
    }
}

fn json_text(v: Option<&JsonValue>) -> (r: Option<String>)
    ensures
        match v {
            Some(x) => match json_str(Some(*x)) {
                Some(s) => r matches Some(t) && t@ == s,
                None => r is None,
            },
            None => r is None,
        },
{
    match v {
        Some(JsonValue::Str(s)) => Some(s.clone()),
        _ => None,
    }
}

/// The answer in an Ollama reply.
pub fn ollama_reply_text(v: &JsonValue) -> (r: Option<String>)
    ensures
        match ollama_reply_spec(*v) {
            Some(s) => r matches Some(t) && t@ == s,
            None => r is None,
        },
{
    json_text(json_member(v, "response"))
}

/// The answer in an OpenAI-compatible reply.
pub fn openai_reply_text(v: &JsonValue) -> (r: Option<String>)
    ensures
        match openai_reply_spec(*v) {
            Some(s) => r matches Some(t) && t@ == s,
            None => r is None,
        },
{
    let choices = match json_member(v, "choices") {
        Some(c) => c,
        None => return None,
    };
    let first = match choices {
        JsonValue::Array(items) => {
            if items.len() == 0 {
                return None;
            }
            &items[0]
        },
        _ => return None,
    };
    let message = match json_member(first, "message") {
        Some(m) => m,
        None => return None,
    };
    json_text(json_member(message, "content"))
}

/// The JSON document that `serde_json::from_str::<serde_json::Value>` reads
/// from a text, none when the text is not JSON.
pub uninterp spec fn json_parsed(raw: Seq<char>) -> Option<JsonValue>;

#[verifier::external_type_specification]
#[verifier::external_body]
pub struct ExSerdeJsonValue(serde_json::Value);

/// A `serde_json::Value` as a `JsonValue`, variant for variant, numbers in
/// the text `serde_json` writes them with, members in the map's order.
#[verifier::external_body]
fn json_value_of(v: serde_json::Value) -> JsonValue {
    match v {
        serde_json::Value::Null => JsonValue::Null,
        serde_json::Value::Bool(b) => JsonValue::Bool(b),
        serde_json::Value::Number(n) => JsonValue::Number(n.to_string()),
        serde_json::Value::String(x) => JsonValue::Str(x),
        serde_json::Value::Array(xs) => JsonValue::Array(xs.into_iter().map(json_value_of).collect()),
        serde_json::Value::Object(m) => JsonValue::Object(m.into_iter().map(|(k, x)| (k, json_value_of(x))).collect()),
    }
}

/// The JSON document in `raw` (`serde_json::from_str` into a
/// `serde_json::Value`); the contract names the result.
#[verifier::external_body]
pub(crate) fn parse_json_body(raw: &str) -> (r: Option<JsonValue>)
    ensures
        r == json_parsed(raw@),
{
    serde_json::from_str::<serde_json::Value>(raw).ok().map(json_value_of)
}

impl Backend {
    /// The answer in the raw body of a reply of this backend: none when the
    /// body is not JSON or holds no answer.
    pub fn reply_from_body(&self, raw: &str) -> (r: Option<String>)
        ensures
            match json_parsed(raw@) {
                None => r is None,
                Some(v) => match (if *self is Ollama {
                    ollama_reply_spec(v)
                } else {
                    openai_reply_spec(v)
                }) {
                    Some(s) => r matches Some(t) && t@ == s,
                    None => r is None,
                },
            },
    {
        match parse_json_body(raw) {
            Some(v) => self.reply_text(&v),
            None => None,
        }
    }

    /// The answer in a reply of this backend.
    pub fn reply_text(&self, v: &JsonValue) -> (r: Option<String>)
        ensures
            match (if *self is Ollama {
                ollama_reply_spec(*v)
            } else {
                openai_reply_spec(*v)
            }) {
                Some(s) => r matches Some(t) && t@ == s,
                None => r is None,
            },
    {
        match self {
            Backend::Ollama { .. } => ollama_reply_text(v),
            Backend::OpenAiCompatible { .. } => openai_reply_text(v),
        }
    }
}

// ---------------------------------------------------------------------------
// Reading the model's answer
// ---------------------------------------------------------------------------

/// What `jsonrepair_rs::jsonrepair` gives for a text: the repaired JSON, or
/// none when it cannot be repaired.
pub uninterp spec fn json_repair(s: Seq<char>) -> Option<Seq<char>>;

/// `jsonrepair_rs::jsonrepair`: a repaired JSON text, none where the input
/// cannot be repaired.
#[verifier::external_body]
fn jsonrepair_text(raw: &str) -> (r: Option<String>)
    ensures
        match json_repair(raw@) {
            Some(t) => r matches Some(x) && x@ == t,
            None => r is None,
        },
{
    jsonrepair_rs::jsonrepair(raw).ok()
}

/// The model's answer as JSON that can be decoded: markdown fences,
/// missing quotes and the like repaired.
pub fn repair_reply(raw: &str) -> (r: Option<String>)
    ensures
        match json_repair(raw@) {
            Some(t) => r matches Some(x) && x@ == t,
            None => r is None,
        },
{
    jsonrepair_text(raw)
}

/// The first two lines of `raw`, joined by a space.
pub open spec fn first_lines(raw: Seq<char>) -> Seq<char> {
    let ls = lines(raw);
    join(if ls.len() > 2 { ls.subrange(0, 2) } else { ls }, " "@)
}

/// The response for the model's answer `raw`, given what decoding its
/// repaired JSON gave: the decoded response, its empty expression replaced
/// by the fallback alias; when nothing could be decoded, the first two lines
/// of the answer with the fallback alias. There is always a response.
pub fn parse_response(raw: &str, decoded: Option<LlmResponse>, fallback_alias: &str) -> (r: Option<LlmResponse>)
    ensures
        match decoded {
            Some(d) => r matches Some(x) && x.text == d.text && x.expression@ == (if d.expression@.len()
                == 0 {
                fallback_alias@
            } else {
                d.expression@
            }),
            None => r matches Some(x) && x.text@ == first_lines(raw@) && x.expression@
                == fallback_alias@,
        },
{
    match decoded {
        Some(d) => {
            let expression = if d.expression.as_str().is_empty() {
                fallback_alias.to_owned()
            } else {
                d.expression
            };
            Some(LlmResponse { text: d.text, expression })
        },
        None => {
            let v = chars_of(raw);
            let ls = lines_exec(v.as_slice());
            let mut firsts: Vec<Vec<char>> = Vec::new();
            let mut i: usize = 0;
            while i < ls.len() && i < 2
                invariant
                    i <= ls@.len(),
                    i <= 2,
                    views(firsts@) == views(ls@).subrange(0, i as int),
                decreases 2 - i,
            {
                let ghost before = firsts@;
                firsts.push(ls[i].clone());
                assert(views(firsts@) == views(before).push(ls@[i as int]@));
                i += 1;
                assert(views(firsts@) == views(ls@).subrange(0, i as int));
            }
            assert(views(ls@).len() <= 2 ==> views(ls@).subrange(0, views(ls@).len() as int) == views(ls@));
            proof {
                reveal_strlit(" ");
                assert(" "@ == seq![' ']);
                let ls_v = views(ls@);
                if ls_v.len() > 2 {
                    assert(views(firsts@) == ls_v.subrange(0, 2));
                } else {
                    assert(views(firsts@) == ls_v);
                }
            }
            let text = join_exec(&firsts, ' ');
            Some(LlmResponse { text: string_of(text.as_slice()), expression: fallback_alias.to_owned() })
        },
    }
}

} // verus!
