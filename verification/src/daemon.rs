//! The companion daemon: reading the snapshots the plugin posts, deciding
//! when to react and when to fall into a monologue, and what to say and show.
use vstd::prelude::*;
use std::collections::VecDeque;
use crate::http::{
    content_length_from_headers, content_length_spec, first_blank_line, header_body_split,
    is_http_post, lemma_content_length_in_bound, lemma_first_blank_line, post_prefix,
    split_on,
};
use crate::llm::{LlmResponse, first_lines, parse_response};
use crate::snapshot::{truncate_snapshot, truncate_spec};
use crate::text::{
    append_str, chars_of, lossy_text, string_of, string_views, trim, trimmed,
    utf8_lossy,
};
use crate::vts::choose_random;

verus! {

// ---------------------------------------------------------------------------
// Reading a snapshot request
// ---------------------------------------------------------------------------

/// Bytes read beyond the snapshot budget (room for the JSON around it).
pub const SNAPSHOT_READ_SLACK: usize = 1024;

/// The most bytes read of one request: the budget plus the slack, as a `u64`.
pub fn read_limit(max_bytes: usize) -> (r: u64)
    ensures
        r == (if max_bytes + SNAPSHOT_READ_SLACK <= usize::MAX {
            max_bytes + SNAPSHOT_READ_SLACK
        } else {
            usize::MAX as int
        }),
{
    let cap: usize = if max_bytes <= usize::MAX - SNAPSHOT_READ_SLACK {
        max_bytes + SNAPSHOT_READ_SLACK
    } else {
        usize::MAX
    };
    cap as u64
}

/// A connection is read as a snapshot request only when its first bytes
/// start an HTTP POST.
pub fn starts_request(first: &[u8]) -> (r: bool)
    ensures
        r == (first@.len() >= 5 && first@.subrange(0, 5) == post_prefix()),
{
    is_http_post(first)
}

/// Where the body of the request in `buf` starts: after its blank line.
pub open spec fn body_start_spec(buf: Seq<u8>) -> Option<int> {
    match first_blank_line(buf, 0) {
        Some(i) => Some(i + 4),
        None => None,
    }
}

/// How much of the body the headers announce, at most `limit`.
pub open spec fn announced_length(buf: Seq<u8>, start: int, limit: u64) -> int {
    let headers_end = if start >= 4 {
        start - 4
    } else {
        0
    };
    let n = match content_length_spec(buf.subrange(0, headers_end)) {
        Some(x) => x as int,
        None => 0,
    };
    if n <= limit {
        n
    } else {
        limit as int
    }
}

/// Where reading the body of a request stands.
#[derive(Debug, Clone, Copy, PartialEq, Eq, Structural)]
pub enum BodyStage {
    /// Still looking for the end of the headers.
    Headers,
    /// Reading a body of this announced length.
    Body(usize),
    /// Done: the buffer holds the body.
    Done,
}

/// The reading of one request: the bytes so far and the stage.
#[derive(Debug)]
pub struct BodyReader {
    pub buf: Vec<u8>,
    pub stage: BodyStage,
    pub limit: u64,
}

/// The bytes `buf` with only the first `n` kept.
pub open spec fn cut(buf: Seq<u8>, n: int) -> Seq<u8> {
    if buf.len() > n {
        buf.subrange(0, n)
    } else {
        buf
    }
}

/// The state after the headers are complete in `buf`: the body read so far
/// and its announced length; done with no body when they never complete.
pub open spec fn after_headers(buf: Seq<u8>, limit: u64) -> (Seq<u8>, BodyStage) {
    match body_start_spec(buf) {
        Some(s) => (
            buf.subrange(s, buf.len() as int),
            BodyStage::Body(announced_length(buf, s, limit) as usize),
        ),
        None => (Seq::empty(), BodyStage::Done),
    }
}

impl BodyReader {
    /// Starts reading a request whose first bytes are `initial`.
    pub fn new(initial: &[u8], limit: u64) -> (r: BodyReader)
        ensures
            r.buf@ == initial@,
            r.stage == BodyStage::Headers,
            r.limit == limit,
    {
        BodyReader { buf: vstd::slice::slice_to_vec(initial), stage: BodyStage::Headers, limit }
    }

    fn enter_body(&mut self)
        requires
            old(self).limit <= usize::MAX,
            old(self).stage == BodyStage::Headers,
            body_start_spec(old(self).buf@) is Some,
        ensures
            (final(self).buf@, final(self).stage) == after_headers(old(self).buf@, old(self).limit),
            final(self).limit == old(self).limit,
    {
        proof {
            lemma_first_blank_line(self.buf@, 0);
        }
        let start = header_body_split(self.buf.as_slice()).unwrap();
        let headers_end: usize = if start >= 4 {
            start - 4
        } else {
            0
        };
        let head = copy_range_u8(self.buf.as_slice(), 0, headers_end);
        proof {
            if vstd::utf8::valid_utf8(head@) {
                lemma_content_length_in_bound(
                    split_on(vstd::utf8::decode_utf8(head@), seq!['\r', '\n']),
                    0,
                );
            }
        }
        let n: usize = match content_length_from_headers(head.as_slice()) {
            Some(x) => x,
            None => 0,
        };
        let len: usize = if n as u64 <= self.limit {
            n
        } else {
            self.limit as usize
        };
        let rest = copy_range_u8(self.buf.as_slice(), start, self.buf.len());
        self.buf = rest;
        self.stage = BodyStage::Body(len);
    }

    /// How many bytes to read next, none when the body is complete. Once the
    /// headers are complete, the body is read up to its announced length, at
    /// most 4096 bytes at a time; headers are read 1024 bytes at a time until
    /// the limit.
    pub fn wanted(&mut self) -> (r: Option<usize>)
        requires
            old(self).limit <= usize::MAX,
        ensures
            final(self).limit == old(self).limit,
            r is None <==> final(self).stage == BodyStage::Done,
            old(self).stage == BodyStage::Done ==> *final(self) == *old(self),
            old(self).stage == BodyStage::Headers ==> match body_start_spec(old(self).buf@) {
                None => if old(self).buf@.len() >= old(self).limit {
                    r is None && final(self).buf@.len() == 0 && final(self).stage == BodyStage::Done
                } else {
                    r == Some(1024usize) && final(self).buf@ == old(self).buf@ && final(self).stage
                        == BodyStage::Headers
                },
                Some(_) => {
                    let (b, st) = after_headers(old(self).buf@, old(self).limit);
                    body_step(b, st, old(self).limit, final(self).buf@, final(self).stage, r)
                },
            },
            old(self).stage is Body ==> body_step(
                old(self).buf@,
                old(self).stage,
                old(self).limit,
                final(self).buf@,
                final(self).stage,
                r,
            ),
    {
        if self.stage == BodyStage::Headers {
            if header_body_split(self.buf.as_slice()).is_some() {
                self.enter_body();
            } else if self.buf.len() as u64 >= self.limit {
                self.buf = Vec::new();
                self.stage = BodyStage::Done;
                return None;
            } else {
                return Some(1024);
            }
        }
        match self.stage {
            BodyStage::Body(len) => {
                let have = self.buf.len();
                if have < len && (have as u64) < self.limit {
                    let want = len - have;
                    Some(if want <= 4096 {
                        want
                    } else {
                        4096
                    })
                } else {
                    let ghost b0 = self.buf@;
                    self.buf.truncate(len);
                    assert(self.buf@ =~= cut(b0, len as int));
                    self.stage = BodyStage::Done;
                    None
                }
            },
            _ => None,
        }
    }

    /// Takes in bytes read from the connection.
    pub fn feed(&mut self, chunk: &[u8])
        ensures
            final(self).buf@ == old(self).buf@ + chunk@,
            final(self).stage == old(self).stage,
            final(self).limit == old(self).limit,
    {
        let mut i: usize = 0;
        let ghost start = self.buf@;
        while i < chunk.len()
            invariant
                i <= chunk@.len(),
                self.buf@ == start + chunk@.subrange(0, i as int),
                self.stage == old(self).stage,
                self.limit == old(self).limit,
            decreases chunk@.len() - i,
        {
            self.buf.push(chunk[i]);
            i += 1;
            assert(self.buf@ == start + chunk@.subrange(0, i as int));
        }
        assert(chunk@.subrange(0, chunk@.len() as int) == chunk@);
    }

    /// The connection has no more bytes: the body is what was read, cut to
    /// its announced length; no body when the headers never completed.
    pub fn end_of_stream(&mut self)
        requires
            old(self).limit <= usize::MAX,
        ensures
            final(self).stage == BodyStage::Done,
            final(self).limit == old(self).limit,
            old(self).stage == BodyStage::Done ==> final(self).buf@ == old(self).buf@,
            old(self).stage == BodyStage::Headers ==> final(self).buf@ == match after_headers(
                old(self).buf@,
                old(self).limit,
            ) {
                (b, BodyStage::Body(n)) => cut(b, n as int),
                _ => Seq::empty(),
            },
            old(self).stage matches BodyStage::Body(n) ==> final(self).buf@ == cut(
                old(self).buf@,
                n as int,
            ),
    {
        if self.stage == BodyStage::Headers {
            if header_body_split(self.buf.as_slice()).is_some() {
                self.enter_body();
            } else {
                self.buf = Vec::new();
                self.stage = BodyStage::Done;
                return;
            }
        }
        if let BodyStage::Body(len) = self.stage {
            let ghost b0 = self.buf@;
            self.buf.truncate(len);
            assert(self.buf@ =~= cut(b0, len as int));
        }
        self.stage = BodyStage::Done;
    }
}

/// One step of reading a body: more is wanted while it is shorter than
/// announced and than the limit, at most 4096 bytes; then it is cut to its
/// announced length and done.
pub open spec fn body_step(
    b: Seq<u8>,
    st: BodyStage,
    limit: u64,
    nb: Seq<u8>,
    nst: BodyStage,
    r: Option<usize>,
) -> bool {
    match st {
        BodyStage::Body(len) => if b.len() < len && b.len() < limit {
            r == Some(
                (if len - b.len() <= 4096 {
                    len - b.len()
                } else {
                    4096
                }) as usize,
            ) && nb == b && nst == st
        } else {
            r is None && nb == cut(b, len as int) && nst == BodyStage::Done
        },
        _ => false,
    }
}

fn copy_range_u8(v: &[u8], a: usize, b: usize) -> (w: Vec<u8>)
    requires
        a <= b <= v@.len(),
    ensures
        w@ == v@.subrange(a as int, b as int),
{
    vstd::slice::slice_to_vec(&v[a..b])
}

/// The snapshot in a request body: cut to the limit, decoded with invalid
/// UTF-8 replaced, and trimmed; none when nothing is left.
pub fn payload_text(body: &[u8], limit: u64) -> (r: Option<String>)
    ensures
        ({
            let t = trim(utf8_lossy(cut(body@, limit as int)));
            &&& t.len() == 0 ==> r is None
            &&& t.len() > 0 ==> (r matches Some(x) && x@ == t)
        }),
{
    let kept = if body.len() as u64 > limit {
        copy_range_u8(body, 0, limit as usize)
    } else {
        vstd::slice::slice_to_vec(body)
    };
    let text = lossy_text(kept.as_slice());
    let v = chars_of(text.as_str());
    let t = trimmed(v.as_slice());
    if t.len() == 0 {
        None
    } else {
        Some(string_of(t.as_slice()))
    }
}

/// What the listener hands on for a received snapshot: nothing for an
/// empty one, else the snapshot within the byte budget.
pub fn deliver_payload(raw: &str, max_bytes: usize) -> (r: Option<String>)
    ensures
        raw@.len() == 0 ==> r is None,
        raw@.len() > 0 ==> (r matches Some(t) && t@ == truncate_spec(raw@, max_bytes as nat)),
{
    if raw.is_empty() {
        return None;
    }
    Some(truncate_snapshot(raw, max_bytes))
}

// ---------------------------------------------------------------------------
// The snapshot history
// ---------------------------------------------------------------------------

/// How many snapshots the history keeps.
pub const HISTORY_CAPACITY: usize = 16;

/// A snapshot and when it arrived, in milliseconds on the daemon's clock.
#[derive(Debug, Clone)]
pub struct SnapshotEntry {
    pub content: String,
    pub timestamp_ms: u64,
}

/// The recent snapshots, oldest first.
#[derive(Debug)]
pub struct SnapshotHistory {
    pub entries: VecDeque<SnapshotEntry>,
}

/// Since when the screen has shown `text`, counting back from `now`: the
/// arrival of the earliest of the latest run of snapshots equal to it.
pub open spec fn unchanged_since(es: Seq<SnapshotEntry>, text: Seq<char>, now: u64) -> u64
    decreases es.len(),
{
    if es.len() == 0 {
        now
    } else if es.last().content@ == text {
        unchanged_since(es.drop_last(), text, es.last().timestamp_ms)
    } else {
        now
    }
}

/// A snapshot `text` differs from the history `es`: nothing was recorded yet,
/// or the newest entry shows something else.
pub open spec fn differs_from_last(es: Seq<SnapshotEntry>, text: Seq<char>) -> bool {
    es.len() == 0 || es.last().content@ != text
}

/// The history after recording `e`: the oldest dropped beyond capacity.
pub open spec fn recorded(es: Seq<SnapshotEntry>, e: SnapshotEntry) -> Seq<SnapshotEntry> {
    let p = es.push(e);
    if p.len() > HISTORY_CAPACITY {
        p.drop_first()
    } else {
        p
    }
}

impl SnapshotHistory {
    pub fn new() -> (r: SnapshotHistory)
        ensures
            r.entries@.len() == 0,
    {
        SnapshotHistory { entries: VecDeque::new() }
    }

    /// Records the snapshot `text` that arrived at `now_ms`; returns how long
    /// the screen has shown it and whether it differs from the last one.
    pub fn record(&mut self, text: String, now_ms: u64) -> (r: (u64, bool))
        ensures
            final(self).entries@ == recorded(old(self).entries@, SnapshotEntry { content: text, timestamp_ms: now_ms }),
            r.1 == differs_from_last(old(self).entries@, text@),
            ({
                let since = unchanged_since(final(self).entries@, text@, now_ms);
                r.0 == (if now_ms >= since {
                    now_ms - since
                } else {
                    0
                })
            }),
    {
        let n = self.entries.len();
        let changed = if n == 0 {
            true
        } else {
            self.entries[n - 1].content != text
        };
        let current = text.clone();
        self.entries.push_back(SnapshotEntry { content: text, timestamp_ms: now_ms });
        if self.entries.len() > HISTORY_CAPACITY {
            self.entries.pop_front();
        }
        let ghost es = self.entries@;
        let mut since = now_ms;
        let mut k = self.entries.len();
        assert(es.subrange(0, k as int) == es);
        while k > 0 && self.entries[k - 1].content == current
            invariant
                es == self.entries@,
                k <= es.len(),
                current@ == text@,
                unchanged_since(es.subrange(0, k as int), text@, since) == unchanged_since(
                    es,
                    text@,
                    now_ms,
                ),
            decreases k,
        {
            assert(es.subrange(0, k as int).drop_last() == es.subrange(0, k - 1));
            since = self.entries[k - 1].timestamp_ms;
            k -= 1;
        }
        assert(k > 0 ==> es.subrange(0, k as int).last() == es[k - 1]);
        assert(es.subrange(0, es.len() as int) == es);
        let unchanged = if now_ms >= since {
            now_ms - since
        } else {
            0
        };
        (unchanged, changed)
    }
}

// ---------------------------------------------------------------------------
// Deciding what to do
// ---------------------------------------------------------------------------

/// What to do with a snapshot.
#[derive(Debug, Clone, Copy, PartialEq, Eq, Structural)]
pub enum SnapshotAction {
    /// The screen changed: end any monologue and react to it.
    React,
    /// The screen has stood still long enough: start a monologue.
    StartMonologue,
    /// Nothing to do yet.
    Wait,
}

/// What to do with a snapshot: react to a change; after `idle_timeout_secs`
/// of a still screen, start a monologue; else wait.
pub open spec fn action_spec(changed: bool, unchanged_for_ms: int, idle_timeout_secs: int) -> SnapshotAction {
    if changed {
        SnapshotAction::React
    } else if unchanged_for_ms >= 1000 * idle_timeout_secs {
        SnapshotAction::StartMonologue
    } else {
        SnapshotAction::Wait
    }
}

/// What to do with a snapshot: react to a change; after `idle_timeout_secs`
/// of a still screen, start a monologue; else wait.
pub fn snapshot_action(changed: bool, unchanged_for_ms: u64, idle_timeout_secs: u64) -> (r: SnapshotAction)
    ensures
        r == action_spec(changed, unchanged_for_ms as int, idle_timeout_secs as int),
{
    let secs = unchanged_for_ms / 1000;
    assert(secs >= idle_timeout_secs <==> unchanged_for_ms >= 1000 * idle_timeout_secs) by (nonlinear_arith)
        requires
            secs == unchanged_for_ms / 1000,
    ;
    if changed {
        SnapshotAction::React
    } else if secs >= idle_timeout_secs {
        SnapshotAction::StartMonologue
    } else {
        SnapshotAction::Wait
    }
}

/// The prompt for a snapshot: the system prompt, then the snapshot.
pub open spec fn user_prompt_spec(system_prompt: Seq<char>, snapshot: Seq<char>) -> Seq<char> {
    system_prompt + "\n\nUser's terminal snapshot:\n"@ + snapshot
}

/// The prompt for a snapshot.
pub fn user_prompt(system_prompt: &str, snapshot: &str) -> (r: String)
    ensures
        r@ == user_prompt_spec(system_prompt@, snapshot@),
{
    let mut v = chars_of(system_prompt);
    append_str(&mut v, "\n\nUser's terminal snapshot:\n");
    append_str(&mut v, snapshot);
    string_of(v.as_slice())
}

/// The reaction to show: without an answer from the model, `...` with the
/// default expression; else the answer read as `parse_response` says, given
/// what decoding its repaired JSON gave.
pub fn reaction(reply: Option<&str>, decoded: Option<LlmResponse>, default_label: &str) -> (r: LlmResponse)
    ensures
        reply is None ==> r.text@ == "..."@ && r.expression@ == default_label@,
        reply matches Some(raw) ==> match decoded {
            Some(d) => r.text == d.text && r.expression@ == (if d.expression@.len() == 0 {
                default_label@
            } else {
                d.expression@
            }),
            None => r.text@ == first_lines(raw@) && r.expression@ == default_label@,
        },
{
    match reply {
        None => LlmResponse { text: "...".to_owned(), expression: default_label.to_owned() },
        Some(raw) => match parse_response(raw, decoded, default_label) {
            Some(p) => p,
            None => LlmResponse { text: "...".to_owned(), expression: default_label.to_owned() },
        },
    }
}

/// An expression other than the resting one is played before looping again.
pub fn plays_expression(parsed: &LlmResponse, default_label: &str) -> (r: bool)
    ensures
        r == (parsed.expression@ != default_label@),
{
    let d = default_label.to_owned();
    parsed.expression != d
}

// ---------------------------------------------------------------------------
// Monologues
// ---------------------------------------------------------------------------

/// Whether a monologue is running.
#[derive(Debug, Clone, Copy, PartialEq, Eq, Structural)]
pub struct Monologue {
    pub active: bool,
}

impl Monologue {
    /// Starts a monologue; false when one is already running.
    pub fn start(&mut self) -> (started: bool)
        ensures
            final(self).active,
            started == !old(self).active,
    {
        if self.active {
            return false;
        }
        self.active = true;
        true
    }

    /// Ends the monologue; true when one was running (its expression is
    /// then cancelled).
    pub fn stop(&mut self) -> (stopped: bool)
        ensures
            !final(self).active,
            stopped == old(self).active,
    {
        let was = self.active;
        self.active = false;
        was
    }
}

/// The aliases a monologue may show between two resting looks: all but the
/// resting one, in order.
pub open spec fn monologue_choices_spec(aliases: Seq<Seq<char>>, default_label: Seq<char>) -> Seq<Seq<char>>
    decreases aliases.len(),
{
    if aliases.len() == 0 {
        Seq::empty()
    } else {
        let p = monologue_choices_spec(aliases.drop_last(), default_label);
        if aliases.last() != default_label {
            p.push(aliases.last())
        } else {
            p
        }
    }
}

/// The aliases a monologue may show.
pub fn monologue_choices(aliases: &[String], default_label: &str) -> (r: Vec<String>)
    ensures
        string_views(r@) == monologue_choices_spec(string_views(aliases@), default_label@),
{
    let d = default_label.to_owned();
    let mut out: Vec<String> = Vec::new();
    let mut i: usize = 0;
    while i < aliases.len()
        invariant
            i <= aliases@.len(),
            d@ == default_label@,
            string_views(out@) == monologue_choices_spec(
                string_views(aliases@).subrange(0, i as int),
                default_label@,
            ),
        decreases aliases@.len() - i,
    {
        let ghost pre = string_views(aliases@).subrange(0, i as int);
        let ghost post = string_views(aliases@).subrange(0, i + 1);
        assert(post.drop_last() == pre);
        assert(post.last() == aliases@[i as int]@);
        if aliases[i] != d {
            let ghost before = out@;
            out.push(aliases[i].clone());
            assert(string_views(out@) == string_views(before).push(aliases@[i as int]@));
        }
        i += 1;
    }
    assert(string_views(aliases@).subrange(0, aliases@.len() as int) == string_views(aliases@));
    out
}

/// The next alias of a monologue, picked at random among those other than
/// the resting one; none when there is no other (the monologue then ends).
pub fn next_monologue_alias(aliases: &[String], default_label: &str) -> (r: Option<String>)
    ensures
        monologue_choices_spec(string_views(aliases@), default_label@).len() == 0 <==> r is None,
        r matches Some(a) ==> monologue_choices_spec(string_views(aliases@), default_label@).contains(a@),
{
    let choices = monologue_choices(aliases, default_label);
    choose_random(choices.as_slice())
}

/// The daemon runs quietly when asked with `--quiet` or `-q`.
pub fn quiet_requested(args: &[String]) -> (r: bool)
    ensures
        r == (string_views(args@).contains("--quiet"@) || string_views(args@).contains("-q"@)),
{
    let quiet = "--quiet".to_owned();
    let q = "-q".to_owned();
    let mut i: usize = 0;
    while i < args.len()
        invariant
            i <= args@.len(),
            quiet@ == "--quiet"@,
            q@ == "-q"@,
            forall|j: int| 0 <= j < i ==> string_views(args@)[j] != "--quiet"@ && string_views(args@)[j] != "-q"@,
        decreases args@.len() - i,
    {
        if args[i] == quiet || args[i] == q {
            assert(string_views(args@)[i as int] == args@[i as int]@);
            return true;
        }
        i += 1;
    }
    false
}

// ---------------------------------------------------------------------------
// Laws
// ---------------------------------------------------------------------------

/// The history never holds more than its capacity, and its newest entry is
/// the snapshot just recorded.
pub proof fn law_history_bounded(es: Seq<SnapshotEntry>, e: SnapshotEntry)
    requires
        es.len() <= HISTORY_CAPACITY,
    ensures
        recorded(es, e).len() <= HISTORY_CAPACITY,
        recorded(es, e).last() == e,
{
}

/// A screen that shows what it showed at the last snapshot is never sent to
/// the model: it counts as unchanged, and the daemon does not react to it,
/// however long it has stood still.
pub proof fn law_unchanged_screen_not_sent(
    es: Seq<SnapshotEntry>,
    text: Seq<char>,
    unchanged_for_ms: int,
    idle_timeout_secs: int,
)
    requires
        es.len() > 0,
        es.last().content@ == text,
    ensures
        !differs_from_last(es, text),
        action_spec(differs_from_last(es, text), unchanged_for_ms, idle_timeout_secs)
            != SnapshotAction::React,
{
}

/// A monologue never picks the resting look, and picks only among the aliases.
pub proof fn law_monologue_avoids_resting(aliases: Seq<Seq<char>>, default_label: Seq<char>)
    ensures
        !monologue_choices_spec(aliases, default_label).contains(default_label),
        forall|i: int|
            0 <= i < monologue_choices_spec(aliases, default_label).len() ==> aliases.contains(
                #[trigger] monologue_choices_spec(aliases, default_label)[i],
            ),
    decreases aliases.len(),
{
    if aliases.len() > 0 {
        law_monologue_avoids_resting(aliases.drop_last(), default_label);
        let p = monologue_choices_spec(aliases.drop_last(), default_label);
        let q = monologue_choices_spec(aliases, default_label);
        assert forall|i: int| 0 <= i < q.len() implies aliases.contains(#[trigger] q[i]) by {
            if i < p.len() {
                assert(q[i] == p[i]);
                let k = choose|k: int| 0 <= k < aliases.drop_last().len() && aliases.drop_last()[k] == p[i];
                assert(aliases[k] == p[i]);
            } else {
                assert(q[i] == aliases.last());
                assert(aliases[aliases.len() - 1] == aliases.last());
            }
        }
        if q.contains(default_label) {
            let k = choose|k: int| 0 <= k < q.len() && q[k] == default_label;
            if k < p.len() {
                assert(q[k] == p[k]);
            }
        }
    }
}

} // verus!
