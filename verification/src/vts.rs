//! The VTube Studio hotkey player: the hotkey cache, the alias tables that
//! the LLM sees, and the decisions taken while playing and looping hotkeys.
use vstd::prelude::*;
use rand::seq::IndexedRandom;
use crate::text::{append_str, chars_of, debug_quoted, debug_str, trim, trimmed, lex_le, sort_strings, sorted, string_of, string_views};
use crate::config::{AliasAllowList, VtsConfig, allow_list_keys};
use crate::labels::{animation_matches, animation_matches_spec,
    file_stem_key, file_stem_key_ends, file_stem_key_spec, label_key_is_useful,
    normalize_label, normalize_label_spec, normalize_lookup_key, slugify_spec, alphabetic,
};

verus! {

/// Wait after an expression hotkey, in milliseconds.
pub const EXPRESSION_WAIT_MS: u64 = 2000;

/// Interval of the timer loop for hotkeys without animation events.
pub const TIMER_LOOP_INTERVAL_MS: u64 = 4000;

/// Fallback wait for a motion whose animation events do not arrive.
pub const MOTION_FALLBACK_MS: u64 = 3000;

// ---------------------------------------------------------------------------
// Entries and tables
// ---------------------------------------------------------------------------

#[derive(Debug, Clone, Copy, PartialEq, Eq, Structural)]
pub enum HotkeyKind {
    Expression,
    Motion,
    Idle,
}

/// What the player knows of one hotkey of the model.
#[derive(Debug, Clone)]
pub struct ExpressionEntry {
    pub hotkey_id: String,
    pub animation_file: String,
    pub kind: HotkeyKind,
    pub can_loop: bool,
    pub duration_ms: u64,
    pub loop_interval_ms: u64,
    pub fallback_ms: u64,
}

impl ExpressionEntry {
    /// A copy of this entry.
    pub fn duplicate(&self) -> (r: ExpressionEntry)
        ensures
            r == *self,
    {
        ExpressionEntry {
            hotkey_id: self.hotkey_id.clone(),
            animation_file: self.animation_file.clone(),
            kind: self.kind,
            can_loop: self.can_loop,
            duration_ms: self.duration_ms,
            loop_interval_ms: self.loop_interval_ms,
            fallback_ms: self.fallback_ms,
        }
    }
}

/// A hotkey of the cache under its lookup key.
#[derive(Debug, Clone)]
pub struct CachedHotkey {
    pub key: String,
    pub entry: ExpressionEntry,
}

/// An alias offered to the LLM and the hotkey keys it may play.
#[derive(Debug, Clone)]
pub struct AliasTargets {
    pub alias: String,
    pub keys: Vec<String>,
}

/// The keys of a cache, in order.
pub open spec fn cache_keys(c: Seq<CachedHotkey>) -> Seq<Seq<char>> {
    c.map_values(|h: CachedHotkey| h.key@)
}

/// The aliases of a table, in order.
pub open spec fn alias_names(t: Seq<AliasTargets>) -> Seq<Seq<char>> {
    t.map_values(|a: AliasTargets| a.alias@)
}

/// The hotkey keys an alias may play.
pub open spec fn targets_of(a: AliasTargets) -> Seq<Seq<char>> {
    string_views(a.keys@)
}

/// No item occurs twice in `s`.
pub open spec fn distinct(s: Seq<Seq<char>>) -> bool {
    forall|i: int, j: int| 0 <= i < j < s.len() ==> s[i] != s[j]
}

/// Two sequences with the same items, counted, are both without repeats or
/// both with.
pub proof fn lemma_distinct_same_items(a: Seq<Seq<char>>, b: Seq<Seq<char>>)
    requires
        a.to_multiset() == b.to_multiset(),
        distinct(b),
    ensures
        distinct(a),
{
    assert(b.no_duplicates()) by {
        assert forall|i: int, j: int| 0 <= i < b.len() && 0 <= j < b.len() && i != j implies b[i] != b[j] by {
            if i < j {
            } else {
            }
        }
    }
    b.lemma_multiset_has_no_duplicates();
    a.lemma_multiset_has_no_duplicates_conv();
}

/// The first index `>= i` at which `k` occurs in `s`.
pub open spec fn first_match(s: Seq<Seq<char>>, k: Seq<char>, i: int) -> Option<int>
    decreases s.len() - i,
{
    if i < 0 || i >= s.len() {
        None
    } else if s[i] == k {
        Some(i)
    } else {
        first_match(s, k, i + 1)
    }
}

/// The first index at which `k` occurs in `s`.
pub open spec fn index_in(s: Seq<Seq<char>>, k: Seq<char>) -> Option<int> {
    first_match(s, k, 0)
}

pub proof fn lemma_first_match(s: Seq<Seq<char>>, k: Seq<char>, i: int)
    requires
        0 <= i,
    ensures
        match first_match(s, k, i) {
            Some(j) => i <= j < s.len() && s[j] == k && forall|m: int| i <= m < j ==> s[m] != k,
            None => forall|m: int| i <= m < s.len() ==> s[m] != k,
        },
    decreases s.len() - i,
{
    if i < s.len() && s[i] != k {
        lemma_first_match(s, k, i + 1);
    }
}

/// `k` occurs in `s` exactly where `index_in` says first.
pub proof fn lemma_index_in(s: Seq<Seq<char>>, k: Seq<char>)
    ensures
        index_in(s, k) is Some <==> s.contains(k),
        match index_in(s, k) {
            Some(j) => 0 <= j < s.len() && s[j] == k,
            None => true,
        },
{
    lemma_first_match(s, k, 0);
    if s.contains(k) {
        let m = choose|m: int| 0 <= m < s.len() && s[m] == k;
        assert(s[m] == k);
    }
}

/// The first index `>= i` of an alias whose targets hold `k`.
pub open spec fn first_listing(t: Seq<AliasTargets>, k: Seq<char>, i: int) -> Option<int>
    decreases t.len() - i,
{
    if i < 0 || i >= t.len() {
        None
    } else if targets_of(t[i]).contains(k) {
        Some(i)
    } else {
        first_listing(t, k, i + 1)
    }
}

pub proof fn lemma_first_listing(t: Seq<AliasTargets>, k: Seq<char>, i: int)
    requires
        0 <= i,
    ensures
        match first_listing(t, k, i) {
            Some(j) => i <= j < t.len() && targets_of(t[j]).contains(k),
            None => forall|m: int| i <= m < t.len() ==> !targets_of(t[m]).contains(k),
        },
    decreases t.len() - i,
{
    if i < t.len() && !targets_of(t[i]).contains(k) {
        lemma_first_listing(t, k, i + 1);
    }
}

/// The string `idle`.
pub open spec fn idle_word() -> Seq<char> {
    seq!['i', 'd', 'l', 'e']
}

/// The string `thinking`.
pub open spec fn thinking_word() -> Seq<char> {
    seq!['t', 'h', 'i', 'n', 'k', 'i', 'n', 'g']
}

fn idle_string() -> (r: String)
    ensures
        r@ == idle_word(),
{
    let r = "idle".to_owned();
    proof {
        reveal_strlit("idle");
    }
    r
}

fn thinking_string() -> (r: String)
    ensures
        r@ == thinking_word(),
{
    let r = "thinking".to_owned();
    proof {
        reveal_strlit("thinking");
    }
    r
}

// ---------------------------------------------------------------------------
// Searching
// ---------------------------------------------------------------------------

/// Where `k` first occurs in `v`.
pub fn position_of(v: &[String], k: &String) -> (r: Option<usize>)
    ensures
        match r {
            Some(j) => j < v@.len() && index_in(string_views(v@), k@) == Some(j as int),
            None => index_in(string_views(v@), k@) is None,
        },
{
    let ghost s = string_views(v@);
    let mut i: usize = 0;
    while i < v.len()
        invariant
            i <= v@.len(),
            s == string_views(v@),
            first_match(s, k@, i as int) == first_match(s, k@, 0),
        decreases v@.len() - i,
    {
        if v[i] == *k {
            return Some(i);
        }
        i += 1;
    }
    None
}

/// `k` occurs in `v`.
pub fn holds_string(v: &[String], k: &String) -> (r: bool)
    ensures
        r == string_views(v@).contains(k@),
{
    proof {
        lemma_index_in(string_views(v@), k@);
    }
    position_of(v, k).is_some()
}

/// Where the alias `a` stands in `t`.
pub fn alias_position(t: &[AliasTargets], a: &String) -> (r: Option<usize>)
    ensures
        match r {
            Some(j) => j < t@.len() && index_in(alias_names(t@), a@) == Some(j as int),
            None => index_in(alias_names(t@), a@) is None,
        },
{
    let ghost s = alias_names(t@);
    let mut i: usize = 0;
    while i < t.len()
        invariant
            i <= t@.len(),
            s == alias_names(t@),
            first_match(s, a@, i as int) == first_match(s, a@, 0),
        decreases t@.len() - i,
    {
        if t[i].alias == *a {
            return Some(i);
        }
        i += 1;
    }
    None
}

/// Where the key `k` stands in the cache `c`.
pub fn cache_position(c: &[CachedHotkey], k: &String) -> (r: Option<usize>)
    ensures
        match r {
            Some(j) => j < c@.len() && index_in(cache_keys(c@), k@) == Some(j as int),
            None => index_in(cache_keys(c@), k@) is None,
        },
{
    let ghost s = cache_keys(c@);
    let mut i: usize = 0;
    while i < c.len()
        invariant
            i <= c@.len(),
            s == cache_keys(c@),
            first_match(s, k@, i as int) == first_match(s, k@, 0),
        decreases c@.len() - i,
    {
        if c[i].key == *k {
            return Some(i);
        }
        i += 1;
    }
    None
}

/// A copy of the strings of `v`.
pub fn copy_strings(v: &[String]) -> (r: Vec<String>)
    ensures
        r@ == v@,
{
    let mut out: Vec<String> = Vec::new();
    let mut i: usize = 0;
    while i < v.len()
        invariant
            i <= v@.len(),
            out@ == v@.subrange(0, i as int),
        decreases v@.len() - i,
    {
        out.push(v[i].clone());
        i += 1;
        assert(out@ == v@.subrange(0, i as int));
    }
    assert(v@.subrange(0, v@.len() as int) == v@);
    out
}

// ---------------------------------------------------------------------------
// Aliases
// ---------------------------------------------------------------------------

/// The first item of a sorted arrangement of `names` is the least of them.
pub proof fn lemma_sorted_first_is_least(ls: Seq<Seq<char>>, names: Seq<Seq<char>>)
    requires
        sorted(ls),
        ls.to_multiset() == names.to_multiset(),
        ls.len() > 0,
    ensures
        names.contains(ls[0]),
        forall|j: int| 0 <= j < names.len() ==> lex_le(ls[0], #[trigger] names[j]),
{
    vstd::seq_lib::to_multiset_contains(ls, ls[0]);
    vstd::seq_lib::to_multiset_contains(names, ls[0]);
    assert forall|j: int| 0 <= j < names.len() implies lex_le(ls[0], #[trigger] names[j]) by {
        let n = names[j];
        assert(names.contains(n));
        vstd::seq_lib::to_multiset_contains(names, n);
        vstd::seq_lib::to_multiset_contains(ls, n);
        let m = choose|m: int| 0 <= m < ls.len() && ls[m] == n;
        if m == 0 {
            crate::text::lemma_lex_irrefl(n);
        } else {
            assert(lex_le(ls[0], ls[m]));
        }
    }
}

/// The aliases sent to the LLM: every configured alias, in ascending order,
/// and nothing else.
pub fn llm_alias_list(t: &[AliasTargets]) -> (r: Vec<String>)
    ensures
        sorted(string_views(r@)),
        string_views(r@).to_multiset() == alias_names(t@).to_multiset(),
        distinct(alias_names(t@)) ==> distinct(string_views(r@)),
{
    let mut names: Vec<String> = Vec::new();
    let mut i: usize = 0;
    while i < t.len()
        invariant
            i <= t@.len(),
            string_views(names@) == alias_names(t@).subrange(0, i as int),
        decreases t@.len() - i,
    {
        let ghost before = names@;
        names.push(t[i].alias.clone());
        assert(string_views(names@) == string_views(before).push(t@[i as int].alias@));
        i += 1;
        assert(string_views(names@) == alias_names(t@).subrange(0, i as int));
    }
    assert(alias_names(t@).subrange(0, t@.len() as int) == alias_names(t@));
    let r = sort_strings(names.as_slice());
    proof {
        if distinct(alias_names(t@)) {
            lemma_distinct_same_items(string_views(r@), alias_names(t@));
        }
    }
    r
}

/// The alias whose targets hold `key`, the first such in the table.
pub fn alias_for_key(key: &String, t: &[AliasTargets]) -> (r: Option<String>)
    ensures
        match first_listing(t@, key@, 0) {
            Some(i) => r == Some(t@[i].alias),
            None => r is None,
        },
{
    let mut i: usize = 0;
    while i < t.len()
        invariant
            i <= t@.len(),
            first_listing(t@, key@, i as int) == first_listing(t@, key@, 0),
        decreases t@.len() - i,
    {
        if holds_string(t[i].keys.as_slice(), key) {
            return Some(t[i].alias.clone());
        }
        i += 1;
    }
    None
}

/// The alias that lists `key`; when none does, `idle` if that alias is
/// configured, else the first alias in ascending order, else the empty string.
pub open spec fn default_alias_spec(key: Seq<char>, t: Seq<AliasTargets>, r: Seq<char>) -> bool {
    match first_listing(t, key, 0) {
        Some(i) => r == t[i].alias@,
        None => if alias_names(t).contains(idle_word()) {
            r == idle_word()
        } else if t.len() == 0 {
            r.len() == 0
        } else {
            alias_names(t).contains(r) && forall|j: int|
                0 <= j < t.len() ==> lex_le(r, #[trigger] alias_names(t)[j])
        },
    }
}

/// The alias to show for `key` (see `default_alias_spec`).
pub fn default_alias_for_key(key: &String, t: &[AliasTargets]) -> (r: String)
    ensures
        default_alias_spec(key@, t@, r@),
{
    match alias_for_key(key, t) {
        Some(a) => a,
        None => {
            let idle = idle_string();
            if alias_position(t, &idle).is_some() {
                proof {
                    lemma_index_in(alias_names(t@), idle@);
                }
                return idle;
            }
            proof {
                lemma_index_in(alias_names(t@), idle@);
            }
            let list = llm_alias_list(t);
            proof {
                vstd::seq_lib::to_multiset_len(string_views(list@));
                vstd::seq_lib::to_multiset_len(alias_names(t@));
            }
            if list.len() == 0 {
                String::new()
            } else {
                let first = list[0].clone();
                proof {
                    lemma_sorted_first_is_least(string_views(list@), alias_names(t@));
                }
                first
            }
        },
    }
}

/// The alias `a` of the table, if configured.
pub open spec fn alias_entry(t: Seq<AliasTargets>, a: Seq<char>) -> Option<AliasTargets> {
    match index_in(alias_names(t), a) {
        Some(i) => Some(t[i]),
        None => None,
    }
}

/// The name under which `key` loops: the alias listing it when that alias
/// has more than one target, else `key` itself.
pub open spec fn loop_name_spec(key: Seq<char>, t: Seq<AliasTargets>) -> Seq<char> {
    match first_listing(t, key, 0) {
        Some(i) => match alias_entry(t, t[i].alias@) {
            Some(e) => if e.keys@.len() > 1 {
                t[i].alias@
            } else {
                key
            },
            None => key,
        },
        None => key,
    }
}

/// The name to loop `key` under.
pub fn loop_name_for_key(key: &String, t: &[AliasTargets]) -> (r: String)
    ensures
        r@ == loop_name_spec(key@, t@),
{
    if let Some(alias) = alias_for_key(key, t) {
        if let Some(j) = alias_position(t, &alias) {
            if t[j].keys.len() > 1 {
                return alias;
            }
        }
    }
    key.clone()
}

/// Some alias of the table lists `key`.
pub open spec fn alias_covers_spec(key: Seq<char>, t: Seq<AliasTargets>) -> bool {
    exists|i: int| 0 <= i < t.len() && #[trigger] targets_of(t[i]).contains(key)
}

/// Whether some alias lists `key`.
pub fn alias_covers_key(key: &String, t: &[AliasTargets]) -> (r: bool)
    ensures
        r == alias_covers_spec(key@, t@),
{
    proof {
        lemma_first_listing(t@, key@, 0);
    }
    alias_for_key(key, t).is_some()
}

/// The `idle` alias lists `key`.
pub open spec fn idle_alias_lists(key: Seq<char>, t: Seq<AliasTargets>) -> bool {
    match alias_entry(t, idle_word()) {
        Some(e) => targets_of(e).contains(key),
        None => false,
    }
}

/// Whether the `idle` alias lists `key`.
pub fn idle_alias_contains_key(key: &String, t: &[AliasTargets]) -> (r: bool)
    ensures
        r == idle_alias_lists(key@, t@),
{
    let idle = idle_string();
    match alias_position(t, &idle) {
        Some(j) => holds_string(t[j].keys.as_slice(), key),
        None => false,
    }
}

/// Idle hotkeys loop inside Live2D: re-triggering them gives no fresh
/// animation events, so the player waits for the cancel instead.
pub fn is_idle_loop_target(key: &String, entry: &ExpressionEntry, t: &[AliasTargets]) -> (r: bool)
    ensures
        r == (entry.kind == HotkeyKind::Idle || idle_alias_lists(key@, t@)),
{
    entry.kind == HotkeyKind::Idle || idle_alias_contains_key(key, t)
}

// ---------------------------------------------------------------------------
// Resolving aliases
// ---------------------------------------------------------------------------

/// `r` may be what picking from `keys` gives: the empty string for no key,
/// the key itself for one, one of them for more.
pub open spec fn picked_from(keys: Seq<Seq<char>>, r: Seq<char>) -> bool {
    if keys.len() == 0 {
        r.len() == 0
    } else if keys.len() == 1 {
        r == keys[0]
    } else {
        keys.contains(r)
    }
}

/// `IndexedRandom::choose` with the thread-local generator `rand::rng()`:
/// none for an empty slice, else a clone of one of its items.
#[verifier::external_body]
pub(crate) fn choose_random(keys: &[String]) -> (r: Option<String>)
    ensures
        keys@.len() == 0 <==> r is None,
        r matches Some(k) ==> string_views(keys@).contains(k@),
{
    keys.choose(&mut rand::rng()).cloned()
}

/// One hotkey key of an allow list, picked at random when there are several.
pub fn pick_allow_list_key(keys: &[String]) -> (r: String)
    ensures
        picked_from(string_views(keys@), r@),
{
    if keys.len() == 1 {
        return keys[0].clone();
    }
    match choose_random(keys) {
        Some(k) => k,
        None => String::new(),
    }
}

/// `r` may be what an LLM label resolves to: a target of the alias whose
/// name is the label's slug, or the default loop key when there is none.
pub open spec fn resolves_to(
    name: Seq<char>,
    t: Seq<AliasTargets>,
    default_loop_key: Seq<char>,
    r: Seq<char>,
) -> bool {
    match alias_entry(t, slugify_spec(name)) {
        Some(e) => picked_from(targets_of(e), r),
        None => r == default_loop_key,
    }
}

/// The hotkey key that an LLM label stands for.
pub fn resolve_llm_alias(name: &str, t: &[AliasTargets], default_loop_key: &String) -> (r: String)
    ensures
        resolves_to(name@, t@, default_loop_key@, r@),
{
    let key = normalize_lookup_key(name);
    match alias_position(t, &key) {
        Some(j) => pick_allow_list_key(t[j].keys.as_slice()),
        None => default_loop_key.clone(),
    }
}

// ---------------------------------------------------------------------------
// The cache
// ---------------------------------------------------------------------------

/// The cached entry under `k`.
pub open spec fn cache_entry(c: Seq<CachedHotkey>, k: Seq<char>) -> Option<ExpressionEntry> {
    match index_in(cache_keys(c), k) {
        Some(i) => Some(c[i].entry),
        None => None,
    }
}

/// `k` names a cached hotkey that can be triggered.
pub open spec fn playable(c: Seq<CachedHotkey>, k: Seq<char>) -> bool {
    match cache_entry(c, k) {
        Some(e) => e.hotkey_id@.len() > 0,
        None => false,
    }
}

fn is_playable(c: &[CachedHotkey], k: &String) -> (r: bool)
    ensures
        r == playable(c@, k@),
{
    match cache_position(c, k) {
        Some(i) => !c[i].entry.hotkey_id.as_str().is_empty(),
        None => false,
    }
}

/// The answers `b` that the question "does the label with slug `slug` lead
/// to a hotkey that can be triggered?" may get: yes when the slug is such a
/// key; else, for an alias, whether its pick can be triggered (the pick is
/// random: any target's answer, or the empty key's for an empty alias); no
/// otherwise.
pub open spec fn resolution_allows(c: Seq<CachedHotkey>, t: Seq<AliasTargets>, slug: Seq<char>, b: bool) -> bool {
    if playable(c, slug) {
        b
    } else {
        match alias_entry(t, slug) {
            None => !b,
            Some(e) => if targets_of(e).len() == 0 {
                b == playable(c, Seq::empty())
            } else {
                exists|j: int| 0 <= j < targets_of(e).len() && playable(c, #[trigger] targets_of(e)[j]) == b
            },
        }
    }
}

/// Whether `name` leads to a hotkey that can be triggered: its slug is such
/// a key, or it is an alias whose pick is one. The pick is random, so of an
/// alias only this is said: the answer is yes when every target can be
/// triggered, no when none can.
pub fn name_resolves(
    name: &str,
    c: &[CachedHotkey],
    t: &[AliasTargets],
    default_loop_key: &String,
) -> (r: bool)
    ensures
        playable(c@, slugify_spec(name@)) ==> r,
        !playable(c@, slugify_spec(name@)) ==> match alias_entry(t@, slugify_spec(name@)) {
            None => !r,
            Some(e) => (targets_of(e).len() > 0 && forall|j: int|
                0 <= j < targets_of(e).len() ==> playable(c@, #[trigger] targets_of(e)[j]))
                ==> r,
        },
        !playable(c@, slugify_spec(name@)) ==> match alias_entry(t@, slugify_spec(name@)) {
            None => true,
            Some(e) => (targets_of(e).len() > 0 && forall|j: int|
                0 <= j < targets_of(e).len() ==> !playable(c@, #[trigger] targets_of(e)[j]))
                ==> !r,
        },
        resolution_allows(c@, t@, slugify_spec(name@), r),
{
    let slug = normalize_lookup_key(name);
    if is_playable(c, &slug) {
        return true;
    }
    if alias_position(t, &slug).is_some() {
        let key = resolve_llm_alias(name, t, default_loop_key);
        proof {
            let ks = targets_of(alias_entry(t@, slugify_spec(name@)).unwrap());
            if ks.len() == 0 {
                assert(key@ =~= Seq::<char>::empty());
            } else if ks.len() == 1 {
                assert(ks[0] == key@);
                assert(playable(c@, ks[0]) == playable(c@, key@));
            } else {
                let j = choose|j: int| 0 <= j < ks.len() && ks[j] == key@;
                assert(playable(c@, ks[j]) == playable(c@, key@));
            }
        }
        return is_playable(c, &key);
    }
    false
}

/// The labels that `waiting_loop_label` may give: `thinking` when asking
/// whether it leads to a hotkey may be answered yes, the loop name of the
/// default loop key when it may be answered no.
pub open spec fn waiting_label_allows(
    c: Seq<CachedHotkey>,
    t: Seq<AliasTargets>,
    default_loop_key: Seq<char>,
    r: Seq<char>,
) -> bool {
    exists|b: bool|
        resolution_allows(c, t, slugify_spec(thinking_word()), b) && r == (if b {
            thinking_word()
        } else {
            loop_name_spec(default_loop_key, t)
        })
}

/// The label to loop while waiting: `thinking` when it leads to a hotkey,
/// else the loop name of the default loop key.
pub fn waiting_loop_label(c: &[CachedHotkey], t: &[AliasTargets], default_loop_key: &String) -> (r: String)
    ensures
        waiting_label_allows(c@, t@, default_loop_key@, r@),
        r@ == thinking_word() || r@ == loop_name_spec(default_loop_key@, t@),
        playable(c@, slugify_spec(thinking_word())) ==> r@ == thinking_word(),
        !playable(c@, slugify_spec(thinking_word())) ==> match alias_entry(t@, slugify_spec(thinking_word())) {
            None => r@ == loop_name_spec(default_loop_key@, t@),
            Some(e) => {
                &&& (targets_of(e).len() > 0 && forall|j: int|
                    0 <= j < targets_of(e).len() ==> playable(c@, #[trigger] targets_of(e)[j]))
                    ==> r@ == thinking_word()
                &&& (targets_of(e).len() > 0 && forall|j: int|
                    0 <= j < targets_of(e).len() ==> !playable(c@, #[trigger] targets_of(e)[j]))
                    ==> r@ == loop_name_spec(default_loop_key@, t@)
            },
        },
{
    let thinking = thinking_string();
    if name_resolves(thinking.as_str(), c, t, default_loop_key) {
        return thinking;
    }
    loop_name_for_key(default_loop_key, t)
}


/// The cache key that a configured alias target stands for: its slug when
/// that is a key, else the key of its label when that is one.
pub open spec fn lookup_spec(c: Seq<CachedHotkey>, target: Seq<char>) -> Option<Seq<char>> {
    let direct = slugify_spec(target);
    if cache_keys(c).contains(direct) {
        Some(direct)
    } else {
        match normalize_label_spec(target) {
            Some(k) => if cache_keys(c).contains(k) {
                Some(k)
            } else {
                None
            },
            None => None,
        }
    }
}

/// The cache key that a configured alias target stands for.
pub fn lookup_cache_key(c: &[CachedHotkey], target: &str) -> (r: Option<String>)
    ensures
        match lookup_spec(c@, target@) {
            Some(k) => r matches Some(x) && x@ == k,
            None => r is None,
        },
{
    let direct = normalize_lookup_key(target);
    proof {
        lemma_index_in(cache_keys(c@), direct@);
    }
    if cache_position(c, &direct).is_some() {
        return Some(direct);
    }
    match normalize_label(target) {
        Some(k) => {
            proof {
                lemma_index_in(cache_keys(c@), k@);
            }
            if cache_position(c, &k).is_some() {
                Some(k)
            } else {
                None
            }
        },
        None => None,
    }
}

/// `k` names a cached hotkey that can loop.
pub open spec fn loopable(c: Seq<CachedHotkey>, k: Seq<char>) -> bool {
    match cache_entry(c, k) {
        Some(e) => e.can_loop,
        None => false,
    }
}

/// The items of `s` that name hotkeys which can loop, in order.
pub open spec fn loopable_only(c: Seq<CachedHotkey>, s: Seq<Seq<char>>) -> Seq<Seq<char>>
    decreases s.len(),
{
    if s.len() == 0 {
        Seq::empty()
    } else {
        let p = loopable_only(c, s.drop_last());
        if loopable(c, s.last()) {
            p.push(s.last())
        } else {
            p
        }
    }
}

fn is_loopable(c: &[CachedHotkey], k: &String) -> (r: bool)
    ensures
        r == loopable(c@, k@),
{
    match cache_position(c, k) {
        Some(i) => c[i].entry.can_loop,
        None => false,
    }
}

fn keep_loopable(c: &[CachedHotkey], keys: &[String]) -> (r: Vec<String>)
    ensures
        string_views(r@) == loopable_only(c@, string_views(keys@)),
{
    let mut out: Vec<String> = Vec::new();
    let mut i: usize = 0;
    while i < keys.len()
        invariant
            i <= keys@.len(),
            string_views(out@) == loopable_only(c@, string_views(keys@).subrange(0, i as int)),
        decreases keys@.len() - i,
    {
        let ghost before = out@;
        let ghost pre = string_views(keys@).subrange(0, i as int);
        let ghost post = string_views(keys@).subrange(0, i + 1);
        assert(post.drop_last() == pre);
        assert(post.last() == keys@[i as int]@);
        if is_loopable(c, &keys[i]) {
            out.push(keys[i].clone());
            assert(string_views(out@) == string_views(before).push(keys@[i as int]@));
        }
        i += 1;
    }
    assert(string_views(keys@).subrange(0, keys@.len() as int) == string_views(keys@));
    out
}

/// The keys of `order` that name hotkeys which can loop, in order.
pub fn loopable_keys_in_order(c: &[CachedHotkey], order: &[String]) -> (r: Vec<String>)
    ensures
        string_views(r@) == loopable_only(c@, string_views(order@)),
{
    keep_loopable(c, order)
}

/// The keys of the cache in ascending order.
pub fn sorted_keys(c: &[CachedHotkey]) -> (r: Vec<String>)
    ensures
        sorted(string_views(r@)),
        string_views(r@).to_multiset() == cache_keys(c@).to_multiset(),
{
    let mut keys: Vec<String> = Vec::new();
    let mut i: usize = 0;
    while i < c.len()
        invariant
            i <= c@.len(),
            string_views(keys@) == cache_keys(c@).subrange(0, i as int),
        decreases c@.len() - i,
    {
        let ghost before = keys@;
        keys.push(c[i].key.clone());
        assert(string_views(keys@) == string_views(before).push(c@[i as int].key@));
        i += 1;
        assert(string_views(keys@) == cache_keys(c@).subrange(0, i as int));
    }
    assert(cache_keys(c@).subrange(0, c@.len() as int) == cache_keys(c@));
    sort_strings(keys.as_slice())
}

/// The least key of a cache that is not empty.
pub fn pick_fallback_key(c: &[CachedHotkey]) -> (r: String)
    requires
        c@.len() > 0,
    ensures
        cache_keys(c@).contains(r@),
        forall|j: int| 0 <= j < c@.len() ==> lex_le(r@, #[trigger] cache_keys(c@)[j]),
{
    let keys = sorted_keys(c);
    proof {
        vstd::seq_lib::to_multiset_len(string_views(keys@));
        vstd::seq_lib::to_multiset_len(cache_keys(c@));
        lemma_sorted_first_is_least(string_views(keys@), cache_keys(c@));
    }
    keys[0].clone()
}

/// The targets of the `idle` alias that can loop, in order.
pub open spec fn loopable_idle_spec(c: Seq<CachedHotkey>, t: Seq<AliasTargets>) -> Seq<Seq<char>> {
    match alias_entry(t, idle_word()) {
        Some(e) => loopable_only(c, targets_of(e)),
        None => Seq::empty(),
    }
}

/// The targets of the `idle` alias that can loop.
pub fn loopable_idle_alias_keys(c: &[CachedHotkey], t: &[AliasTargets]) -> (r: Vec<String>)
    ensures
        string_views(r@) == loopable_idle_spec(c@, t@),
{
    let idle = idle_string();
    match alias_position(t, &idle) {
        Some(j) => keep_loopable(c, t[j].keys.as_slice()),
        None => Vec::new(),
    }
}

/// The key the player rests on: the first loopable target of the `idle`
/// alias, else the first loopable key in discovery order, else `fallback`.
pub open spec fn default_loop_spec(
    c: Seq<CachedHotkey>,
    order: Seq<Seq<char>>,
    fallback: Seq<char>,
    t: Seq<AliasTargets>,
) -> Seq<char> {
    let idle = loopable_idle_spec(c, t);
    let found = loopable_only(c, order);
    if idle.len() > 0 {
        idle[0]
    } else if found.len() > 0 {
        found[0]
    } else {
        fallback
    }
}

/// The key the player rests on.
pub fn pick_default_loop_key(
    c: &[CachedHotkey],
    order: &[String],
    fallback: &String,
    t: &[AliasTargets],
) -> (r: String)
    ensures
        r@ == default_loop_spec(c@, string_views(order@), fallback@, t@),
{
    let idle = loopable_idle_alias_keys(c, t);
    if idle.len() > 0 {
        return idle[0].clone();
    }
    let found = loopable_keys_in_order(c, order);
    if found.len() > 0 {
        return found[0].clone();
    }
    fallback.clone()
}

// ---------------------------------------------------------------------------
// Building the alias tables
// ---------------------------------------------------------------------------

/// Which hotkeys an alias table may name.
#[derive(Debug, Clone, Copy, PartialEq, Eq, Structural)]
pub enum AliasKind {
    Expression,
    Motion,
}

/// A hotkey of kind `k` may stand in a table of kind `a`.
pub open spec fn kind_fits(k: HotkeyKind, a: AliasKind) -> bool {
    match a {
        AliasKind::Expression => k == HotkeyKind::Expression,
        AliasKind::Motion => k == HotkeyKind::Motion || k == HotkeyKind::Idle,
    }
}

/// The keys that configured targets `ts` stand for: each looked up in the
/// cache, kept when its hotkey fits the table, and only its first time.
pub open spec fn valid_targets(c: Seq<CachedHotkey>, ts: Seq<Seq<char>>, kind: AliasKind) -> Seq<Seq<char>>
    decreases ts.len(),
{
    if ts.len() == 0 {
        Seq::empty()
    } else {
        let p = valid_targets(c, ts.drop_last(), kind);
        match lookup_spec(c, ts.last()) {
            Some(k) => match cache_entry(c, k) {
                Some(e) => if kind_fits(e.kind, kind) && !p.contains(k) {
                    p.push(k)
                } else {
                    p
                },
                None => p,
            },
            None => p,
        }
    }
}

/// An alias table as plain values: each alias with its targets.
pub open spec fn table_view(t: Seq<AliasTargets>) -> Seq<(Seq<char>, Seq<Seq<char>>)> {
    t.map_values(|a: AliasTargets| (a.alias@, targets_of(a)))
}

pub open spec fn view_names(tv: Seq<(Seq<char>, Seq<Seq<char>>)>) -> Seq<Seq<char>> {
    tv.map_values(|p: (Seq<char>, Seq<Seq<char>>)| p.0)
}

/// The table after registering `label` with the targets `ts`: unchanged when
/// the label's slug is empty or already an alias, or no target is valid.
pub open spec fn register_view(
    c: Seq<CachedHotkey>,
    tv: Seq<(Seq<char>, Seq<Seq<char>>)>,
    label: Seq<char>,
    ts: Seq<Seq<char>>,
    kind: AliasKind,
) -> Seq<(Seq<char>, Seq<Seq<char>>)> {
    let alias = slugify_spec(label);
    let ks = valid_targets(c, ts, kind);
    if alias.len() == 0 || view_names(tv).contains(alias) || ks.len() == 0 {
        tv
    } else {
        tv.push((alias, ks))
    }
}

/// The table after registering every configured alias of `es`, in order.
pub open spec fn register_all(
    c: Seq<CachedHotkey>,
    tv: Seq<(Seq<char>, Seq<Seq<char>>)>,
    es: Seq<(String, AliasAllowList)>,
    kind: AliasKind,
) -> Seq<(Seq<char>, Seq<Seq<char>>)>
    decreases es.len(),
{
    if es.len() == 0 {
        tv
    } else {
        register_view(
            c,
            register_all(c, tv, es.drop_last(), kind),
            es.last().0@,
            string_views(allow_list_keys(es.last().1)),
            kind,
        )
    }
}

/// The alias table of a configuration: expression aliases, then motion aliases.
pub open spec fn alias_maps_spec(c: Seq<CachedHotkey>, vts: VtsConfig) -> Seq<(Seq<char>, Seq<Seq<char>>)> {
    register_all(
        c,
        register_all(c, Seq::empty(), vts.expression_alias@, AliasKind::Expression),
        vts.motion_alias@,
        AliasKind::Motion,
    )
}

/// A table of aliases is sound for a cache: no alias twice, no empty alias,
/// and each alias has targets, all distinct keys of the cache.
pub open spec fn table_sound(tv: Seq<(Seq<char>, Seq<Seq<char>>)>, c: Seq<CachedHotkey>) -> bool {
    &&& distinct(view_names(tv))
    &&& forall|i: int| 0 <= i < tv.len() ==> {
        let (a, ks) = #[trigger] tv[i];
        &&& a.len() > 0
        &&& ks.len() > 0
        &&& distinct(ks)
        &&& forall|j: int| 0 <= j < ks.len() ==> cache_keys(c).contains(#[trigger] ks[j])
    }
}

pub proof fn lemma_valid_targets_sound(c: Seq<CachedHotkey>, ts: Seq<Seq<char>>, kind: AliasKind)
    ensures
        distinct(valid_targets(c, ts, kind)),
        forall|j: int|
            0 <= j < valid_targets(c, ts, kind).len() ==> cache_keys(c).contains(
                #[trigger] valid_targets(c, ts, kind)[j],
            ),
    decreases ts.len(),
{
    if ts.len() > 0 {
        lemma_valid_targets_sound(c, ts.drop_last(), kind);
        let p = valid_targets(c, ts.drop_last(), kind);
        match lookup_spec(c, ts.last()) {
            Some(k) => {
                lemma_index_in(cache_keys(c), k);
                lemma_index_in(cache_keys(c), slugify_spec(ts.last()));
            },
            None => {},
        }
    }
}

/// Registering an alias keeps a table sound.
pub proof fn lemma_register_sound(
    c: Seq<CachedHotkey>,
    tv: Seq<(Seq<char>, Seq<Seq<char>>)>,
    label: Seq<char>,
    ts: Seq<Seq<char>>,
    kind: AliasKind,
)
    requires
        table_sound(tv, c),
    ensures
        table_sound(register_view(c, tv, label, ts, kind), c),
{
    lemma_valid_targets_sound(c, ts, kind);
    let alias = slugify_spec(label);
    let ks = valid_targets(c, ts, kind);
    if !(alias.len() == 0 || view_names(tv).contains(alias) || ks.len() == 0) {
        let nv = tv.push((alias, ks));
        assert(view_names(nv) == view_names(tv).push(alias));
        assert forall|i: int, j: int| 0 <= i < j < view_names(nv).len() implies view_names(nv)[i]
            != view_names(nv)[j] by {
            if j == tv.len() {
                assert(view_names(tv)[i] == view_names(nv)[i]);
            }
        }
    }
}

pub proof fn lemma_register_all_sound(
    c: Seq<CachedHotkey>,
    tv: Seq<(Seq<char>, Seq<Seq<char>>)>,
    es: Seq<(String, AliasAllowList)>,
    kind: AliasKind,
)
    requires
        table_sound(tv, c),
    ensures
        table_sound(register_all(c, tv, es, kind), c),
    decreases es.len(),
{
    if es.len() > 0 {
        lemma_register_all_sound(c, tv, es.drop_last(), kind);
        lemma_register_sound(
            c,
            register_all(c, tv, es.drop_last(), kind),
            es.last().0@,
            string_views(allow_list_keys(es.last().1)),
            kind,
        );
    }
}

/// The alias tables built from any configuration are sound for the cache:
/// no alias twice, and every alias plays at least one hotkey, each a
/// distinct key of the cache.
pub proof fn law_alias_tables_sound(c: Seq<CachedHotkey>, vts: VtsConfig)
    ensures
        table_sound(alias_maps_spec(c, vts), c),
{
    let e: Seq<(Seq<char>, Seq<Seq<char>>)> = Seq::empty();
    assert(table_sound(e, c));
    lemma_register_all_sound(c, e, vts.expression_alias@, AliasKind::Expression);
    lemma_register_all_sound(
        c,
        register_all(c, e, vts.expression_alias@, AliasKind::Expression),
        vts.motion_alias@,
        AliasKind::Motion,
    );
}

fn alias_fits(c: &[CachedHotkey], key: &String, kind: AliasKind) -> (r: bool)
    ensures
        r == match cache_entry(c@, key@) {
            Some(e) => kind_fits(e.kind, kind),
            None => false,
        },
{
    match cache_position(c, key) {
        Some(i) => match kind {
            AliasKind::Expression => c[i].entry.kind == HotkeyKind::Expression,
            AliasKind::Motion => c[i].entry.kind == HotkeyKind::Motion || c[i].entry.kind
                == HotkeyKind::Idle,
        },
        None => false,
    }
}

/// Adds the alias `label` with the hotkeys that `targets` stand for, as
/// `register_view` says.
pub fn register_alias(
    c: &[CachedHotkey],
    t: &mut Vec<AliasTargets>,
    label: &str,
    targets: &[String],
    kind: AliasKind,
)
    ensures
        table_view(final(t)@) == register_view(c@, table_view(old(t)@), label@, string_views(targets@), kind),
{
    let alias = normalize_lookup_key(label);
    proof {
        assert(alias_names(t@) == view_names(table_view(t@)));
        lemma_index_in(alias_names(t@), alias@);
    }
    if alias.as_str().is_empty() {
        return;
    }
    if alias_position(t.as_slice(), &alias).is_some() {
        return;
    }
    let ghost ts = string_views(targets@);
    let mut keys: Vec<String> = Vec::new();
    let mut i: usize = 0;
    while i < targets.len()
        invariant
            i <= targets@.len(),
            ts == string_views(targets@),
            string_views(keys@) == valid_targets(c@, ts.subrange(0, i as int), kind),
        decreases targets@.len() - i,
    {
        let ghost pre = ts.subrange(0, i as int);
        let ghost post = ts.subrange(0, i + 1);
        assert(post.drop_last() == pre);
        assert(post.last() == targets@[i as int]@);
        let ghost before = keys@;
        match lookup_cache_key(c, targets[i].as_str()) {
            Some(key) => {
                proof {
                    lemma_index_in(cache_keys(c@), key@);
                    lemma_index_in(string_views(keys@), key@);
                }
                if alias_fits(c, &key, kind) && !holds_string(keys.as_slice(), &key) {
                    keys.push(key);
                    assert(string_views(keys@) == string_views(before).push(key@));
                }
            },
            None => {},
        }
        i += 1;
    }
    assert(ts.subrange(0, targets@.len() as int) == ts);
    if keys.len() == 0 {
        return;
    }
    let ghost old_t = t@;
    t.push(AliasTargets { alias, keys });
    assert(table_view(t@) == table_view(old_t).push((alias@, string_views(keys@))));
}

/// The alias tables of a configuration for the discovered cache.
pub fn build_alias_maps(c: &[CachedHotkey], vts: &VtsConfig) -> (r: Vec<AliasTargets>)
    ensures
        table_view(r@) == alias_maps_spec(c@, *vts),
{
    let mut t: Vec<AliasTargets> = Vec::new();
    let mut i: usize = 0;
    assert(table_view(t@) == Seq::<(Seq<char>, Seq<Seq<char>>)>::empty());
    while i < vts.expression_alias.len()
        invariant
            i <= vts.expression_alias@.len(),
            table_view(t@) == register_all(
                c@,
                Seq::empty(),
                vts.expression_alias@.subrange(0, i as int),
                AliasKind::Expression,
            ),
        decreases vts.expression_alias@.len() - i,
    {
        let ghost post = vts.expression_alias@.subrange(0, i + 1);
        assert(post.drop_last() == vts.expression_alias@.subrange(0, i as int));
        let keys = vts.expression_alias[i].1.keys();
        register_alias(c, &mut t, vts.expression_alias[i].0.as_str(), keys.as_slice(), AliasKind::Expression);
        i += 1;
    }
    assert(vts.expression_alias@.subrange(0, vts.expression_alias@.len() as int) == vts.expression_alias@);
    let ghost mid = table_view(t@);
    let mut j: usize = 0;
    while j < vts.motion_alias.len()
        invariant
            j <= vts.motion_alias@.len(),
            mid == register_all(c@, Seq::empty(), vts.expression_alias@, AliasKind::Expression),
            table_view(t@) == register_all(
                c@,
                mid,
                vts.motion_alias@.subrange(0, j as int),
                AliasKind::Motion,
            ),
        decreases vts.motion_alias@.len() - j,
    {
        let ghost post = vts.motion_alias@.subrange(0, j + 1);
        assert(post.drop_last() == vts.motion_alias@.subrange(0, j as int));
        let keys = vts.motion_alias[j].1.keys();
        register_alias(c, &mut t, vts.motion_alias[j].0.as_str(), keys.as_slice(), AliasKind::Motion);
        j += 1;
    }
    assert(vts.motion_alias@.subrange(0, vts.motion_alias@.len() as int) == vts.motion_alias@);
    t
}


// ---------------------------------------------------------------------------
// Discovering the hotkeys of a model
// ---------------------------------------------------------------------------

/// What a hotkey of the model does, as far as the player cares.
#[derive(Debug, Clone, Copy, PartialEq, Eq, Structural)]
pub enum HotkeyAction {
    TriggerAnimation,
    ToggleExpression,
    ChangeIdleAnimation,
    Other,
}

/// A hotkey of the loaded model, as VTube Studio lists it.
#[derive(Debug, Clone)]
pub struct HotkeyInfo {
    pub name: String,
    pub action: HotkeyAction,
    pub file: String,
    pub hotkey_id: String,
}

/// A key holds a letter.
pub open spec fn useful_key(k: Seq<char>) -> bool {
    exists|i: int| 0 <= i < k.len() && alphabetic(#[trigger] k[i])
}

/// The lookup key of a hotkey: for a motion, its label when that holds a
/// letter, else its file's stem, else its label; for anything else its
/// label, else its file's stem.
pub open spec fn expression_key_spec(name: Seq<char>, file: Seq<char>, is_motion: bool) -> Option<Seq<char>> {
    if is_motion {
        match normalize_label_spec(name) {
            Some(l) if useful_key(l) => Some(l),
            _ => match file_stem_key_spec(file) {
                Some(k) => Some(k),
                None => normalize_label_spec(name),
            },
        }
    } else {
        match normalize_label_spec(name) {
            Some(l) => Some(l),
            None => file_stem_key_spec(file),
        }
    }
}

/// Finding the key of a hotkey comes to an end: whenever the file's stem is
/// consulted, taking it ends.
pub open spec fn key_search_ends(name: Seq<char>, file: Seq<char>, is_motion: bool) -> bool {
    if is_motion {
        (normalize_label_spec(name) matches Some(l) && useful_key(l)) || file_stem_key_ends(file)
    } else {
        normalize_label_spec(name) is Some || file_stem_key_ends(file)
    }
}

/// The lookup key of a hotkey.
pub fn expression_key(hk: &HotkeyInfo, is_motion: bool) -> (r: Option<String>)
    requires
        key_search_ends(hk.name@, hk.file@, is_motion),
    ensures
        match expression_key_spec(hk.name@, hk.file@, is_motion) {
            Some(k) => r matches Some(x) && x@ == k,
            None => r is None,
        },
{
    if is_motion {
        if let Some(label) = normalize_label(hk.name.as_str()) {
            if label_key_is_useful(label.as_str()) {
                return Some(label);
            }
        }
        match file_stem_key(hk.file.as_str()) {
            Some(k) => Some(k),
            None => normalize_label(hk.name.as_str()),
        }
    } else {
        match normalize_label(hk.name.as_str()) {
            Some(l) => Some(l),
            None => file_stem_key(hk.file.as_str()),
        }
    }
}

/// The kind of hotkey an action stands for; none for other actions.
pub open spec fn action_kind(a: HotkeyAction) -> Option<HotkeyKind> {
    match a {
        HotkeyAction::TriggerAnimation => Some(HotkeyKind::Motion),
        HotkeyAction::ToggleExpression => Some(HotkeyKind::Expression),
        HotkeyAction::ChangeIdleAnimation => Some(HotkeyKind::Idle),
        HotkeyAction::Other => None,
    }
}

/// The cache entry of a hotkey under its key; none for hotkeys that neither
/// play a motion, toggle an expression nor change the idle animation, and
/// for those without a key. Motions wait 3 s, the others 2 s; motions and
/// idle animations loop every 4 s.
pub open spec fn hotkey_entry_spec(hk: HotkeyInfo) -> Option<(Seq<char>, ExpressionEntry)> {
    match action_kind(hk.action) {
        None => None,
        Some(kind) => {
            let is_motion = kind == HotkeyKind::Motion;
            match expression_key_spec(hk.name@, hk.file@, is_motion) {
                None => None,
                Some(key) => {
                    let can_loop = kind != HotkeyKind::Expression;
                    let wait: u64 = if is_motion {
                        MOTION_FALLBACK_MS
                    } else {
                        EXPRESSION_WAIT_MS
                    };
                    Some(
                        (
                            key,
                            ExpressionEntry {
                                hotkey_id: hk.hotkey_id,
                                animation_file: hk.file,
                                kind,
                                can_loop,
                                duration_ms: wait,
                                loop_interval_ms: if can_loop {
                                    TIMER_LOOP_INTERVAL_MS
                                } else {
                                    wait
                                },
                                fallback_ms: wait,
                            },
                        ),
                    )
                },
            }
        },
    }
}

/// Finding the key of this hotkey, when it is one the player keeps, ends.
pub open spec fn hotkey_search_ends(hk: HotkeyInfo) -> bool {
    match action_kind(hk.action) {
        None => true,
        Some(kind) => key_search_ends(hk.name@, hk.file@, kind == HotkeyKind::Motion),
    }
}

/// Whether finding the key of this hotkey ends (see `hotkey_search_ends`).
pub fn hotkey_search_ends_exec(hk: &HotkeyInfo) -> (r: bool)
    ensures
        r == hotkey_search_ends(*hk),
{
    let is_motion = hk.action == HotkeyAction::TriggerAnimation;
    if hk.action == HotkeyAction::Other {
        return true;
    }
    let label = normalize_label(hk.name.as_str());
    let label_done = match &label {
        Some(l) => if is_motion {
            label_key_is_useful(l.as_str())
        } else {
            true
        },
        None => false,
    };
    label_done || crate::labels::file_stem_walk_ends(hk.file.as_str())
}

/// The cache entry of a hotkey under its key.
pub fn hotkey_to_entry(hk: &HotkeyInfo) -> (r: Option<CachedHotkey>)
    requires
        hotkey_search_ends(*hk),
    ensures
        match hotkey_entry_spec(*hk) {
            Some((k, e)) => r matches Some(x) && x.key@ == k && x.entry == e,
            None => r is None,
        },
{
    let is_motion = hk.action == HotkeyAction::TriggerAnimation;
    let is_expression = hk.action == HotkeyAction::ToggleExpression;
    let is_idle = hk.action == HotkeyAction::ChangeIdleAnimation;
    if !is_motion && !is_expression && !is_idle {
        return None;
    }
    let key = match expression_key(hk, is_motion) {
        Some(k) => k,
        None => return None,
    };
    let kind = if is_idle {
        HotkeyKind::Idle
    } else if is_motion {
        HotkeyKind::Motion
    } else {
        HotkeyKind::Expression
    };
    let can_loop = is_idle || is_motion;
    let wait_ms: u64 = if is_motion {
        MOTION_FALLBACK_MS
    } else {
        EXPRESSION_WAIT_MS
    };
    Some(
        CachedHotkey {
            key,
            entry: ExpressionEntry {
                hotkey_id: hk.hotkey_id.clone(),
                animation_file: hk.file.clone(),
                kind,
                can_loop,
                duration_ms: wait_ms,
                loop_interval_ms: if can_loop {
                    TIMER_LOOP_INTERVAL_MS
                } else {
                    wait_ms
                },
                fallback_ms: wait_ms,
            },
        },
    )
}

/// A cache as plain values: each key with its entry, in discovery order.
pub open spec fn cache_pairs(c: Seq<CachedHotkey>) -> Seq<(Seq<char>, ExpressionEntry)> {
    c.map_values(|h: CachedHotkey| (h.key@, h.entry))
}

pub open spec fn pair_keys(p: Seq<(Seq<char>, ExpressionEntry)>) -> Seq<Seq<char>> {
    p.map_values(|x: (Seq<char>, ExpressionEntry)| x.0)
}

/// The cache built from the hotkeys of a model, in their order: each hotkey
/// with an entry, unless an earlier one took its key.
pub open spec fn discovered(hs: Seq<HotkeyInfo>) -> Seq<(Seq<char>, ExpressionEntry)>
    decreases hs.len(),
{
    if hs.len() == 0 {
        Seq::empty()
    } else {
        let p = discovered(hs.drop_last());
        match hotkey_entry_spec(hs.last()) {
            Some(ke) => if pair_keys(p).contains(ke.0) {
                p
            } else {
                p.push(ke)
            },
            None => p,
        }
    }
}

/// Every hotkey of the model can be given its key.
pub open spec fn all_searches_end(hs: Seq<HotkeyInfo>) -> bool {
    forall|i: int| 0 <= i < hs.len() ==> hotkey_search_ends(#[trigger] hs[i])
}

/// No key occurs twice in the discovered cache.
pub proof fn lemma_discovered_distinct(hs: Seq<HotkeyInfo>)
    ensures
        distinct(pair_keys(discovered(hs))),
    decreases hs.len(),
{
    if hs.len() > 0 {
        lemma_discovered_distinct(hs.drop_last());
        let p = discovered(hs.drop_last());
        match hotkey_entry_spec(hs.last()) {
            Some(ke) => {
                if !pair_keys(p).contains(ke.0) {
                    let q = p.push(ke);
                    assert(pair_keys(q) == pair_keys(p).push(ke.0));
                    assert forall|i: int, j: int| 0 <= i < j < pair_keys(q).len() implies pair_keys(
                        q,
                    )[i] != pair_keys(q)[j] by {
                        if j == p.len() {
                            assert(pair_keys(p)[i] == pair_keys(q)[i]);
                        }
                    }
                }
            },
            None => {},
        }
    }
}

/// The message when VTube Studio has no model loaded.
pub open spec fn no_model_message() -> Seq<char> {
    "VTS has no model loaded — start live-ascii with a model first"@
}

/// The message when a model has no usable hotkey.
pub open spec fn no_hotkeys_message(model_name: Seq<char>) -> Seq<char> {
    "No motion/expression hotkeys found on model "@ + debug_quoted(model_name)
}

/// The hotkey cache of a model and the order its keys were found in: an
/// error when no model is loaded or none of its hotkeys has an entry.
pub fn build_cache(model_loaded: bool, model_name: &str, hotkeys: &[HotkeyInfo]) -> (r: Result<
    (Vec<CachedHotkey>, Vec<String>),
    String,
>)
    requires
        all_searches_end(hotkeys@),
    ensures
        !model_loaded ==> (r matches Err(e) && e@ == no_model_message()),
        model_loaded && discovered(hotkeys@).len() == 0 ==> (r matches Err(e) && e@
            == no_hotkeys_message(model_name@)),
        model_loaded && discovered(hotkeys@).len() > 0 ==> (r matches Ok((c, order))
            && cache_pairs(c@) == discovered(hotkeys@) && string_views(order@) == cache_keys(c@)),
{
    if !model_loaded {
        return Err("VTS has no model loaded — start live-ascii with a model first".to_owned());
    }
    let mut cache: Vec<CachedHotkey> = Vec::new();
    let mut order: Vec<String> = Vec::new();
    let mut i: usize = 0;
    while i < hotkeys.len()
        invariant
            i <= hotkeys@.len(),
            all_searches_end(hotkeys@),
            cache_pairs(cache@) == discovered(hotkeys@.subrange(0, i as int)),
            string_views(order@) == cache_keys(cache@),
        decreases hotkeys@.len() - i,
    {
        let ghost pre = hotkeys@.subrange(0, i as int);
        let ghost post = hotkeys@.subrange(0, i + 1);
        assert(post.drop_last() == pre);
        assert(post.last() == hotkeys@[i as int]);
        assert(hotkey_search_ends(hotkeys@[i as int]));
        match hotkey_to_entry(&hotkeys[i]) {
            Some(h) => {
                proof {
                    assert(pair_keys(cache_pairs(cache@)) == cache_keys(cache@));
                    lemma_index_in(cache_keys(cache@), h.key@);
                }
                if cache_position(cache.as_slice(), &h.key).is_none() {
                    let ghost before = cache@;
                    order.push(h.key.clone());
                    cache.push(h);
                    assert(cache_pairs(cache@) == cache_pairs(before).push((h.key@, h.entry)));
                    assert(cache_keys(cache@) == cache_keys(before).push(h.key@));
                }
            },
            None => {},
        }
        i += 1;
    }
    assert(hotkeys@.subrange(0, hotkeys@.len() as int) == hotkeys@);
    if cache.len() == 0 {
        let mut msg = chars_of("No motion/expression hotkeys found on model ");
        let q = debug_str(model_name);
        append_str(&mut msg, q.as_str());
        return Err(string_of(msg.as_slice()));
    }
    Ok((cache, order))
}

/// The hotkeys whose key search ends, in order.
pub open spec fn searchable(hs: Seq<HotkeyInfo>) -> Seq<HotkeyInfo>
    decreases hs.len(),
{
    if hs.len() == 0 {
        Seq::empty()
    } else if hotkey_search_ends(hs.last()) {
        searchable(hs.drop_last()).push(hs.last())
    } else {
        searchable(hs.drop_last())
    }
}

proof fn lemma_searchable_ends(hs: Seq<HotkeyInfo>)
    ensures
        all_searches_end(searchable(hs)),
    decreases hs.len(),
{
    if hs.len() > 0 {
        lemma_searchable_ends(hs.drop_last());
    }
}

fn copy_hotkey(h: &HotkeyInfo) -> (r: HotkeyInfo)
    ensures
        r == *h,
{
    HotkeyInfo { name: h.name.clone(), action: h.action, file: h.file.clone(), hotkey_id: h.hotkey_id.clone() }
}

/// The hotkey cache of a model from all its hotkeys: those whose key search
/// would not end (a file name whose stem never settles) are left out, and
/// the cache is built from the others.
pub fn discover_cache(model_loaded: bool, model_name: &str, hotkeys: &[HotkeyInfo]) -> (r: Result<
    (Vec<CachedHotkey>, Vec<String>),
    String,
>)
    ensures
        !model_loaded ==> (r matches Err(e) && e@ == no_model_message()),
        model_loaded && discovered(searchable(hotkeys@)).len() == 0 ==> (r matches Err(e) && e@
            == no_hotkeys_message(model_name@)),
        model_loaded && discovered(searchable(hotkeys@)).len() > 0 ==> (r matches Ok((c, order))
            && cache_pairs(c@) == discovered(searchable(hotkeys@)) && string_views(order@)
            == cache_keys(c@)),
{
    let mut kept: Vec<HotkeyInfo> = Vec::new();
    let mut i: usize = 0;
    assert(hotkeys@.subrange(0, 0) =~= Seq::<HotkeyInfo>::empty());
    while i < hotkeys.len()
        invariant
            i <= hotkeys@.len(),
            kept@ == searchable(hotkeys@.subrange(0, i as int)),
        decreases hotkeys@.len() - i,
    {
        assert(hotkeys@.subrange(0, i + 1).drop_last() =~= hotkeys@.subrange(0, i as int));
        assert(hotkeys@.subrange(0, i + 1).last() == hotkeys@[i as int]);
        if hotkey_search_ends_exec(&hotkeys[i]) {
            kept.push(copy_hotkey(&hotkeys[i]));
        }
        i += 1;
    }
    assert(hotkeys@.subrange(0, hotkeys@.len() as int) =~= hotkeys@);
    proof {
        lemma_searchable_ends(hotkeys@);
    }
    build_cache(model_loaded, model_name, kept.as_slice())
}


// ---------------------------------------------------------------------------
// The player
// ---------------------------------------------------------------------------

/// `k` is the least key of the cache.
pub open spec fn is_least_key(k: Seq<char>, c: Seq<CachedHotkey>) -> bool {
    cache_keys(c).contains(k) && forall|j: int| 0 <= j < c.len() ==> lex_le(k, #[trigger] cache_keys(c)[j])
}

/// An entry that stands for no hotkey: empty id and file, played as an
/// expression with the expression timings.
pub open spec fn missing_entry(r: ExpressionEntry) -> bool {
    &&& r.hotkey_id@.len() == 0
    &&& r.animation_file@.len() == 0
    &&& r.kind == HotkeyKind::Expression
    &&& r.can_loop
    &&& r.duration_ms == EXPRESSION_WAIT_MS
    &&& r.loop_interval_ms == TIMER_LOOP_INTERVAL_MS
    &&& r.fallback_ms == EXPRESSION_WAIT_MS
}

/// `r` is what the cache gives for `k`: its entry, or the missing entry.
pub open spec fn loaded_entry(c: Seq<CachedHotkey>, k: Seq<char>, r: ExpressionEntry) -> bool {
    match cache_entry(c, k) {
        Some(e) => r == e,
        None => missing_entry(r),
    }
}

/// `k` may be the key a name is played under: its slug when that is a key
/// of the cache, else what the name resolves to as an LLM label.
pub open spec fn key_for_name(
    c: Seq<CachedHotkey>,
    t: Seq<AliasTargets>,
    default_loop_key: Seq<char>,
    name: Seq<char>,
    k: Seq<char>,
) -> bool {
    if cache_keys(c).contains(slugify_spec(name)) {
        k == slugify_spec(name)
    } else {
        resolves_to(name, t, default_loop_key, k)
    }
}

fn missing() -> (r: ExpressionEntry)
    ensures
        missing_entry(r),
{
    ExpressionEntry {
        hotkey_id: String::new(),
        animation_file: String::new(),
        kind: HotkeyKind::Expression,
        can_loop: true,
        duration_ms: EXPRESSION_WAIT_MS,
        loop_interval_ms: TIMER_LOOP_INTERVAL_MS,
        fallback_ms: EXPRESSION_WAIT_MS,
    }
}

/// What the player decides before playing a hotkey once.
#[derive(Debug, Clone)]
pub enum PlayStep {
    /// No hotkey goes by that name: nothing is played.
    Unknown,
    /// Trigger the hotkey, then wait this long or until cancelled.
    TriggerAndWait { hotkey_id: String, wait_ms: u64 },
    /// Trigger the hotkey, then wait for its motion to end.
    TriggerAndAwaitMotion { hotkey_id: String, animation_file: String, fallback_ms: u64 },
}

/// How an entry is played: not at all without a hotkey; by a timer of
/// `wait_ms` unless it is a motion or idle animation with a file, whose end
/// is awaited.
pub open spec fn step_for(e: ExpressionEntry, wait_ms: u64, r: PlayStep) -> bool {
    if e.hotkey_id@.len() == 0 {
        r is Unknown
    } else if e.animation_file@.len() == 0 || e.kind == HotkeyKind::Expression {
        r == PlayStep::TriggerAndWait { hotkey_id: e.hotkey_id, wait_ms }
    } else {
        r == PlayStep::TriggerAndAwaitMotion {
            hotkey_id: e.hotkey_id,
            animation_file: e.animation_file,
            fallback_ms: e.fallback_ms,
        }
    }
}

fn plan_entry(e: &ExpressionEntry, wait_ms: u64) -> (r: PlayStep)
    ensures
        step_for(*e, wait_ms, r),
{
    if e.hotkey_id.as_str().is_empty() {
        PlayStep::Unknown
    } else if e.animation_file.as_str().is_empty() || e.kind == HotkeyKind::Expression {
        PlayStep::TriggerAndWait { hotkey_id: e.hotkey_id.clone(), wait_ms }
    } else {
        PlayStep::TriggerAndAwaitMotion {
            hotkey_id: e.hotkey_id.clone(),
            animation_file: e.animation_file.clone(),
            fallback_ms: e.fallback_ms,
        }
    }
}

/// What the player decides before looping a name.
#[derive(Debug, Clone)]
pub enum LoopPlan {
    /// No hotkey goes by that name: nothing is played.
    Unknown,
    /// An idle animation loops by itself: trigger it once and wait for the cancel.
    HoldIdle { hotkey_id: String },
    /// Play the name over and over until cancelled.
    Cycle { name: String },
}

/// The plain state of the VTube Studio player: the key it rests on, the
/// aliases the LLM may use, and the hotkeys of the model.
#[derive(Debug, Clone)]
pub struct VtsPlayer {
    pub default_loop_key: String,
    pub alias_allow: Vec<AliasTargets>,
    pub cache: Vec<CachedHotkey>,
}

impl VtsPlayer {
    /// The player for a discovered cache and a configuration.
    pub fn from_discovery(cache: Vec<CachedHotkey>, order: Vec<String>, vts: &VtsConfig) -> (r: VtsPlayer)
        requires
            cache@.len() > 0,
        ensures
            r.cache@ == cache@,
            table_view(r.alias_allow@) == alias_maps_spec(cache@, *vts),
            distinct(alias_names(r.alias_allow@)),
            exists|f: Seq<char>|
                is_least_key(f, cache@) && r.default_loop_key@ == default_loop_spec(
                    cache@,
                    string_views(order@),
                    f,
                    r.alias_allow@,
                ),
    {
        let alias_allow = build_alias_maps(cache.as_slice(), vts);
        let fallback = pick_fallback_key(cache.as_slice());
        let default_loop_key = pick_default_loop_key(
            cache.as_slice(),
            order.as_slice(),
            &fallback,
            alias_allow.as_slice(),
        );
        assert(is_least_key(fallback@, cache@));
        proof {
            law_alias_tables_sound(cache@, *vts);
            assert(alias_names(alias_allow@) =~= view_names(table_view(alias_allow@)));
        }
        VtsPlayer { default_loop_key, alias_allow, cache }
    }

    /// The labels sent to the LLM: the configured aliases, never raw keys.
    pub fn llm_aliases(&self) -> (r: Vec<String>)
        ensures
            sorted(string_views(r@)),
            string_views(r@).to_multiset() == alias_names(self.alias_allow@).to_multiset(),
            distinct(alias_names(self.alias_allow@)) ==> distinct(string_views(r@)),
    {
        llm_alias_list(self.alias_allow.as_slice())
    }

    /// The alias of the resting loop: `idle` when that alias is configured.
    pub fn default_expression_label(&self) -> (r: String)
        ensures
            alias_names(self.alias_allow@).contains(idle_word()) ==> r@ == idle_word(),
            !alias_names(self.alias_allow@).contains(idle_word()) ==> default_alias_spec(
                self.default_loop_key@,
                self.alias_allow@,
                r@,
            ),
    {
        let idle = idle_string();
        proof {
            lemma_index_in(alias_names(self.alias_allow@), idle@);
        }
        if alias_position(self.alias_allow.as_slice(), &idle).is_some() {
            return idle;
        }
        default_alias_for_key(&self.default_loop_key, self.alias_allow.as_slice())
    }

    /// The name to loop the resting hotkey under.
    pub fn default_loop_name(&self) -> (r: String)
        ensures
            r@ == loop_name_spec(self.default_loop_key@, self.alias_allow@),
    {
        loop_name_for_key(&self.default_loop_key, self.alias_allow.as_slice())
    }

    /// The hotkey key an LLM label stands for.
    pub fn resolve_expression(&self, name: &str) -> (r: String)
        ensures
            resolves_to(name@, self.alias_allow@, self.default_loop_key@, r@),
    {
        resolve_llm_alias(name, self.alias_allow.as_slice(), &self.default_loop_key)
    }

    /// The key a name is played under.
    pub fn resolve_key(&self, name: &str) -> (r: String)
        ensures
            key_for_name(self.cache@, self.alias_allow@, self.default_loop_key@, name@, r@),
    {
        let key = normalize_lookup_key(name);
        proof {
            lemma_index_in(cache_keys(self.cache@), key@);
        }
        if cache_position(self.cache.as_slice(), &key).is_some() {
            return key;
        }
        self.resolve_expression(name)
    }

    /// The key a name is played under and its entry.
    pub fn lookup_named(&self, name: &str) -> (r: (String, ExpressionEntry))
        ensures
            key_for_name(self.cache@, self.alias_allow@, self.default_loop_key@, name@, r.0@),
            loaded_entry(self.cache@, r.0@, r.1),
    {
        let key = self.resolve_key(name);
        match cache_position(self.cache.as_slice(), &key) {
            Some(i) => (key, self.cache[i].entry.duplicate()),
            None => (key, missing()),
        }
    }

    /// The entry a name is played with.
    pub fn load_named(&self, name: &str) -> (r: ExpressionEntry)
        ensures
            exists|k: Seq<char>|
                key_for_name(self.cache@, self.alias_allow@, self.default_loop_key@, name@, k)
                    && loaded_entry(self.cache@, k, r),
    {
        let (k, e) = self.lookup_named(name);
        e
    }

    /// How to play a name once: the hotkey's own duration, or its motion.
    pub fn plan_play(&self, name: &str) -> (r: PlayStep)
        ensures
            exists|k: Seq<char>, e: ExpressionEntry|
                key_for_name(self.cache@, self.alias_allow@, self.default_loop_key@, name@, k)
                    && loaded_entry(self.cache@, k, e) && step_for(e, e.duration_ms, r),
    {
        let (k, e) = self.lookup_named(name);
        plan_entry(&e, e.duration_ms)
    }

    /// How to play one round of a loop: the hotkey's loop interval, or its motion.
    pub fn plan_loop_round(&self, name: &str) -> (r: PlayStep)
        ensures
            exists|k: Seq<char>, e: ExpressionEntry|
                key_for_name(self.cache@, self.alias_allow@, self.default_loop_key@, name@, k)
                    && loaded_entry(self.cache@, k, e) && step_for(e, e.loop_interval_ms, r),
    {
        let (k, e) = self.lookup_named(name);
        plan_entry(&e, e.loop_interval_ms)
    }

    /// How to loop a name. `thinking` falls back to the waiting label when
    /// it names no hotkey; idle animations are held rather than cycled.
    pub fn plan_looping(&self, name: &str) -> (r: LoopPlan)
        ensures
            looping_plan_allows(self.cache@, self.alias_allow@, self.default_loop_key@, name@, r),
            r matches LoopPlan::HoldIdle { hotkey_id } ==> hotkey_id@.len() > 0,
    {
        let (key, first) = self.lookup_named(name);
        if !first.hotkey_id.as_str().is_empty() {
            return loop_plan_entry(name, &key, first, self.alias_allow.as_slice());
        }
        let thinking = thinking_string();
        let named = name.to_owned();
        if named == thinking {
            let label = waiting_loop_label(
                self.cache.as_slice(),
                self.alias_allow.as_slice(),
                &self.default_loop_key,
            );
            let (key2, again) = self.lookup_named(label.as_str());
            loop_plan_entry(label.as_str(), &key2, again, self.alias_allow.as_slice())
        } else {
            LoopPlan::Unknown
        }
    }
}

/// How a name `n`, played under the key `k` with the entry `e`, is looped:
/// not at all without a hotkey; held when it is an idle animation or listed
/// by the `idle` alias; else cycled under its name.
pub open spec fn loop_plan_for(t: Seq<AliasTargets>, n: Seq<char>, k: Seq<char>, e: ExpressionEntry, r: LoopPlan) -> bool {
    if e.hotkey_id@.len() == 0 {
        r is Unknown
    } else if e.kind == HotkeyKind::Idle || idle_alias_lists(k, t) {
        r == LoopPlan::HoldIdle { hotkey_id: e.hotkey_id }
    } else {
        r matches LoopPlan::Cycle { name: m } && m@ == n
    }
}

/// The plans that looping `name` may come to: the plan of the key and entry
/// it is played under; when that entry has no hotkey and the name is
/// `thinking`, the plan of the waiting label instead; else nothing.
pub open spec fn looping_plan_allows(
    c: Seq<CachedHotkey>,
    t: Seq<AliasTargets>,
    d: Seq<char>,
    name: Seq<char>,
    r: LoopPlan,
) -> bool {
    exists|k: Seq<char>, e: ExpressionEntry|
        #![trigger key_for_name(c, t, d, name, k), loaded_entry(c, k, e)]
        key_for_name(c, t, d, name, k) && loaded_entry(c, k, e) && if e.hotkey_id@.len() > 0 {
            loop_plan_for(t, name, k, e, r)
        } else if name == thinking_word() {
            exists|l: Seq<char>, k2: Seq<char>, e2: ExpressionEntry|
                #![trigger key_for_name(c, t, d, l, k2), loaded_entry(c, k2, e2)]
                waiting_label_allows(c, t, d, l) && key_for_name(c, t, d, l, k2) && loaded_entry(c, k2, e2)
                    && loop_plan_for(t, l, k2, e2, r)
        } else {
            r is Unknown
        }
}

fn loop_plan_entry(n: &str, k: &String, e: ExpressionEntry, t: &[AliasTargets]) -> (r: LoopPlan)
    ensures
        loop_plan_for(t@, n@, k@, e, r),
{
    if e.hotkey_id.as_str().is_empty() {
        return LoopPlan::Unknown;
    }
    if is_idle_loop_target(k, &e, t) {
        LoopPlan::HoldIdle { hotkey_id: e.hotkey_id }
    } else {
        LoopPlan::Cycle { name: n.to_owned() }
    }
}

// ---------------------------------------------------------------------------
// Waiting for a motion to end
// ---------------------------------------------------------------------------

/// How waiting for a motion ended.
#[derive(Debug, Clone, Copy, PartialEq, Eq, Structural)]
pub enum MotionWaitOutcome {
    Completed,
    Cancelled,
    Fallback,
}

/// The phase of an animation event.
#[derive(Debug, Clone, Copy, PartialEq, Eq, Structural)]
pub enum AnimationPhase {
    Start,
    End,
    Other,
}

/// What happened while waiting for a motion.
#[derive(Debug, Clone)]
pub enum MotionEvent {
    /// The wait was cancelled.
    Cancelled,
    /// No event came before the deadline.
    TimedOut,
    /// The event stream closed.
    Closed,
    /// Events were lost because the listener fell behind.
    Lagged,
    /// An animation event of the model; `length_ms` is the animation's
    /// length in milliseconds, at least 100.
    Animation { name: String, phase: AnimationPhase, length_ms: u64 },
}

/// What to do after an event.
#[derive(Debug, Clone, Copy, PartialEq, Eq, Structural)]
pub enum MotionStep {
    /// Keep listening.
    Listen,
    /// Stop with this outcome.
    Finish(MotionWaitOutcome),
    /// Stop listening, then wait this long unless cancelled.
    FallbackWait(u64),
}

/// The state of a wait for the end of a motion.
#[derive(Debug, Clone, Copy, PartialEq, Eq, Structural)]
pub struct MotionWait {
    /// A start of the expected animation was seen.
    pub saw_matching_start: bool,
    /// How long to wait when no end arrives: the length of the started
    /// animation, or the entry's fallback before any start.
    pub fallback_ms: u64,
}

/// The next state and step of a wait after `ev`, for the expected file.
pub open spec fn motion_step_spec(s: MotionWait, ev: MotionEvent, expected: Seq<char>) -> (MotionWait, MotionStep) {
    match ev {
        MotionEvent::Cancelled => (s, MotionStep::Finish(MotionWaitOutcome::Cancelled)),
        MotionEvent::TimedOut | MotionEvent::Closed => (s, MotionStep::FallbackWait(s.fallback_ms)),
        MotionEvent::Lagged => (s, MotionStep::Listen),
        MotionEvent::Animation { name, phase, length_ms } => {
            if !animation_matches_spec(name@, expected) {
                (s, MotionStep::Listen)
            } else if phase == AnimationPhase::Start {
                (MotionWait { saw_matching_start: true, fallback_ms: length_ms }, MotionStep::Listen)
            } else if phase == AnimationPhase::End && s.saw_matching_start {
                (s, MotionStep::Finish(MotionWaitOutcome::Completed))
            } else {
                (s, MotionStep::Listen)
            }
        },
    }
}

impl MotionWait {
    /// A wait that has seen nothing yet.
    pub fn new(fallback_ms: u64) -> (r: MotionWait)
        ensures
            r == (MotionWait { saw_matching_start: false, fallback_ms }),
    {
        MotionWait { saw_matching_start: false, fallback_ms }
    }

    /// Takes in one event: an end completes the wait only after a start of
    /// the same animation; events of other animations are ignored.
    pub fn step(&mut self, ev: &MotionEvent, expected_file: &str) -> (r: MotionStep)
        ensures
            (*final(self), r) == motion_step_spec(*old(self), *ev, expected_file@),
    {
        match ev {
            MotionEvent::Cancelled => MotionStep::Finish(MotionWaitOutcome::Cancelled),
            MotionEvent::TimedOut | MotionEvent::Closed => MotionStep::FallbackWait(self.fallback_ms),
            MotionEvent::Lagged => MotionStep::Listen,
            MotionEvent::Animation { name, phase, length_ms } => {
                if !animation_matches(name.as_str(), expected_file) {
                    MotionStep::Listen
                } else if *phase == AnimationPhase::Start {
                    self.saw_matching_start = true;
                    self.fallback_ms = *length_ms;
                    MotionStep::Listen
                } else if *phase == AnimationPhase::End && self.saw_matching_start {
                    MotionStep::Finish(MotionWaitOutcome::Completed)
                } else {
                    MotionStep::Listen
                }
            },
        }
    }
}

/// The outcome after the fallback wait: cancelled, or the fallback.
pub fn fallback_outcome(cancelled: bool) -> (r: MotionWaitOutcome)
    ensures
        r == (if cancelled {
            MotionWaitOutcome::Cancelled
        } else {
            MotionWaitOutcome::Fallback
        }),
{
    if cancelled {
        MotionWaitOutcome::Cancelled
    } else {
        MotionWaitOutcome::Fallback
    }
}

/// A wait completes only once a start of the expected animation was seen:
/// from a state that saw none, no event completes it, and an end of the
/// expected animation leaves it listening.
pub proof fn law_completion_needs_start(s: MotionWait, ev: MotionEvent, expected: Seq<char>)
    requires
        !s.saw_matching_start,
    ensures
        motion_step_spec(s, ev, expected).1 != MotionStep::Finish(MotionWaitOutcome::Completed),
        (ev matches MotionEvent::Animation { phase, .. } && phase == AnimationPhase::End)
            ==> motion_step_spec(s, ev, expected) == (s, MotionStep::Listen),
{
}

/// Events of other animations change nothing.
pub proof fn law_unrelated_events_ignored(s: MotionWait, ev: MotionEvent, expected: Seq<char>)
    requires
        ev matches MotionEvent::Animation { name, .. } && !animation_matches_spec(name@, expected),
    ensures
        motion_step_spec(s, ev, expected) == (s, MotionStep::Listen),
{
}

// ---------------------------------------------------------------------------
// Connecting
// ---------------------------------------------------------------------------

/// What probing the VTube Studio API gave.
#[derive(Debug, Clone)]
pub enum ProbeResult {
    /// The API answered and is active.
    Active,
    /// The API answered but is not active.
    Inactive,
    /// The request failed with this error.
    Failed(String),
}

/// What to do after a probe.
#[derive(Debug, Clone)]
pub enum ConnectStep {
    /// Use the connection.
    Connected,
    /// Wait and probe again.
    Retry,
    /// Give up with this error.
    GiveUp(String),
}

/// The error when the API stays inactive.
pub open spec fn inactive_message() -> Seq<char> {
    "VTS API is not active"@
}

/// The error when the connection keeps failing.
pub open spec fn failed_message(timeout_secs: u64, e: Seq<char>) -> Seq<char> {
    "VTS connection failed after "@ + crate::text::decimal(timeout_secs as nat) + "s: "@ + e
}

/// After a probe, `elapsed_ms` into connecting with a timeout of
/// `timeout_secs`: connect when active, else retry until the timeout has
/// passed, then give up.
pub fn connect_step(probe: &ProbeResult, elapsed_ms: u64, timeout_secs: u64) -> (r: ConnectStep)
    ensures
        probe is Active ==> r is Connected,
        probe is Inactive ==> if elapsed_ms >= 1000 * timeout_secs {
            r matches ConnectStep::GiveUp(m) && m@ == inactive_message()
        } else {
            r is Retry
        },
        probe matches ProbeResult::Failed(e) ==> if elapsed_ms >= 1000 * timeout_secs {
            r matches ConnectStep::GiveUp(m) && m@ == failed_message(timeout_secs, e@)
        } else {
            r is Retry
        },
{
    let secs = elapsed_ms / 1000;
    assert(secs >= timeout_secs <==> elapsed_ms >= 1000 * timeout_secs) by (nonlinear_arith)
        requires
            secs == elapsed_ms / 1000,
    ;
    let timed_out = secs >= timeout_secs;
    match probe {
        ProbeResult::Active => ConnectStep::Connected,
        ProbeResult::Inactive => {
            if timed_out {
                ConnectStep::GiveUp("VTS API is not active".to_owned())
            } else {
                ConnectStep::Retry
            }
        },
        ProbeResult::Failed(e) => {
            if timed_out {
                let mut msg = chars_of("VTS connection failed after ");
                let n = crate::text::decimal_exec(timeout_secs);
                crate::text::append_chars(&mut msg, n.as_slice());
                append_str(&mut msg, "s: ");
                append_str(&mut msg, e.as_str());
                ConnectStep::GiveUp(string_of(msg.as_slice()))
            } else {
                ConnectStep::Retry
            }
        },
    }
}

/// The stored auth token in the text of its file: the trimmed text, none
/// when that is empty.
pub fn auth_token_from_text(text: &str) -> (r: Option<String>)
    ensures
        trim(text@).len() == 0 ==> r is None,
        trim(text@).len() > 0 ==> (r matches Some(t) && t@ == trim(text@)),
{
    let v = chars_of(text);
    let t = trimmed(v.as_slice());
    if t.len() == 0 {
        None
    } else {
        Some(string_of(t.as_slice()))
    }
}

// ---------------------------------------------------------------------------
// Laws
// ---------------------------------------------------------------------------

/// No key occurs twice in a discovered cache: a later hotkey of the same
/// key is skipped.
pub proof fn law_cache_keys_distinct(hs: Seq<HotkeyInfo>)
    ensures
        distinct(pair_keys(discovered(hs))),
{
    lemma_discovered_distinct(hs);
}

/// A cancel ends any wait, whatever was seen before.
pub proof fn law_cancel_ends_wait(s: MotionWait, expected: Seq<char>)
    ensures
        motion_step_spec(s, MotionEvent::Cancelled, expected) == (s, MotionStep::Finish(MotionWaitOutcome::Cancelled)),
{
}

/// How each kind of hotkey is played: a motion (`TriggerAnimation`) loops
/// every 4 s and waits 3 s for its end; an idle animation
/// (`ChangeIdleAnimation`) loops every 4 s and waits 2 s; an expression
/// (`ToggleExpression`) does not loop and waits 2 s. Every entry keeps the
/// hotkey's id and file, and other actions get no entry.
pub proof fn law_hotkey_entries_by_action(hk: HotkeyInfo)
    ensures
        hk.action == HotkeyAction::Other ==> hotkey_entry_spec(hk) is None,
        hotkey_entry_spec(hk) matches Some((k, e)) ==> {
            &&& e.hotkey_id == hk.hotkey_id
            &&& e.animation_file == hk.file
            &&& hk.action == HotkeyAction::TriggerAnimation ==> e.kind == HotkeyKind::Motion && e.can_loop
                && e.loop_interval_ms == 4000 && e.duration_ms == 3000 && e.fallback_ms == 3000
            &&& hk.action == HotkeyAction::ChangeIdleAnimation ==> e.kind == HotkeyKind::Idle && e.can_loop
                && e.loop_interval_ms == 4000 && e.duration_ms == 2000 && e.fallback_ms == 2000
            &&& hk.action == HotkeyAction::ToggleExpression ==> e.kind == HotkeyKind::Expression
                && !e.can_loop && e.loop_interval_ms == 2000 && e.duration_ms == 2000 && e.fallback_ms
                == 2000
        },
{
}

} // verus!
