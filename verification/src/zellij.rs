//! Integration with Zellij: session listing, command lines and the plugin
//! permission cache (`permissions.kdl`).
use vstd::prelude::*;
use crate::text::{
    append_chars, char_vecs_of, chars_of, contains, contains_exec, copy_range, free_of,
    has_prefix, is_trimmed, is_ws, last_index_of, last_index_of_exec, lemma_lines_terminated,
    lemma_terminated_concat, lemma_trim_end_fixed, lemma_trim_indented, lemma_trim_start_fixed,
    lines, lines_exec, plain_line, replace, replace_exec, starts_with, string_of, string_views,
    strings_of, terminated, trim, trim_start, trim_start_index, trimmed, views,
    is_whitespace, lemma_trimmed_ends, lossy_text, utf8_lossy, append_str,
    lemma_free_subrange, lemma_trim_shape,
};
use crate::paths::{join_path, path_join};

verus! {

// ---------------------------------------------------------------------------
// Escaping
// ---------------------------------------------------------------------------

/// `s` with backslashes doubled and double quotes escaped, for a KDL string.
pub open spec fn kdl_escape_spec(s: Seq<char>) -> Seq<char> {
    replace(replace(s, seq!['\\'], seq!['\\', '\\']), seq!['"'], seq!['\\', '"'])
}

/// Escape a string for embedding in a KDL double-quoted string.
pub fn kdl_escape(s: &str) -> (r: String)
    ensures
        r@ == kdl_escape_spec(s@),
{
    let v = chars_of(s);
    let bs: [char; 1] = ['\\'];
    let bs2: [char; 2] = ['\\', '\\'];
    let q: [char; 1] = ['"'];
    let q2: [char; 2] = ['\\', '"'];
    assert(bs@ == seq!['\\']);
    assert(bs2@ == seq!['\\', '\\']);
    assert(q@ == seq!['"']);
    assert(q2@ == seq!['\\', '"']);
    let a = replace_exec(v.as_slice(), bs.as_slice(), bs2.as_slice());
    let b = replace_exec(a.as_slice(), q.as_slice(), q2.as_slice());
    string_of(b.as_slice())
}

// ---------------------------------------------------------------------------
// Session listing
// ---------------------------------------------------------------------------

/// The leading run of non-whitespace characters of `s`.
pub open spec fn word_prefix(s: Seq<char>) -> Seq<char>
    decreases s.len(),
{
    if s.len() == 0 || is_ws(s[0]) {
        Seq::empty()
    } else {
        seq![s[0]] + word_prefix(s.drop_first())
    }
}

/// The first whitespace-separated word of `s` (`split_whitespace().next()`).
pub open spec fn first_word(s: Seq<char>) -> Option<Seq<char>> {
    let t = trim_start(s);
    if t.len() == 0 {
        None
    } else {
        Some(word_prefix(t))
    }
}

pub open spec fn chobits_prefix() -> Seq<char> {
    seq!['c', 'h', 'o', 'b', 'i', 't', 's', '-']
}

pub open spec fn exited_marker() -> Seq<char> {
    seq!['E', 'X', 'I', 'T', 'E', 'D']
}

/// The session a line of `zellij list-sessions` names, when it is a live
/// Chobits session: its first word starts with `chobits-` and the line does
/// not say `EXITED`.
pub open spec fn live_session(line: Seq<char>) -> Option<Seq<char>> {
    match first_word(line) {
        Some(w) => if has_prefix(w, chobits_prefix()) && !contains(line, exited_marker()) {
            Some(w)
        } else {
            None
        },
        None => None,
    }
}

/// The live Chobits sessions named by `ls`, in order.
pub open spec fn live_sessions(ls: Seq<Seq<char>>) -> Seq<Seq<char>>
    decreases ls.len(),
{
    if ls.len() == 0 {
        Seq::empty()
    } else {
        match live_session(ls.last()) {
            Some(w) => live_sessions(ls.drop_last()).push(w),
            None => live_sessions(ls.drop_last()),
        }
    }
}

fn word_prefix_len(v: &[char], start: usize) -> (k: usize)
    requires
        start <= v@.len(),
    ensures
        start <= k <= v@.len(),
        v@.subrange(start as int, k as int) == word_prefix(v@.subrange(start as int, v@.len() as int)),
{
    let n = v.len();
    let mut k: usize = start;
    while k < n && !is_whitespace(v[k])
        invariant
            n == v@.len(),
            start <= k <= n,
            v@.subrange(start as int, k as int) + word_prefix(v@.subrange(k as int, n as int))
                == word_prefix(v@.subrange(start as int, n as int)),
        decreases n - k,
    {
        let ghost rest = v@.subrange(k as int, n as int);
        assert(rest.drop_first() == v@.subrange(k + 1, n as int));
        assert(v@.subrange(start as int, k + 1) == v@.subrange(start as int, k as int) + seq![
            rest[0],
        ]);
        k += 1;
    }
    let ghost rest = v@.subrange(k as int, n as int);
    assert(word_prefix(rest) == Seq::<char>::empty());
    assert(v@.subrange(start as int, k as int) + Seq::<char>::empty() == v@.subrange(
        start as int,
        k as int,
    ));
    k
}

fn live_session_exec(line: &[char]) -> (r: Option<Vec<char>>)
    ensures
        match live_session(line@) {
            Some(w) => r matches Some(x) && x@ == w,
            None => r is None,
        },
{
    let s = trim_start_index(line);
    if s == line.len() {
        return None;
    }
    let k = word_prefix_len(line, s);
    let word = copy_range(line, s, k);
    let prefix: [char; 8] = ['c', 'h', 'o', 'b', 'i', 't', 's', '-'];
    let exited: [char; 6] = ['E', 'X', 'I', 'T', 'E', 'D'];
    assert(prefix@ == chobits_prefix());
    assert(exited@ == exited_marker());
    if starts_with(word.as_slice(), prefix.as_slice()) && !contains_exec(line, exited.as_slice()) {
        Some(word)
    } else {
        None
    }
}

/// The live Chobits sessions in the output of `zellij list-sessions`.
pub fn filter_chobits_sessions(text: &str) -> (r: Vec<String>)
    ensures
        string_views(r@) == live_sessions(lines(text@)),
{
    let chars = chars_of(text);
    let ls = lines_exec(chars.as_slice());
    let mut out: Vec<Vec<char>> = Vec::new();
    let mut i: usize = 0;
    while i < ls.len()
        invariant
            i <= ls@.len(),
            views(ls@) == lines(text@),
            views(out@) == live_sessions(views(ls@).subrange(0, i as int)),
        decreases ls@.len() - i,
    {
        let ghost pre = views(ls@).subrange(0, i as int);
        let ghost post = views(ls@).subrange(0, i + 1);
        assert(post.drop_last() == pre);
        assert(post.last() == ls@[i as int]@);
        match live_session_exec(ls[i].as_slice()) {
            Some(w) => {
                let ghost old_out = out@;
                out.push(w);
                assert(views(out@) =~= views(old_out).push(w@));
            },
            None => {},
        }
        i += 1;
    }
    assert(views(ls@).subrange(0, ls@.len() as int) == views(ls@));
    strings_of(&out)
}

// ---------------------------------------------------------------------------
// permissions.kdl
// ---------------------------------------------------------------------------

/// The view of a permission entry: a plugin path and its permissions.
pub open spec fn entry_view(e: (String, Vec<String>)) -> (Seq<char>, Seq<Seq<char>>) {
    (e.0@, string_views(e.1@))
}

pub open spec fn entry_views(v: Seq<(String, Vec<String>)>) -> Seq<(Seq<char>, Seq<Seq<char>>)> {
    v.map_values(|e: (String, Vec<String>)| entry_view(e))
}

pub open spec fn char_entry_view(e: (Vec<char>, Vec<Vec<char>>)) -> (Seq<char>, Seq<Seq<char>>) {
    (e.0@, views(e.1@))
}

pub open spec fn char_entry_views(v: Seq<(Vec<char>, Vec<Vec<char>>)>) -> Seq<
    (Seq<char>, Seq<Seq<char>>),
> {
    v.map_values(|e: (Vec<char>, Vec<Vec<char>>)| char_entry_view(e))
}

/// The line that opens the entry for `key`: `"key" {`.
pub open spec fn header_line(key: Seq<char>) -> Seq<char> {
    seq!['"'] + key + seq!['"', ' ', '{']
}

/// The line that lists one permission, indented by four spaces.
pub open spec fn perm_line(p: Seq<char>) -> Seq<char> {
    Seq::new(4, |i: int| ' ') + p
}

pub open spec fn close_line() -> Seq<char> {
    seq!['}']
}

/// The lines of one rendered entry.
pub open spec fn entry_lines(e: (Seq<char>, Seq<Seq<char>>)) -> Seq<Seq<char>> {
    seq![header_line(e.0)] + e.1.map_values(|p: Seq<char>| perm_line(p)) + seq![close_line()]
}

/// The lines of all rendered entries, in order.
pub open spec fn kdl_lines(es: Seq<(Seq<char>, Seq<Seq<char>>)>) -> Seq<Seq<char>>
    decreases es.len(),
{
    if es.len() == 0 {
        Seq::empty()
    } else {
        kdl_lines(es.drop_last()) + entry_lines(es.last())
    }
}

/// The text that `render_permissions_kdl` writes for `es`.
pub open spec fn render_spec(es: Seq<(Seq<char>, Seq<Seq<char>>)>) -> Seq<char> {
    terminated(kdl_lines(es))
}

/// A trimmed line that opens an entry: it starts with `"`, ends with `{`,
/// and its last `"` is not its first character.
pub open spec fn is_header(t: Seq<char>) -> bool {
    t.len() > 0 && t[0] == '"' && t.last() == '{' && (last_index_of(t, '"') matches Some(q)
        && q != 0)
}

/// The key of a header line: the text between the first and the last `"`.
pub open spec fn header_key(t: Seq<char>) -> Seq<char> {
    match last_index_of(t, '"') {
        Some(q) => t.subrange(1, q),
        None => Seq::empty(),
    }
}

/// The reading state: the entry being read, if any, and the entries read.
pub open spec fn parse_step(
    st: (Option<(Seq<char>, Seq<Seq<char>>)>, Seq<(Seq<char>, Seq<Seq<char>>)>),
    line: Seq<char>,
) -> (Option<(Seq<char>, Seq<Seq<char>>)>, Seq<(Seq<char>, Seq<Seq<char>>)>) {
    let t = trim(line);
    match st.0 {
        None => if is_header(t) {
            (Some((header_key(t), Seq::empty())), st.1)
        } else {
            st
        },
        Some(e) => if t == close_line() {
            (None, st.1.push(e))
        } else if t.len() == 0 {
            st
        } else {
            (Some((e.0, e.1.push(t))), st.1)
        },
    }
}

/// The reading state after the lines `ls`, starting from `st`.
pub open spec fn parse_run(
    ls: Seq<Seq<char>>,
    st: (Option<(Seq<char>, Seq<Seq<char>>)>, Seq<(Seq<char>, Seq<Seq<char>>)>),
) -> (Option<(Seq<char>, Seq<Seq<char>>)>, Seq<(Seq<char>, Seq<Seq<char>>)>)
    decreases ls.len(),
{
    if ls.len() == 0 {
        st
    } else {
        parse_step(parse_run(ls.drop_last(), st), ls.last())
    }
}

/// The entries of a `permissions.kdl` text: each line `"key" {` (after
/// trimming) opens an entry whose permissions are the following non-empty
/// trimmed lines up to a `}` line or the end of the text; other lines
/// outside an entry are skipped.
pub open spec fn parse_permissions_spec(content: Seq<char>) -> Seq<(Seq<char>, Seq<Seq<char>>)> {
    let st = parse_run(lines(content), (None, Seq::empty()));
    match st.0 {
        Some(e) => st.1.push(e),
        None => st.1,
    }
}

fn is_header_exec(t: &[char]) -> (r: Option<usize>)
    ensures
        r is Some <==> is_header(t@),
        r matches Some(q) ==> last_index_of(t@, '"') == Some(q as int) && 1 <= q < t@.len(),
{
    if t.len() == 0 || t[0] != '"' || t[t.len() - 1] != '{' {
        return None;
    }
    match last_index_of_exec(t, '"') {
        Some(q) => if q == 0 {
            None
        } else {
            Some(q)
        },
        None => None,
    }
}

/// Parse the entries of a `permissions.kdl` text.
pub fn parse_permissions_kdl(content: &str) -> (r: Vec<(String, Vec<String>)>)
    ensures
        entry_views(r@) == parse_permissions_spec(content@),
{
    let chars = chars_of(content);
    let ls = lines_exec(chars.as_slice());
    let mut done: Vec<(Vec<char>, Vec<Vec<char>>)> = Vec::new();
    let mut open: Option<(Vec<char>, Vec<Vec<char>>)> = None;
    let mut i: usize = 0;
    let close: [char; 1] = ['}'];
    assert(close@ == close_line());
    while i < ls.len()
        invariant
            i <= ls@.len(),
            views(ls@) == lines(content@),
            close@ == close_line(),
            (match open {
                Some(e) => Some(char_entry_view(e)),
                None => None,
            }, char_entry_views(done@)) == parse_run(
                views(ls@).subrange(0, i as int),
                (None, Seq::empty()),
            ),
        decreases ls@.len() - i,
    {
        let ghost pre = views(ls@).subrange(0, i as int);
        let ghost post = views(ls@).subrange(0, i + 1);
        assert(post.drop_last() == pre);
        assert(post.last() == ls@[i as int]@);
        let t = trimmed(ls[i].as_slice());
        let ghost old_done = done@;
        match open {
            None => {
                match is_header_exec(t.as_slice()) {
                    Some(q) => {
                        let key = copy_range(t.as_slice(), 1, q);
                        let perms: Vec<Vec<char>> = Vec::new();
                        assert(views(perms@) =~= Seq::<Seq<char>>::empty());
                        open = Some((key, perms));
                    },
                    None => {},
                }
            },
            Some(e) => {
                if t.len() == 1 && t[0] == '}' {
                    assert(t@ == close_line());
                    done.push(e);
                    open = None;
                    assert(char_entry_views(done@) =~= char_entry_views(old_done).push(
                        char_entry_view(e),
                    ));
                } else {
                    assert(t@ != close_line()) by {
                        if t@ == close_line() {
                            assert(t@.len() == 1 && t@[0] == '}');
                        }
                    }
                    if t.len() == 0 {
                        open = Some(e);
                    } else {
                        let (k, mut perms) = e;
                        let ghost old_perms = perms@;
                        perms.push(t);
                        assert(views(perms@) =~= views(old_perms).push(t@));
                        open = Some((k, perms));
                    }
                }
            },
        }
        i += 1;
    }
    assert(views(ls@).subrange(0, ls@.len() as int) == views(ls@));
    match open {
        Some(e) => {
            let ghost old_done = done@;
            done.push(e);
            assert(char_entry_views(done@) =~= char_entry_views(old_done).push(char_entry_view(e)));
        },
        None => {},
    }
    let mut out: Vec<(String, Vec<String>)> = Vec::new();
    let mut j: usize = 0;
    while j < done.len()
        invariant
            j <= done@.len(),
            entry_views(out@) == char_entry_views(done@).subrange(0, j as int),
        decreases done@.len() - j,
    {
        let key = string_of(done[j].0.as_slice());
        let perms = strings_of(&done[j].1);
        let ghost old_out = out@;
        out.push((key, perms));
        assert(entry_views(out@) =~= entry_views(old_out).push((key@, string_views(perms@))));
        j += 1;
        assert(entry_views(out@) =~= char_entry_views(done@).subrange(0, j as int));
    }
    assert(char_entry_views(done@).subrange(0, done@.len() as int) == char_entry_views(done@));
    out
}

fn push_line(out: &mut Vec<char>, line: &[char])
    ensures
        final(out)@ == old(out)@ + line@ + seq!['\n'],
{
    append_chars(out, line);
    out.push('\n');
}

/// Render permission entries as `permissions.kdl` text.
pub fn render_permissions_kdl(entries: &[(String, Vec<String>)]) -> (r: String)
    ensures
        r@ == render_spec(entry_views(entries@)),
{
    let ghost es = entry_views(entries@);
    let mut out: Vec<char> = Vec::new();
    let mut i: usize = 0;
    let indent: [char; 4] = [' ', ' ', ' ', ' '];
    assert(indent@ == Seq::new(4, |k: int| ' '));
    while i < entries.len()
        invariant
            i <= entries@.len(),
            es == entry_views(entries@),
            indent@ == Seq::new(4, |k: int| ' '),
            out@ == render_spec(es.subrange(0, i as int)),
        decreases entries@.len() - i,
    {
        let ghost base = out@;
        let key = chars_of(entries[i].0.as_str());
        let perms = char_vecs_of(entries[i].1.as_slice());
        let ghost e = es[i as int];
        assert(e == (key@, views(perms@)));
        let mut header: Vec<char> = Vec::new();
        header.push('"');
        append_chars(&mut header, key.as_slice());
        header.push('"');
        header.push(' ');
        header.push('{');
        assert(header@ =~= header_line(key@));
        push_line(&mut out, header.as_slice());
        let ghost hl = seq![header_line(key@)];
        assert(out@ == base + terminated(hl)) by {
            assert(hl.drop_last() == Seq::<Seq<char>>::empty());
            assert(hl.last() == header@);
            assert(terminated(Seq::<Seq<char>>::empty()) == Seq::<char>::empty());
            assert(Seq::<char>::empty() + header@ == header@);
            assert(terminated(hl) =~= header@ + seq!['\n']);
        }
        let mut j: usize = 0;
        while j < perms.len()
            invariant
                j <= perms@.len(),
                indent@ == Seq::new(4, |k: int| ' '),
                hl == seq![header_line(key@)],
                out@ == base + terminated(
                    hl + views(perms@).subrange(0, j as int).map_values(|p: Seq<char>| perm_line(p)),
                ),
            decreases perms@.len() - j,
        {
            let ghost before = hl + views(perms@).subrange(0, j as int).map_values(
                |p: Seq<char>| perm_line(p),
            );
            let ghost after = hl + views(perms@).subrange(0, j + 1).map_values(
                |p: Seq<char>| perm_line(p),
            );
            let mut line: Vec<char> = Vec::new();
            append_chars(&mut line, indent.as_slice());
            append_chars(&mut line, perms[j].as_slice());
            assert(line@ == perm_line(views(perms@)[j as int]));
            assert(after.drop_last() =~= before);
            assert(after.last() == line@);
            push_line(&mut out, line.as_slice());
            j += 1;
        }
        assert(views(perms@).subrange(0, perms@.len() as int) == views(perms@));
        let ghost body = hl + views(perms@).map_values(|p: Seq<char>| perm_line(p));
        let close: [char; 1] = ['}'];
        push_line(&mut out, close.as_slice());
        assert(close@ == close_line());
        assert(entry_lines(e) =~= body.push(close_line()));
        assert(entry_lines(e).drop_last() =~= body);
        assert(out@ == base + terminated(entry_lines(e)));
        let ghost pre = es.subrange(0, i as int);
        let ghost post = es.subrange(0, i + 1);
        assert(post.drop_last() == pre);
        assert(post.last() == e);
        proof {
            lemma_terminated_concat(kdl_lines(pre), entry_lines(e));
        }
        i += 1;
    }
    assert(es.subrange(0, entries@.len() as int) == es);
    string_of(out.as_slice())
}

// ---------------------------------------------------------------------------
// Laws
// ---------------------------------------------------------------------------

/// A permission that survives rendering and reading back: non-empty,
/// trimmed, on one line, and not the closing brace.
pub open spec fn good_perm(p: Seq<char>) -> bool {
    p.len() > 0 && is_trimmed(p) && free_of(p, '\n') && p != close_line()
}

/// An entry that survives rendering and reading back: a one-line key and
/// good permissions.
pub open spec fn good_kdl_entry(e: (Seq<char>, Seq<Seq<char>>)) -> bool {
    free_of(e.0, '\n') && forall|j: int| 0 <= j < e.1.len() ==> good_perm(#[trigger] e.1[j])
}

pub open spec fn good_kdl_entries(es: Seq<(Seq<char>, Seq<Seq<char>>)>) -> bool {
    forall|i: int| 0 <= i < es.len() ==> good_kdl_entry(#[trigger] es[i])
}

pub open spec fn all_plain(ls: Seq<Seq<char>>) -> bool {
    forall|i: int| 0 <= i < ls.len() ==> plain_line(#[trigger] ls[i])
}

proof fn lemma_all_plain_concat(a: Seq<Seq<char>>, b: Seq<Seq<char>>)
    requires
        all_plain(a),
        all_plain(b),
    ensures
        all_plain(a + b),
{
    assert forall|i: int| 0 <= i < (a + b).len() implies plain_line(#[trigger] (a + b)[i]) by {
        if i < a.len() {
            assert((a + b)[i] == a[i]);
        } else {
            assert((a + b)[i] == b[i - a.len()]);
        }
    }
}

proof fn lemma_parse_run_concat(
    a: Seq<Seq<char>>,
    b: Seq<Seq<char>>,
    st: (Option<(Seq<char>, Seq<Seq<char>>)>, Seq<(Seq<char>, Seq<Seq<char>>)>),
)
    ensures
        parse_run(a + b, st) == parse_run(b, parse_run(a, st)),
    decreases b.len(),
{
    if b.len() == 0 {
        assert(a + b == a);
    } else {
        lemma_parse_run_concat(a, b.drop_last(), st);
        assert((a + b).drop_last() == a + b.drop_last());
        assert((a + b).last() == b.last());
    }
}

proof fn lemma_header(key: Seq<char>)
    requires
        free_of(key, '\n'),
    ensures
        trim(header_line(key)) == header_line(key),
        is_header(header_line(key)),
        header_key(header_line(key)) == key,
        plain_line(header_line(key)),
{
    let h = header_line(key);
    let n: int = key.len() as int;
    assert(h[0] == '"');
    assert(h.last() == '{');
    lemma_trim_end_fixed(h);
    lemma_trim_start_fixed(h);
    let h1 = h.drop_last();
    let h2 = h1.drop_last();
    assert(h1.last() == ' ');
    assert(h2.last() == '"');
    assert(h2.len() == n + 2);
    assert(last_index_of(h2, '"') == Some(n + 1));
    assert(last_index_of(h1, '"') == Some(n + 1));
    assert(last_index_of(h, '"') == Some(n + 1));
    assert(h.subrange(1, n + 1) == key);
    assert forall|i: int| 0 <= i < h.len() implies h[i] != '\n' by {
        if 1 <= i < n + 1 {
            assert(h[i] == key[i - 1]);
        }
    }
}

proof fn lemma_perm_line(p: Seq<char>)
    requires
        good_perm(p),
    ensures
        trim(perm_line(p)) == p,
        plain_line(perm_line(p)),
{
    lemma_trim_indented(p, 4);
    lemma_trimmed_ends(p);
    let l = perm_line(p);
    assert(l.last() == p.last());
    assert forall|i: int| 0 <= i < l.len() implies l[i] != '\n' by {
        if i >= 4 {
            assert(l[i] == p[i - 4]);
        }
    }
}

proof fn lemma_perms_run(
    key: Seq<char>,
    start: Seq<Seq<char>>,
    perms: Seq<Seq<char>>,
    acc: Seq<(Seq<char>, Seq<Seq<char>>)>,
)
    requires
        forall|j: int| 0 <= j < perms.len() ==> good_perm(#[trigger] perms[j]),
    ensures
        parse_run(perms.map_values(|p: Seq<char>| perm_line(p)), (Some((key, start)), acc)) == (
            Some((key, start + perms)),
            acc,
        ),
        all_plain(perms.map_values(|p: Seq<char>| perm_line(p))),
    decreases perms.len(),
{
    let ls = perms.map_values(|p: Seq<char>| perm_line(p));
    if perms.len() == 0 {
        assert(start + perms == start);
    } else {
        let d = perms.drop_last();
        assert forall|j: int| 0 <= j < d.len() implies good_perm(#[trigger] d[j]) by {
            assert(d[j] == perms[j]);
        }
        lemma_perms_run(key, start, d, acc);
        assert(ls.drop_last() =~= d.map_values(|p: Seq<char>| perm_line(p)));
        let p = perms.last();
        assert(good_perm(perms[perms.len() - 1]));
        lemma_perm_line(p);
        assert(ls.last() == perm_line(p));
        assert((start + d).push(p) =~= start + perms);
        assert forall|i: int| 0 <= i < ls.len() implies plain_line(#[trigger] ls[i]) by {
            assert(ls[i] == perm_line(perms[i]));
            assert(good_perm(perms[i]));
            lemma_perm_line(perms[i]);
        }
    }
}

proof fn lemma_entry_run(e: (Seq<char>, Seq<Seq<char>>), acc: Seq<(Seq<char>, Seq<Seq<char>>)>)
    requires
        good_kdl_entry(e),
    ensures
        parse_run(entry_lines(e), (None, acc)) == (
            None::<(Seq<char>, Seq<Seq<char>>)>,
            acc.push(e),
        ),
        all_plain(entry_lines(e)),
{
    let h = seq![header_line(e.0)];
    let ps = e.1.map_values(|p: Seq<char>| perm_line(p));
    let c = seq![close_line()];
    assert(entry_lines(e) == h + ps + c);
    lemma_header(e.0);
    lemma_parse_run_concat(h + ps, c, (None, acc));
    lemma_parse_run_concat(h, ps, (None, acc));
    assert(h.drop_last() == Seq::<Seq<char>>::empty());
    assert(h.last() == header_line(e.0));
    let st0: (Option<(Seq<char>, Seq<Seq<char>>)>, Seq<(Seq<char>, Seq<Seq<char>>)>) = (None, acc);
    assert(parse_run(Seq::<Seq<char>>::empty(), st0) == st0);
    assert(parse_step(st0, header_line(e.0)) == (
        Some((e.0, Seq::<Seq<char>>::empty())),
        acc,
    ));
    assert(parse_run(h, (None, acc)) == (
        Some((e.0, Seq::<Seq<char>>::empty())),
        acc,
    ));
    lemma_perms_run(e.0, Seq::empty(), e.1, acc);
    assert(Seq::<Seq<char>>::empty() + e.1 == e.1);
    assert(c.drop_last() == Seq::<Seq<char>>::empty());
    assert(c.last() == close_line());
    lemma_trim_end_fixed(close_line());
    lemma_trim_start_fixed(close_line());
    assert(trim(close_line()) == close_line());
    let st1: (Option<(Seq<char>, Seq<Seq<char>>)>, Seq<(Seq<char>, Seq<Seq<char>>)>) = (
        Some((e.0, e.1)),
        acc,
    );
    assert(parse_run(Seq::<Seq<char>>::empty(), st1) == st1);
    assert(parse_step(st1, close_line()) == (None::<(Seq<char>, Seq<Seq<char>>)>, acc.push(e)));
    assert(parse_run(c, st1) == (None::<(Seq<char>, Seq<Seq<char>>)>, acc.push(e)));
    assert((e.0, e.1) == e);
    assert(all_plain(h)) by {
        assert(h[0] == header_line(e.0));
    }
    assert(all_plain(c)) by {
        assert(c[0] == close_line());
        assert(free_of(close_line(), '\n'));
    }
    lemma_all_plain_concat(h, ps);
    lemma_all_plain_concat(h + ps, c);
}

proof fn lemma_kdl_run(es: Seq<(Seq<char>, Seq<Seq<char>>)>)
    requires
        good_kdl_entries(es),
    ensures
        parse_run(kdl_lines(es), (None, Seq::empty())) == (
            None::<(Seq<char>, Seq<Seq<char>>)>,
            es,
        ),
        all_plain(kdl_lines(es)),
    decreases es.len(),
{
    if es.len() > 0 {
        let d = es.drop_last();
        assert forall|i: int| 0 <= i < d.len() implies good_kdl_entry(#[trigger] d[i]) by {
            assert(d[i] == es[i]);
        }
        lemma_kdl_run(d);
        assert(good_kdl_entry(es[es.len() - 1]));
        lemma_parse_run_concat(kdl_lines(d), entry_lines(es.last()), (None, Seq::empty()));
        lemma_entry_run(es.last(), d);
        assert(d.push(es.last()) == es);
        lemma_all_plain_concat(kdl_lines(d), entry_lines(es.last()));
    }
}

/// Reading back rendered permission entries gives the same entries, for
/// one-line keys and permissions that are non-empty, trimmed, on one line
/// and not `}`.
pub proof fn law_permissions_round_trip(es: Seq<(Seq<char>, Seq<Seq<char>>)>)
    requires
        good_kdl_entries(es),
    ensures
        parse_permissions_spec(render_spec(es)) == es,
{
    lemma_kdl_run(es);
    lemma_lines_terminated(kdl_lines(es));
}

// ---------------------------------------------------------------------------
// Running Zellij
// ---------------------------------------------------------------------------

/// The bundled Zellij binary with Chobits' isolated configuration and data
/// directories.
pub struct ZellijRunner {
    pub bin: String,
    pub config_dir: String,
    pub data_dir: String,
}

pub open spec fn lit(s: &str) -> Seq<char> {
    s@
}

fn string_from(s: &str) -> (r: String)
    ensures
        r@ == s@,
{
    let c = chars_of(s);
    string_of(c.as_slice())
}

fn push_str_arg(v: &mut Vec<String>, s: &str)
    ensures
        string_views(final(v)@) == string_views(old(v)@).push(s@),
{
    let a = string_from(s);
    let ghost before = v@;
    v.push(a);
    assert(string_views(v@) =~= string_views(before).push(s@));
}

fn push_string_arg(v: &mut Vec<String>, s: &String)
    ensures
        string_views(final(v)@) == string_views(old(v)@).push(s@),
{
    push_str_arg(v, s.as_str());
}

impl ZellijRunner {
    pub fn new(bin: String, config_dir: String, data_dir: String) -> (r: Self)
        ensures
            r.bin == bin,
            r.config_dir == config_dir,
            r.data_dir == data_dir,
    {
        Self { bin, config_dir, data_dir }
    }

    /// The arguments that every Zellij command line starts with.
    pub open spec fn base_args_spec(&self) -> Seq<Seq<char>> {
        seq![lit("--config-dir"), self.config_dir@, lit("--data-dir"), self.data_dir@]
    }

    /// `--config-dir <config_dir> --data-dir <data_dir>`.
    pub fn base_args(&self) -> (r: Vec<String>)
        ensures
            string_views(r@) == self.base_args_spec(),
    {
        let mut v: Vec<String> = Vec::new();
        push_str_arg(&mut v, "--config-dir");
        push_string_arg(&mut v, &self.config_dir);
        push_str_arg(&mut v, "--data-dir");
        push_string_arg(&mut v, &self.data_dir);
        assert(string_views(v@) =~= self.base_args_spec());
        v
    }

    /// The arguments that pass `args` through to Zellij.
    pub fn passthrough_args(&self, args: &[String]) -> (r: Vec<String>)
        ensures
            string_views(r@) == self.base_args_spec() + string_views(args@),
    {
        let mut v = self.base_args();
        let mut i: usize = 0;
        while i < args.len()
            invariant
                i <= args@.len(),
                string_views(v@) == self.base_args_spec() + string_views(args@).subrange(0, i as int),
            decreases args@.len() - i,
        {
            push_string_arg(&mut v, &args[i]);
            i += 1;
            assert(string_views(v@) =~= self.base_args_spec() + string_views(args@).subrange(
                0,
                i as int,
            ));
        }
        assert(string_views(args@).subrange(0, args@.len() as int) == string_views(args@));
        v
    }

    /// The arguments that list the running sessions.
    pub fn list_sessions_args(&self) -> (r: Vec<String>)
        ensures
            string_views(r@) == self.base_args_spec() + seq![
                lit("list-sessions"),
                lit("--no-formatting"),
            ],
    {
        let mut v = self.base_args();
        push_str_arg(&mut v, "list-sessions");
        push_str_arg(&mut v, "--no-formatting");
        assert(string_views(v@) =~= self.base_args_spec() + seq![
            lit("list-sessions"),
            lit("--no-formatting"),
        ]);
        v
    }

    /// The arguments that start session `session_name` with a layout file.
    pub fn new_session_args(&self, session_name: &str, layout_path: &str) -> (r: Vec<String>)
        ensures
            string_views(r@) == self.base_args_spec() + seq![
                lit("--new-session-with-layout"),
                layout_path@,
                lit("--session"),
                session_name@,
            ],
    {
        let mut v = self.base_args();
        push_str_arg(&mut v, "--new-session-with-layout");
        push_str_arg(&mut v, layout_path);
        push_str_arg(&mut v, "--session");
        push_str_arg(&mut v, session_name);
        assert(string_views(v@) =~= self.base_args_spec() + seq![
            lit("--new-session-with-layout"),
            layout_path@,
            lit("--session"),
            session_name@,
        ]);
        v
    }

    /// The arguments that attach to session `session_name`.
    pub fn attach_args(&self, session_name: &str) -> (r: Vec<String>)
        ensures
            string_views(r@) == self.base_args_spec() + seq![lit("attach"), session_name@],
    {
        let mut v = self.base_args();
        push_str_arg(&mut v, "attach");
        push_str_arg(&mut v, session_name);
        assert(string_views(v@) =~= self.base_args_spec() + seq![lit("attach"), session_name@]);
        v
    }

    /// The outcome of `zellij list-sessions`, given whether it succeeded, what
    /// it wrote to stdout and stderr, and how its exit status reads: the live
    /// Chobits sessions on success; otherwise the message of the error.
    pub fn list_sessions(&self, success: bool, stdout: &[u8], stderr: &[u8], status: &str) -> (r:
        Result<Vec<String>, String>)
        ensures
            success ==> (r matches Ok(v) && string_views(v@) == live_sessions(
                lines(utf8_lossy(stdout@)),
            )),
            !success ==> (r matches Err(m) && m@ == list_failure_message(
                trim(utf8_lossy(stderr@)),
                status@,
            )),
    {
        if !success {
            let text = lossy_text(stderr);
            let chars = chars_of(text.as_str());
            let msg = trimmed(chars.as_slice());
            let mut out: Vec<char> = Vec::new();
            if msg.len() == 0 {
                append_str(&mut out, "zellij list-sessions exited with ");
                append_str(&mut out, status);
            } else {
                append_str(&mut out, "zellij list-sessions failed: ");
                append_chars(&mut out, msg.as_slice());
            }
            return Err(string_of(out.as_slice()));
        }
        let text = lossy_text(stdout);
        Ok(filter_chobits_sessions(text.as_str()))
    }
}

/// The message of a failed `zellij list-sessions`.
pub open spec fn list_failure_message(msg: Seq<char>, status: Seq<char>) -> Seq<char> {
    if msg.len() == 0 {
        lit("zellij list-sessions exited with ") + status
    } else {
        lit("zellij list-sessions failed: ") + msg
    }
}

/// `<cache_dir>/permissions.kdl`, when Zellij's cache directory is known.
pub fn zellij_permissions_kdl(cache_dir: Option<&str>) -> (r: Option<String>)
    ensures
        match cache_dir {
            Some(d) => r matches Some(p) && p@ == path_join(d@, lit("permissions.kdl")),
            None => r is None,
        },
{
    match cache_dir {
        Some(d) => Some(join_path(d, "permissions.kdl")),
        None => None,
    }
}

/// The first index of an entry whose key is `key`.
pub open spec fn entry_index(es: Seq<(Seq<char>, Seq<Seq<char>>)>, key: Seq<char>, i: int) -> Option<
    int,
>
    decreases es.len() - i,
{
    if i < 0 || i >= es.len() {
        None
    } else if es[i].0 == key {
        Some(i)
    } else {
        entry_index(es, key, i + 1)
    }
}

/// `es` with the permissions of the first entry for `key` replaced by
/// `perms`, or with a new entry `(key, perms)` at the end when none exists.
pub open spec fn merge_entry_spec(
    es: Seq<(Seq<char>, Seq<Seq<char>>)>,
    key: Seq<char>,
    perms: Seq<Seq<char>>,
) -> Seq<(Seq<char>, Seq<Seq<char>>)> {
    match entry_index(es, key, 0) {
        Some(i) => es.update(i, (es[i].0, perms)),
        None => es.push((key, perms)),
    }
}

fn clone_strings(v: &[String]) -> (r: Vec<String>)
    ensures
        string_views(r@) == string_views(v@),
{
    let c = char_vecs_of(v);
    strings_of(&c)
}

fn eq_chars(a: &[char], b: &[char]) -> (r: bool)
    ensures
        r == (a@ == b@),
{
    if a.len() != b.len() {
        return false;
    }
    let mut i: usize = 0;
    while i < a.len()
        invariant
            a@.len() == b@.len(),
            i <= a@.len(),
            a@.subrange(0, i as int) == b@.subrange(0, i as int),
        decreases a@.len() - i,
    {
        if a[i] != b[i] {
            assert(a@[i as int] != b@[i as int]);
            return false;
        }
        i += 1;
        assert(a@.subrange(0, i as int) =~= b@.subrange(0, i as int));
    }
    assert(a@ =~= a@.subrange(0, a@.len() as int));
    assert(b@ =~= b@.subrange(0, b@.len() as int));
    true
}

fn find_entry(list: &Vec<(String, Vec<String>)>, key: &[char]) -> (r: Option<usize>)
    ensures
        r matches Some(i) ==> i < list@.len() && entry_index(entry_views(list@), key@, 0) == Some(
            i as int,
        ),
        r is None ==> entry_index(entry_views(list@), key@, 0) is None,
{
    let ghost es = entry_views(list@);
    let mut i: usize = 0;
    while i < list.len()
        invariant
            i <= list@.len(),
            es == entry_views(list@),
            entry_index(es, key@, 0) == entry_index(es, key@, i as int),
        decreases list@.len() - i,
    {
        let ek = chars_of(list[i].0.as_str());
        if eq_chars(ek.as_slice(), key) {
            assert(es[i as int].0 == key@);
            assert(entry_index(es, key@, i as int) == Some(i as int));
            return Some(i);
        }
        i += 1;
    }
    None
}

/// Give the entry for `key` the permissions `perms`: replace the list of the
/// first entry for `key`, or add an entry at the end.
pub fn merge_permission_entry(entries: Vec<(String, Vec<String>)>, key: &str, perms: &[String]) -> (r:
    Vec<(String, Vec<String>)>)
    ensures
        entry_views(r@) == merge_entry_spec(entry_views(entries@), key@, string_views(perms@)),
{
    let ghost es = entry_views(entries@);
    let k = chars_of(key);
    let found = find_entry(&entries, k.as_slice());
    let new_perms = clone_strings(perms);
    let mut list = entries;
    match found {
        Some(i) => {
            let old_key = list[i].0.clone();
            list.set(i, (old_key, new_perms));
            assert(entry_views(list@) =~= es.update(
                i as int,
                (es[i as int].0, string_views(perms@)),
            ));
            assert(entry_index(es, key@, 0) == Some(i as int));
            assert(entry_views(list@) == merge_entry_spec(es, key@, string_views(perms@)));
        },
        None => {
            let key_s = string_from(key);
            list.push((key_s, new_perms));
            assert(entry_views(list@) =~= es.push((key@, string_views(perms@))));
            assert(entry_views(list@) == merge_entry_spec(es, key@, string_views(perms@)));
        },
    }
    list
}

/// The new text of `permissions.kdl` that grants `permissions` to the plugin
/// at `wasm_path`, given the file's current text (empty when it is absent).
pub fn granted_permissions_text(existing: &str, wasm_path: &str, permissions: &[String]) -> (r:
    String)
    ensures
        r@ == render_spec(
            merge_entry_spec(
                parse_permissions_spec(existing@),
                kdl_escape_spec(wasm_path@),
                string_views(permissions@),
            ),
        ),
{
    let key = kdl_escape(wasm_path);
    let entries = parse_permissions_kdl(existing);
    let merged = merge_permission_entry(entries, key.as_str(), permissions);
    render_permissions_kdl(merged.as_slice())
}

/// Replacing in a one-line text by a one-line text keeps it on one line.
pub proof fn lemma_replace_free(s: Seq<char>, from: Seq<char>, to: Seq<char>, d: char)
    requires
        free_of(s, d),
        free_of(to, d),
    ensures
        free_of(replace(s, from, to), d),
    decreases s.len(),
{
    if !(from.len() == 0 || s.len() < from.len()) {
        if has_prefix(s, from) {
            let rest = s.subrange(from.len() as int, s.len() as int);
            lemma_free_subrange(s, d, from.len() as int, s.len() as int);
            lemma_replace_free(rest, from, to, d);
            let r = replace(rest, from, to);
            assert forall|i: int| 0 <= i < (to + r).len() implies (to + r)[i] != d by {
                if i >= to.len() {
                    assert((to + r)[i] == r[i - to.len()]);
                }
            }
        } else {
            lemma_free_subrange(s, d, 1, s.len() as int);
            assert(s.drop_first() == s.subrange(1, s.len() as int));
            lemma_replace_free(s.drop_first(), from, to, d);
            let r = replace(s.drop_first(), from, to);
            assert forall|i: int| 0 <= i < (seq![s[0]] + r).len() implies (seq![s[0]] + r)[i] != d by {
                if i >= 1 {
                    assert((seq![s[0]] + r)[i] == r[i - 1]);
                }
            }
        }
    }
}

/// A state of reading whose entries are all good.
pub open spec fn good_state(st: (Option<(Seq<char>, Seq<Seq<char>>)>, Seq<(Seq<char>, Seq<Seq<char>>)>)) -> bool {
    good_kdl_entries(st.1) && match st.0 {
        Some(e) => good_kdl_entry(e),
        None => true,
    }
}

proof fn lemma_parse_step_good(
    st: (Option<(Seq<char>, Seq<Seq<char>>)>, Seq<(Seq<char>, Seq<Seq<char>>)>),
    line: Seq<char>,
)
    requires
        good_state(st),
        free_of(line, '\n'),
    ensures
        good_state(parse_step(st, line)),
{
    let t = trim(line);
    lemma_trim_shape(line);
    let (a, b) = choose|a: int, b: int| 0 <= a <= b <= line.len() && #[trigger] line.subrange(a, b) == trim(line);
    lemma_free_subrange(line, '\n', a, b);
    match st.0 {
        None => {
            if is_header(t) {
                let q = last_index_of(t, '"')->0;
                lemma_last_index_bounds(t, '"');
                lemma_free_subrange(t, '\n', 1, q);
            }
        },
        Some(e) => {
            if t != close_line() && t.len() > 0 {
                let ne = (e.0, e.1.push(t));
                assert forall|j: int| 0 <= j < ne.1.len() implies good_perm(#[trigger] ne.1[j]) by {
                    if j < e.1.len() {
                        assert(ne.1[j] == e.1[j]);
                    }
                }
            }
            if t == close_line() {
                let n1 = st.1.push(e);
                assert forall|i: int| 0 <= i < n1.len() implies good_kdl_entry(#[trigger] n1[i]) by {
                    if i < st.1.len() {
                        assert(n1[i] == st.1[i]);
                    }
                }
            }
        },
    }
}

proof fn lemma_last_index_bounds(t: Seq<char>, c: char)
    ensures
        last_index_of(t, c) matches Some(q) ==> 0 <= q < t.len(),
    decreases t.len(),
{
    if t.len() > 0 && t.last() != c {
        lemma_last_index_bounds(t.drop_last(), c);
    }
}

proof fn lemma_parse_run_good(
    ls: Seq<Seq<char>>,
    st: (Option<(Seq<char>, Seq<Seq<char>>)>, Seq<(Seq<char>, Seq<Seq<char>>)>),
)
    requires
        good_state(st),
        forall|i: int| 0 <= i < ls.len() ==> free_of(#[trigger] ls[i], '\n'),
    ensures
        good_state(parse_run(ls, st)),
    decreases ls.len(),
{
    if ls.len() > 0 {
        lemma_parse_run_good(ls.drop_last(), st);
        lemma_parse_step_good(parse_run(ls.drop_last(), st), ls.last());
    }
}

/// Every entry read from any text is good: keys on one line, permissions
/// non-empty, trimmed, on one line and not `}`.
pub proof fn lemma_parsed_entries_good(content: Seq<char>)
    ensures
        good_kdl_entries(parse_permissions_spec(content)),
{
    let p = crate::text::split(content, '\n');
    crate::text::lemma_split_pieces_free(content, '\n');
    crate::text::lemma_split_nonempty(content, '\n');
    let ls = lines(content);
    assert forall|i: int| 0 <= i < ls.len() implies free_of(#[trigger] ls[i], '\n') by {
        if i < p.len() - 1 {
            assert(free_of(p[i], '\n'));
            let x = p[i];
            if x.len() > 0 && x.last() == '\r' {
                lemma_free_subrange(x, '\n', 0, x.len() - 1);
                assert(x.drop_last() == x.subrange(0, x.len() - 1));
            }
        } else {
            assert(free_of(p[p.len() - 1], '\n'));
        }
    }
    let st0: (Option<(Seq<char>, Seq<Seq<char>>)>, Seq<(Seq<char>, Seq<Seq<char>>)>) = (None, Seq::empty());
    lemma_parse_run_good(ls, st0);
    let st = parse_run(ls, st0);
    match st.0 {
        Some(e) => {
            let n1 = st.1.push(e);
            assert forall|i: int| 0 <= i < n1.len() implies good_kdl_entry(#[trigger] n1[i]) by {
                if i < st.1.len() {
                    assert(n1[i] == st.1[i]);
                }
            }
        },
        None => {},
    }
}

proof fn lemma_entry_index(es: Seq<(Seq<char>, Seq<Seq<char>>)>, key: Seq<char>, i: int)
    requires
        0 <= i,
    ensures
        match entry_index(es, key, i) {
            Some(j) => i <= j < es.len() && es[j].0 == key && forall|m: int| i <= m < j ==> es[m].0 != key,
            None => forall|m: int| i <= m < es.len() ==> es[m].0 != key,
        },
    decreases es.len() - i,
{
    if i < es.len() && es[i].0 != key {
        lemma_entry_index(es, key, i + 1);
    }
}

/// After granting `perms` to the plugin at `wasm_path` (a one-line path,
/// with permissions that are non-empty, trimmed, one-line and not `}`),
/// reading the file back gives every entry as written, and the plugin's
/// first entry holds exactly `perms`.
pub proof fn law_grant_then_read(existing: Seq<char>, wasm_path: Seq<char>, perms: Seq<Seq<char>>)
    requires
        free_of(wasm_path, '\n'),
        forall|j: int| 0 <= j < perms.len() ==> good_perm(#[trigger] perms[j]),
    ensures
        ({
            let key = kdl_escape_spec(wasm_path);
            let es = merge_entry_spec(parse_permissions_spec(existing), key, perms);
            &&& parse_permissions_spec(render_spec(es)) == es
            &&& entry_index(es, key, 0) matches Some(i) && es[i].1 == perms
        }),
{
    let key = kdl_escape_spec(wasm_path);
    let a = replace(wasm_path, seq!['\\'], seq!['\\', '\\']);
    lemma_replace_free(wasm_path, seq!['\\'], seq!['\\', '\\'], '\n');
    lemma_replace_free(a, seq!['"'], seq!['\\', '"'], '\n');
    let old_es = parse_permissions_spec(existing);
    lemma_parsed_entries_good(existing);
    let es = merge_entry_spec(old_es, key, perms);
    lemma_entry_index(old_es, key, 0);
    match entry_index(old_es, key, 0) {
        Some(i) => {
            assert forall|m: int| 0 <= m < es.len() implies good_kdl_entry(#[trigger] es[m]) by {
                if m != i {
                    assert(es[m] == old_es[m]);
                } else {
                    assert(good_kdl_entry(old_es[i]));
                }
            }
            lemma_entry_index(es, key, 0);
            assert(es[i].0 == key);
            assert forall|m: int| 0 <= m < i implies es[m].0 != key by {
                assert(es[m] == old_es[m]);
            }
            assert(entry_index(es, key, 0) == Some(i));
        },
        None => {
            assert forall|m: int| 0 <= m < es.len() implies good_kdl_entry(#[trigger] es[m]) by {
                if m < old_es.len() {
                    assert(es[m] == old_es[m]);
                }
            }
            lemma_entry_index(es, key, 0);
            assert(es[old_es.len() as int].0 == key);
            assert forall|m: int| 0 <= m < old_es.len() implies es[m].0 != key by {
                assert(es[m] == old_es[m]);
            }
            assert(entry_index(es, key, 0) == Some(old_es.len() as int));
        },
    }
    law_permissions_round_trip(es);
}

/// The text `EXITED`, which `zellij list-sessions` writes on the line of a
/// session that has ended.
pub open spec fn exited_word() -> Seq<char> {
    seq!['E', 'X', 'I', 'T', 'E', 'D']
}

/// Only live Chobits sessions are offered: a line that says `EXITED`
/// anywhere adds nothing to the listing; a line whose first word starts with
/// `chobits-` and that does not say `EXITED` adds that word at the end; any
/// other line adds nothing. So every session offered is the first word of a
/// line of the listing that starts with `chobits-` and does not say
/// `EXITED`.
pub proof fn law_only_live_sessions_offered(ls: Seq<Seq<char>>, l: Seq<char>)
    ensures
        contains(l, exited_word()) ==> live_sessions(ls.push(l)) == live_sessions(ls),
        first_word(l) matches Some(w) ==> (!contains(l, exited_word()) && has_prefix(
            w,
            seq!['c', 'h', 'o', 'b', 'i', 't', 's', '-'],
        ) ==> live_sessions(ls.push(l)) == live_sessions(ls).push(w)),
        (match first_word(l) {
            Some(w) => !has_prefix(w, seq!['c', 'h', 'o', 'b', 'i', 't', 's', '-']),
            None => true,
        }) ==> live_sessions(ls.push(l)) == live_sessions(ls),
        forall|i: int|
            0 <= i < live_sessions(ls).len() ==> exists|j: int|
                0 <= j < ls.len() && !contains(ls[j], exited_word()) && first_word(ls[j]) == Some(
                    #[trigger] live_sessions(ls)[i],
                ) && has_prefix(live_sessions(ls)[i], seq!['c', 'h', 'o', 'b', 'i', 't', 's', '-']),
    decreases ls.len(),
{
    assert(ls.push(l).drop_last() == ls);
    assert(ls.push(l).last() == l);
    assert(exited_word() == exited_marker());
    if ls.len() > 0 {
        let p = ls.drop_last();
        law_only_live_sessions_offered(p, ls.last());
        assert(p.push(ls.last()) == ls);
        let r = live_sessions(ls);
        let q = live_sessions(p);
        assert forall|i: int| 0 <= i < r.len() implies exists|j: int|
            0 <= j < ls.len() && !contains(ls[j], exited_word()) && first_word(ls[j]) == Some(
                #[trigger] r[i],
            ) && has_prefix(r[i], seq!['c', 'h', 'o', 'b', 'i', 't', 's', '-']) by {
            if i < q.len() {
                assert(r[i] == q[i]);
                let j = choose|j: int|
                    0 <= j < p.len() && !contains(p[j], exited_word()) && first_word(p[j]) == Some(
                        #[trigger] q[i],
                    ) && has_prefix(q[i], seq!['c', 'h', 'o', 'b', 'i', 't', 's', '-']);
                assert(ls[j] == p[j]);
            } else {
                assert(ls[ls.len() - 1] == ls.last());
            }
        }
    }
}

} // verus!
