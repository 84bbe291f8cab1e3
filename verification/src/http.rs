//! Minimal HTTP request framing for snapshot posts.
use vstd::prelude::*;
use vstd::utf8::*;
use crate::text::{
    chars_of, copy_range, eq_ignore_ascii_case, eq_ignore_ascii_case_exec, find, find_exec, find_from,
    index_of_exec, index_of_from, matches_at, parse_uint, parse_uint_exec, trim, trimmed, views,
};

verus! {

/// The bytes of `"POST "`.
pub open spec fn post_prefix() -> Seq<u8> {
    seq![80u8, 79u8, 83u8, 84u8, 32u8]
}

/// True when the first bytes look like an HTTP `POST` request line.
pub fn is_http_post(prefix: &[u8]) -> (b: bool)
    ensures
        b == (prefix@.len() >= 5 && prefix@.subrange(0, 5) == post_prefix()),
{
    if prefix.len() < 5 {
        return false;
    }
    let b = prefix[0] == 80 && prefix[1] == 79 && prefix[2] == 83 && prefix[3] == 84 && prefix[4]
        == 32;
    assert(b ==> prefix@.subrange(0, 5) == post_prefix());
    assert(prefix@.subrange(0, 5) == post_prefix() ==> prefix@.subrange(0, 5)[1] == 79u8);
    b
}

/// The header terminator `\r\n\r\n` starts at byte `i` of `s`.
pub open spec fn blank_line_at(s: Seq<u8>, i: int) -> bool {
    0 <= i && i + 4 <= s.len() && s[i] == 13u8 && s[i + 1] == 10u8 && s[i + 2] == 13u8 && s[i
        + 3] == 10u8
}

/// The first index `>= i` where the header terminator starts.
pub open spec fn first_blank_line(s: Seq<u8>, i: int) -> Option<int>
    decreases s.len() - i,
{
    if i < 0 || i + 4 > s.len() {
        None
    } else if blank_line_at(s, i) {
        Some(i)
    } else {
        first_blank_line(s, i + 1)
    }
}

/// The terminator found from `i` on lies within `s`.
pub proof fn lemma_first_blank_line(s: Seq<u8>, i: int)
    ensures
        first_blank_line(s, i) matches Some(j) ==> i <= j && j + 4 <= s.len(),
    decreases s.len() - i,
{
    if !(i < 0 || i + 4 > s.len()) && !blank_line_at(s, i) {
        lemma_first_blank_line(s, i + 1);
    }
}

/// Index after the header terminator `\r\n\r\n`, if present in `buf`.
pub fn header_body_split(buf: &[u8]) -> (r: Option<usize>)
    ensures
        match first_blank_line(buf@, 0) {
            Some(i) => r == Some((i + 4) as usize),
            None => r is None,
        },
{
    let n = buf.len();
    if n < 4 {
        return None;
    }
    let mut i: usize = 0;
    while i <= n - 4
        invariant
            n == buf@.len(),
            n >= 4,
            i <= n - 3,
            first_blank_line(buf@, 0) == first_blank_line(buf@, i as int),
        decreases n - i,
    {
        if buf[i] == 13 && buf[i + 1] == 10 && buf[i + 2] == 13 && buf[i + 3] == 10 {
            return Some(i + 4);
        }
        i += 1;
    }
    None
}

/// Converts bytes that are UTF-8 into a string slice (`std::str::from_utf8`).
#[verifier::external_body]
fn utf8_text(bytes: &[u8]) -> (r: Option<&str>)
    ensures
        r is Some <==> valid_utf8(bytes@),
        r matches Some(s) ==> s@ == decode_utf8(bytes@),
{
    std::str::from_utf8(bytes).ok()
}

/// The pieces of `s` between non-overlapping occurrences of the non-empty
/// pattern `pat`, scanned left to right (`str::split` on a string pattern).
pub open spec fn split_on(s: Seq<char>, pat: Seq<char>) -> Seq<Seq<char>>
    decreases s.len(),
{
    match find(s, pat) {
        Some(k) => if pat.len() > 0 && 0 <= k && k + pat.len() <= s.len() {
            seq![s.subrange(0, k)] + split_on(s.subrange(k + pat.len(), s.len() as int), pat)
        } else {
            seq![s]
        },
        None => seq![s],
    }
}

/// The header name `content-length`.
pub open spec fn content_length_name() -> Seq<char> {
    seq!['c', 'o', 'n', 't', 'e', 'n', 't', '-', 'l', 'e', 'n', 'g', 't', 'h']
}

/// The value given by the first header line (of those from index `i` on)
/// whose name, the text before its first `:`, is `Content-Length` in any
/// ASCII case: the trimmed text after the `:` parsed as a `usize`. `None`
/// when no line names it or that value does not parse.
pub open spec fn content_length_in(lines: Seq<Seq<char>>, i: int) -> Option<nat>
    decreases lines.len() - i,
{
    if i < 0 || i >= lines.len() {
        None
    } else {
        match index_of_from(lines[i], ':', 0) {
            Some(k) => if eq_ignore_ascii_case(lines[i].subrange(0, k), content_length_name()) {
                parse_uint(trim(lines[i].subrange(k + 1, lines[i].len() as int)), usize::MAX as nat)
            } else {
                content_length_in(lines, i + 1)
            },
            None => content_length_in(lines, i + 1),
        }
    }
}

/// A value found for `Content-Length` fits in a `usize`.
pub proof fn lemma_content_length_in_bound(lines: Seq<Seq<char>>, i: int)
    ensures
        content_length_in(lines, i) matches Some(v) ==> v <= usize::MAX,
    decreases lines.len() - i,
{
    if !(i < 0 || i >= lines.len()) {
        lemma_content_length_in_bound(lines, i + 1);
    }
}

/// `Content-Length` of an HTTP header block (the bytes before the body):
/// `None` when the block is not UTF-8, names no such header, or its value
/// is not a `usize`.
pub open spec fn content_length_spec(headers: Seq<u8>) -> Option<nat> {
    if !valid_utf8(headers) {
        None
    } else {
        content_length_in(
            split_on(decode_utf8(headers), seq!['\r', '\n']),
            0,
        )
    }
}

proof fn lemma_find_bounds(s: Seq<char>, p: Seq<char>, i: int)
    ensures
        find_from(s, p, i) matches Some(k) ==> i <= k && k + p.len() <= s.len() && matches_at(
            s,
            p,
            k,
        ),
    decreases s.len() - i,
{
    if !(i < 0 || i + p.len() > s.len()) && !(p.len() == 0 || matches_at(s, p, i)) {
        lemma_find_bounds(s, p, i + 1);
    }
    if !(i < 0 || i + p.len() > s.len()) && p.len() == 0 {
        assert(s.subrange(i, i) == p);
    }
}

proof fn lemma_find_shift(s: Seq<char>, p: Seq<char>, a: int, i: int)
    requires
        0 <= a <= s.len(),
        0 <= i,
    ensures
        find_from(s.subrange(a, s.len() as int), p, i) == (match find_from(s, p, a + i) {
            Some(k) => Some(k - a),
            None => None,
        }),
    decreases s.len() - a - i,
{
    let t = s.subrange(a, s.len() as int);
    if i + p.len() <= t.len() {
        assert(t.subrange(i, i + p.len()) == s.subrange(a + i, a + i + p.len()));
        if !(p.len() == 0 || matches_at(t, p, i)) {
            lemma_find_shift(s, p, a, i + 1);
        }
    }
}

/// The lines of `v` separated by `\r\n`.
pub fn split_crlf(v: &[char]) -> (r: Vec<Vec<char>>)
    ensures
        views(r@) == split_on(v@, seq!['\r', '\n']),
{
    let pat: [char; 2] = ['\r', '\n'];
    let pat = pat.as_slice();
    assert(pat@ == seq!['\r', '\n']);
    let n = v.len();
    let mut out: Vec<Vec<char>> = Vec::new();
    let mut i: usize = 0;
    assert(v@.subrange(0, n as int) == v@);
    loop
        invariant
            n == v@.len(),
            i <= n,
            pat@ == seq!['\r', '\n'],
            views(out@) + split_on(v@.subrange(i as int, n as int), pat@) == split_on(v@, pat@),
        decreases n - i,
    {
        let ghost rest = v@.subrange(i as int, n as int);
        let f = find_exec(v, pat, i);
        proof {
            lemma_find_shift(v@, pat@, i as int, 0);
            lemma_find_bounds(v@, pat@, i as int);
        }
        match f {
            Some(k) => {
                let piece = copy_range(v, i, k);
                assert(find(rest, pat@) == Some(k - i));
                assert(rest.subrange(0, k - i) == piece@);
                assert(rest.subrange(k - i + 2, rest.len() as int) == v@.subrange(k + 2, n as int));
                let ghost old_out = out@;
                out.push(piece);
                assert(views(out@) =~= views(old_out).push(piece@));
                assert(views(out@) + split_on(v@.subrange(k + 2, n as int), pat@) =~= views(old_out)
                    + split_on(rest, pat@));
                i = k + 2;
            },
            None => {
                let piece = copy_range(v, i, n);
                assert(find(rest, pat@) is None);
                let ghost old_out = out@;
                out.push(piece);
                assert(views(out@) =~= views(old_out).push(piece@));
                assert(views(out@) =~= views(old_out) + split_on(rest, pat@));
                return out;
            },
        }
    }
}

/// Parse `Content-Length` from an HTTP header block (bytes before the body).
pub fn content_length_from_headers(headers: &[u8]) -> (r: Option<usize>)
    ensures
        match content_length_spec(headers@) {
            Some(x) => r == Some(x as usize),
            None => r is None,
        },
{
    let text = match utf8_text(headers) {
        Some(t) => t,
        None => return None,
    };
    let chars = chars_of(text);
    let lines = split_crlf(chars.as_slice());
    let ghost ls = views(lines@);
    let name: [char; 14] = ['c', 'o', 'n', 't', 'e', 'n', 't', '-', 'l', 'e', 'n', 'g', 't', 'h'];
    let name = name.as_slice();
    assert(name@ == content_length_name());
    let mut i: usize = 0;
    while i < lines.len()
        invariant
            i <= lines@.len(),
            ls == views(lines@),
            name@ == content_length_name(),
            content_length_spec(headers@) == content_length_in(ls, i as int),
        decreases lines@.len() - i,
    {
        let line = lines[i].as_slice();
        assert(line@ == ls[i as int]);
        match index_of_exec(line, ':', 0) {
            Some(k) => {
                let key = &line[0..k];
                if eq_ignore_ascii_case_exec(key, name) {
                    let value = &line[k + 1..line.len()];
                    let t = trimmed(value);
                    let parsed = parse_uint_exec(t.as_slice(), usize::MAX as u64);
                    return match parsed {
                        Some(x) => Some(x as usize),
                        None => None,
                    };
                }
            },
            None => {},
        }
        i += 1;
    }
    None
}

} // verus!
