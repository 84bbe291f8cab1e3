//! Character-sequence utilities: the string operations the rest of the
//! library is written in, each with a specification over `Seq<char>`.
use vstd::prelude::*;
use vstd::utf8::{decode_utf8, valid_utf8};

verus! {

// ---------------------------------------------------------------------------
// Conversions between `str`/`String` and character vectors
// ---------------------------------------------------------------------------

/// Appends one character to a `String` (std `String::push`).
#[verifier::external_body]
pub(crate) fn push_char(s: &mut String, c: char)
    ensures
        final(s)@ == old(s)@.push(c),
{
    s.push(c);
}

/// The characters of `s`, in order.
pub fn chars_of(s: &str) -> (v: Vec<char>)
    ensures
        v@ == s@,
{
    let mut v: Vec<char> = Vec::new();
    for c in it: s.chars()
        invariant
            v@ == it.seq().take(it.index() as int),
            it.seq() == s@,
    {
        v.push(c);
    }
    v
}

/// The string made of the characters of `v`.
pub fn string_of(v: &[char]) -> (s: String)
    ensures
        s@ == v@,
{
    let mut s = String::new();
    let mut i: usize = 0;
    while i < v.len()
        invariant
            i <= v@.len(),
            s@ == v@.subrange(0, i as int),
        decreases v@.len() - i,
    {
        push_char(&mut s, v[i]);
        i += 1;
        assert(s@ == v@.subrange(0, i as int));
    }
    s
}

/// Appends all of `w` to the end of `v`.
pub fn append_chars(v: &mut Vec<char>, w: &[char])
    ensures
        final(v)@ == old(v)@ + w@,
{
    let mut i: usize = 0;
    while i < w.len()
        invariant
            i <= w@.len(),
            v@ == old(v)@ + w@.subrange(0, i as int),
        decreases w@.len() - i,
    {
        v.push(w[i]);
        i += 1;
        assert(v@ == old(v)@ + w@.subrange(0, i as int));
    }
    assert(w@.subrange(0, w@.len() as int) == w@);
}

/// Appends the characters of `s` to the end of `v`.
pub fn append_str(v: &mut Vec<char>, s: &str)
    ensures
        final(v)@ == old(v)@ + s@,
{
    let w = chars_of(s);
    append_chars(v, w.as_slice());
}

// ---------------------------------------------------------------------------
// Whitespace and trimming
// ---------------------------------------------------------------------------

/// Unicode `White_Space`: the characters for which `char::is_whitespace` holds.
pub open spec fn is_ws(c: char) -> bool {
    let u = c as u32;
    ||| 0x09 <= u <= 0x0D
    ||| u == 0x20
    ||| u == 0x85
    ||| u == 0xA0
    ||| u == 0x1680
    ||| 0x2000 <= u <= 0x200A
    ||| u == 0x2028
    ||| u == 0x2029
    ||| u == 0x202F
    ||| u == 0x205F
    ||| u == 0x3000
}

pub fn is_whitespace(c: char) -> (b: bool)
    ensures
        b == is_ws(c),
{
    let u = c as u32;
    (0x09 <= u && u <= 0x0D) || u == 0x20 || u == 0x85 || u == 0xA0 || u == 0x1680 || (0x2000
        <= u && u <= 0x200A) || u == 0x2028 || u == 0x2029 || u == 0x202F || u == 0x205F || u
        == 0x3000
}

/// `s` with trailing whitespace removed (`str::trim_end`).
pub open spec fn trim_end(s: Seq<char>) -> Seq<char>
    decreases s.len(),
{
    if s.len() > 0 && is_ws(s.last()) {
        trim_end(s.drop_last())
    } else {
        s
    }
}

/// `s` with leading whitespace removed (`str::trim_start`).
pub open spec fn trim_start(s: Seq<char>) -> Seq<char>
    decreases s.len(),
{
    if s.len() > 0 && is_ws(s[0]) {
        trim_start(s.drop_first())
    } else {
        s
    }
}

/// `s` with leading and trailing whitespace removed (`str::trim`).
pub open spec fn trim(s: Seq<char>) -> Seq<char> {
    trim_start(trim_end(s))
}

/// Length of `v` once trailing whitespace is removed.
pub fn trim_end_len(v: &[char]) -> (n: usize)
    ensures
        n <= v@.len(),
        v@.subrange(0, n as int) == trim_end(v@),
{
    let mut n: usize = v.len();
    assert(v@.subrange(0, n as int) == v@);
    while n > 0 && is_whitespace(v[n - 1])
        invariant
            n <= v@.len(),
            trim_end(v@.subrange(0, n as int)) == trim_end(v@),
        decreases n,
    {
        assert(v@.subrange(0, n as int).drop_last() == v@.subrange(0, n - 1));
        n -= 1;
    }
    n
}

/// Index of the first non-whitespace character of `v` (or its length).
pub fn trim_start_index(v: &[char]) -> (k: usize)
    ensures
        k <= v@.len(),
        v@.subrange(k as int, v@.len() as int) == trim_start(v@),
{
    let mut k: usize = 0;
    assert(v@.subrange(0, v@.len() as int) == v@);
    while k < v.len() && is_whitespace(v[k])
        invariant
            k <= v@.len(),
            trim_start(v@.subrange(k as int, v@.len() as int)) == trim_start(v@),
        decreases v@.len() - k,
    {
        assert(v@.subrange(k as int, v@.len() as int).drop_first() == v@.subrange(
            k + 1,
            v@.len() as int,
        ));
        k += 1;
    }
    k
}

/// Bounds `(a, b)` of the trimmed part of `v`.
pub fn trim_bounds(v: &[char]) -> (r: (usize, usize))
    ensures
        r.0 <= r.1 <= v@.len(),
        v@.subrange(r.0 as int, r.1 as int) == trim(v@),
{
    let n = trim_end_len(v);
    let head = &v[0..n];
    let k = trim_start_index(head);
    assert(head@.subrange(k as int, n as int) == v@.subrange(k as int, n as int));
    (k, n)
}

/// A copy of `v[a..b]`.
pub fn copy_range(v: &[char], a: usize, b: usize) -> (w: Vec<char>)
    requires
        a <= b <= v@.len(),
    ensures
        w@ == v@.subrange(a as int, b as int),
{
    vstd::slice::slice_to_vec(&v[a..b])
}

/// A copy of `v` without leading and trailing whitespace.
pub fn trimmed(v: &[char]) -> (w: Vec<char>)
    ensures
        w@ == trim(v@),
{
    let (a, b) = trim_bounds(v);
    copy_range(v, a, b)
}

// ---------------------------------------------------------------------------
// Prefixes, suffixes and searching
// ---------------------------------------------------------------------------

/// `p` occurs in `s` starting at index `i`.
pub open spec fn matches_at(s: Seq<char>, p: Seq<char>, i: int) -> bool {
    0 <= i && i + p.len() <= s.len() && s.subrange(i, i + p.len()) == p
}

pub open spec fn has_prefix(s: Seq<char>, p: Seq<char>) -> bool {
    matches_at(s, p, 0)
}

pub open spec fn has_suffix(s: Seq<char>, p: Seq<char>) -> bool {
    matches_at(s, p, s.len() - p.len())
}

/// The first index `>= i` at which `p` occurs in `s` (`str::find` from `i`).
pub open spec fn find_from(s: Seq<char>, p: Seq<char>, i: int) -> Option<int>
    decreases s.len() - i,
{
    if i < 0 || i + p.len() > s.len() {
        None
    } else if p.len() == 0 || matches_at(s, p, i) {
        Some(i)
    } else {
        find_from(s, p, i + 1)
    }
}

/// The first index at which `p` occurs in `s` (`str::find`).
pub open spec fn find(s: Seq<char>, p: Seq<char>) -> Option<int> {
    find_from(s, p, 0)
}

/// `p` occurs somewhere in `s` (`str::contains`).
pub open spec fn contains(s: Seq<char>, p: Seq<char>) -> bool {
    find(s, p) is Some
}

pub fn matches_at_exec(v: &[char], p: &[char], i: usize) -> (b: bool)
    ensures
        b == matches_at(v@, p@, i as int),
{
    if i > v.len() || p.len() > v.len() - i {
        return false;
    }
    let mut j: usize = 0;
    let vn = v.len();
    while j < p.len()
        invariant
            vn == v@.len(),
            i + p@.len() <= v@.len(),
            j <= p@.len(),
            v@.subrange(i as int, i + j) == p@.subrange(0, j as int),
        decreases p@.len() - j,
    {
        if v[i + j] != p[j] {
            assert(v@.subrange(i as int, i + p@.len())[j as int] != p@[j as int]);
            return false;
        }
        j += 1;
        assert(v@.subrange(i as int, i + j) == p@.subrange(0, j as int));
    }
    assert(p@.subrange(0, p@.len() as int) == p@);
    true
}

pub fn starts_with(v: &[char], p: &[char]) -> (b: bool)
    ensures
        b == has_prefix(v@, p@),
{
    matches_at_exec(v, p, 0)
}

pub fn ends_with(v: &[char], p: &[char]) -> (b: bool)
    ensures
        b == has_suffix(v@, p@),
{
    if p.len() > v.len() {
        false
    } else {
        matches_at_exec(v, p, v.len() - p.len())
    }
}

/// The first occurrence of `p` in `v` at or after `start`.
pub fn find_exec(v: &[char], p: &[char], start: usize) -> (r: Option<usize>)
    ensures
        r matches Some(k) ==> start <= k && k + p@.len() <= v@.len() && matches_at(v@, p@, k as int),
        match r {
            Some(k) => find_from(v@, p@, start as int) == Some(k as int),
            None => find_from(v@, p@, start as int) is None,
        },
{
    if p.len() > v.len() || start > v.len() - p.len() {
        return None;
    }
    if p.len() == 0 {
        assert(v@.subrange(start as int, start as int) == p@);
        return Some(start);
    }
    let n = v.len();
    let last = n - p.len();
    let mut i: usize = start;
    while i <= last
        invariant
            n == v@.len(),
            start <= i,
            last == v@.len() - p@.len(),
            p@.len() > 0,
            find_from(v@, p@, start as int) == find_from(v@, p@, i as int),
        decreases last + 1 - i,
    {
        if matches_at_exec(v, p, i) {
            return Some(i);
        }
        i += 1;
    }
    None
}

pub fn contains_exec(v: &[char], p: &[char]) -> (b: bool)
    ensures
        b == contains(v@, p@),
{
    find_exec(v, p, 0).is_some()
}

/// The first index of `c` in `s` at or after `i`.
pub open spec fn index_of_from(s: Seq<char>, c: char, i: int) -> Option<int>
    decreases s.len() - i,
{
    if i < 0 || i >= s.len() {
        None
    } else if s[i] == c {
        Some(i)
    } else {
        index_of_from(s, c, i + 1)
    }
}

/// The last index of `c` in `s` (`str::rfind` on a character).
pub open spec fn last_index_of(s: Seq<char>, c: char) -> Option<int>
    decreases s.len(),
{
    if s.len() == 0 {
        None
    } else if s.last() == c {
        Some(s.len() - 1)
    } else {
        last_index_of(s.drop_last(), c)
    }
}

pub fn index_of_exec(v: &[char], c: char, start: usize) -> (r: Option<usize>)
    ensures
        r matches Some(k) ==> start <= k < v@.len() && v@[k as int] == c,
        match r {
            Some(k) => index_of_from(v@, c, start as int) == Some(k as int),
            None => index_of_from(v@, c, start as int) is None,
        },
{
    let mut i: usize = start;
    while i < v.len()
        invariant
            start <= i,
            index_of_from(v@, c, start as int) == index_of_from(v@, c, i as int),
        decreases v@.len() - i,
    {
        if v[i] == c {
            return Some(i);
        }
        i += 1;
    }
    None
}

pub fn last_index_of_exec(v: &[char], c: char) -> (r: Option<usize>)
    ensures
        r matches Some(k) ==> k < v@.len() && v@[k as int] == c,
        match r {
            Some(k) => last_index_of(v@, c) == Some(k as int),
            None => last_index_of(v@, c) is None,
        },
{
    let mut n: usize = v.len();
    assert(v@.subrange(0, n as int) == v@);
    while n > 0
        invariant
            n <= v@.len(),
            last_index_of(v@.subrange(0, n as int), c) == last_index_of(v@, c),
        decreases n,
    {
        if v[n - 1] == c {
            return Some(n - 1);
        }
        assert(v@.subrange(0, n as int).drop_last() == v@.subrange(0, n - 1));
        n -= 1;
    }
    None
}

// ---------------------------------------------------------------------------
// Splitting
// ---------------------------------------------------------------------------

/// The views of a sequence of strings.
pub open spec fn string_views(v: Seq<String>) -> Seq<Seq<char>> {
    v.map_values(|s: String| s@)
}

/// The views of a sequence of character vectors.
pub open spec fn views(v: Seq<Vec<char>>) -> Seq<Seq<char>> {
    v.map_values(|x: Vec<char>| x@)
}

/// The pieces of `s` between occurrences of `d` (`str::split` on a character).
pub open spec fn split(s: Seq<char>, d: char) -> Seq<Seq<char>>
    decreases s.len(),
{
    if s.len() == 0 {
        seq![Seq::empty()]
    } else {
        let r = split(s.drop_last(), d);
        if s.last() == d {
            r.push(Seq::empty())
        } else {
            r.update(r.len() - 1, r.last().push(s.last()))
        }
    }
}

pub proof fn lemma_split_nonempty(s: Seq<char>, d: char)
    ensures
        split(s, d).len() >= 1,
    decreases s.len(),
{
    if s.len() > 0 {
        lemma_split_nonempty(s.drop_last(), d);
    }
}

/// `s` without one trailing carriage return.
pub open spec fn strip_cr(s: Seq<char>) -> Seq<char> {
    if s.len() > 0 && s.last() == '\r' {
        s.drop_last()
    } else {
        s
    }
}

/// The lines of `s` (`str::lines`): split at `\n`, a `\r` before the `\n`
/// removed, and no final empty line after a terminating `\n`.
pub open spec fn lines(s: Seq<char>) -> Seq<Seq<char>> {
    let p = split(s, '\n');
    let body = p.drop_last().map_values(|x: Seq<char>| strip_cr(x));
    if p.last().len() == 0 {
        body
    } else {
        body.push(p.last())
    }
}

pub fn split_exec(v: &[char], d: char) -> (r: Vec<Vec<char>>)
    ensures
        views(r@) == split(v@, d),
{
    let mut pieces: Vec<Vec<char>> = Vec::new();
    let mut cur: Vec<char> = Vec::new();
    let mut i: usize = 0;
    assert(v@.subrange(0, 0) == Seq::<char>::empty());
    assert(views(pieces@).push(cur@) == split(v@.subrange(0, 0), d));
    while i < v.len()
        invariant
            i <= v@.len(),
            views(pieces@).push(cur@) == split(v@.subrange(0, i as int), d),
        decreases v@.len() - i,
    {
        let ghost before = v@.subrange(0, i as int);
        let ghost after = v@.subrange(0, i + 1);
        assert(after.drop_last() == before);
        assert(after.last() == v@[i as int]);
        proof {
            lemma_split_nonempty(before, d);
        }
        if v[i] == d {
            let done = cur;
            pieces.push(done);
            cur = Vec::new();
            assert(views(pieces@).push(cur@) == split(after, d));
        } else {
            cur.push(v[i]);
            assert(views(pieces@).push(cur@) == split(after, d));
        }
        i += 1;
    }
    assert(v@.subrange(0, v@.len() as int) == v@);
    pieces.push(cur);
    assert(views(pieces@) == split(v@, d));
    pieces
}

pub fn strip_cr_exec(v: Vec<char>) -> (w: Vec<char>)
    ensures
        w@ == strip_cr(v@),
{
    let mut w = v;
    if w.len() > 0 && w[w.len() - 1] == '\r' {
        w.pop();
    }
    w
}

pub fn lines_exec(v: &[char]) -> (r: Vec<Vec<char>>)
    ensures
        views(r@) == lines(v@),
{
    let mut pieces = split_exec(v, '\n');
    proof {
        lemma_split_nonempty(v@, '\n');
    }
    let ghost p = views(pieces@);
    let last = pieces.pop().unwrap();
    assert(last@ == p.last());
    let ghost body = p.drop_last().map_values(|x: Seq<char>| strip_cr(x));
    let mut out: Vec<Vec<char>> = Vec::new();
    let n = pieces.len();
    let mut i: usize = 0;
    while i < n
        invariant
            n == pieces@.len(),
            i <= n,
            p.len() >= 1,
            views(pieces@) == p.drop_last(),
            body == p.drop_last().map_values(|x: Seq<char>| strip_cr(x)),
            views(out@) == body.subrange(0, i as int),
        decreases n - i,
    {
        let piece = pieces[i].clone();
        assert(piece@ == p.drop_last()[i as int]);
        let w = strip_cr_exec(piece);
        assert(body[i as int] == strip_cr(p.drop_last()[i as int]));
        let ghost old_out = out@;
        out.push(w);
        assert(views(out@) =~= views(old_out).push(w@));
        i += 1;
        assert(views(out@) =~= body.subrange(0, i as int));
    }
    assert(body.subrange(0, n as int) == body);
    if last.len() > 0 {
        out.push(last);
    }
    out
}

// ---------------------------------------------------------------------------
// Replacing
// ---------------------------------------------------------------------------

/// `s` with every non-overlapping occurrence of `from`, scanned left to
/// right, replaced by `to` (`str::replace` with a non-empty pattern).
pub open spec fn replace(s: Seq<char>, from: Seq<char>, to: Seq<char>) -> Seq<char>
    decreases s.len(),
{
    if from.len() == 0 || s.len() < from.len() {
        s
    } else if has_prefix(s, from) {
        to + replace(s.subrange(from.len() as int, s.len() as int), from, to)
    } else {
        seq![s[0]] + replace(s.drop_first(), from, to)
    }
}

pub fn replace_exec(v: &[char], from: &[char], to: &[char]) -> (r: Vec<char>)
    requires
        from@.len() > 0,
    ensures
        r@ == replace(v@, from@, to@),
{
    let mut out: Vec<char> = Vec::new();
    let mut i: usize = 0;
    let n = v.len();
    assert(v@.subrange(0, n as int) == v@);
    while i < n
        invariant
            n == v@.len(),
            i <= n,
            from@.len() > 0,
            out@ + replace(v@.subrange(i as int, n as int), from@, to@) == replace(v@, from@, to@),
        decreases n - i,
    {
        let ghost rest = v@.subrange(i as int, n as int);
        if from.len() > n - i {
            assert(replace(rest, from@, to@) == rest);
            append_chars(&mut out, &v[i..n]);
            assert(out@ == replace(v@, from@, to@));
            return out;
        }
        let m = matches_at_exec(v, from, i);
        assert(rest.subrange(0, from@.len() as int) == v@.subrange(i as int, i + from@.len()));
        if m {
            assert(rest.subrange(from@.len() as int, rest.len() as int) == v@.subrange(
                i + from@.len(),
                n as int,
            ));
            append_chars(&mut out, to);
            i += from.len();
        } else {
            assert(rest.drop_first() == v@.subrange(i + 1, n as int));
            assert(out@.push(v@[i as int]) + replace(rest.drop_first(), from@, to@) == out@ + (
            seq![rest[0]] + replace(rest.drop_first(), from@, to@)));
            out.push(v[i]);
            i += 1;
        }
    }
    assert(v@.subrange(n as int, n as int) == Seq::<char>::empty());
    assert(out@ + Seq::<char>::empty() == out@);
    out
}

// ---------------------------------------------------------------------------
// Decimal numbers
// ---------------------------------------------------------------------------

/// The decimal digit character for `d < 10`.
pub open spec fn digit_char(d: nat) -> char {
    if d == 0 { '0' } else if d == 1 { '1' } else if d == 2 { '2' } else if d == 3 { '3' }
    else if d == 4 { '4' } else if d == 5 { '5' } else if d == 6 { '6' } else if d == 7 { '7' }
    else if d == 8 { '8' } else { '9' }
}

/// The decimal representation of `n`, without leading zeros (`n.to_string()`).
pub open spec fn decimal(n: nat) -> Seq<char>
    decreases n,
{
    if n < 10 {
        seq![digit_char(n)]
    } else {
        decimal(n / 10).push(digit_char(n % 10))
    }
}

fn digit_exec(d: u64) -> (c: char)
    requires
        d < 10,
    ensures
        c == digit_char(d as nat),
{
    if d == 0 { '0' } else if d == 1 { '1' } else if d == 2 { '2' } else if d == 3 { '3' }
    else if d == 4 { '4' } else if d == 5 { '5' } else if d == 6 { '6' } else if d == 7 { '7' }
    else if d == 8 { '8' } else { '9' }
}

pub fn decimal_exec(n: u64) -> (r: Vec<char>)
    ensures
        r@ == decimal(n as nat),
    decreases n,
{
    if n < 10 {
        let mut r: Vec<char> = Vec::new();
        r.push(digit_exec(n));
        r
    } else {
        let mut r = decimal_exec(n / 10);
        r.push(digit_exec(n % 10));
        r
    }
}

/// `c` is an ASCII digit.
pub open spec fn is_digit(c: char) -> bool {
    48 <= (c as u32) <= 57
}

pub open spec fn digit_value(c: char) -> nat {
    ((c as u32) - 48) as nat
}

pub open spec fn all_digits(s: Seq<char>) -> bool {
    forall|i: int| 0 <= i < s.len() ==> is_digit(#[trigger] s[i])
}

/// The number written by the decimal digits `s`.
pub open spec fn digits_value(s: Seq<char>) -> nat
    decreases s.len(),
{
    if s.len() == 0 {
        0
    } else {
        digits_value(s.drop_last()) * 10 + digit_value(s.last())
    }
}

/// What `str::parse` gives for an unsigned integer type whose largest value
/// is `max`: an optional `+`, then one or more ASCII digits whose value is
/// at most `max`.
pub open spec fn parse_uint(s: Seq<char>, max: nat) -> Option<nat> {
    let t = if s.len() > 0 && s[0] == '+' {
        s.drop_first()
    } else {
        s
    };
    if t.len() == 0 || !all_digits(t) || digits_value(t) > max {
        None
    } else {
        Some(digits_value(t))
    }
}

pub fn is_digit_exec(c: char) -> (b: bool)
    ensures
        b == is_digit(c),
{
    let u = c as u32;
    48 <= u && u <= 57
}

pub fn parse_uint_exec(v: &[char], max: u64) -> (r: Option<u64>)
    ensures
        match parse_uint(v@, max as nat) {
            Some(x) => r == Some(x as u64),
            None => r is None,
        },
{
    let n = v.len();
    let start: usize = if n > 0 && v[0] == '+' {
        1
    } else {
        0
    };
    let ghost t = v@.subrange(start as int, n as int);
    assert(start == 1 ==> t == v@.drop_first());
    assert(start == 0 ==> t == v@);
    if start == n {
        return None;
    }
    let mut acc: u64 = 0;
    let mut over = false;
    let mut i: usize = start;
    assert(v@.subrange(start as int, start as int) == Seq::<char>::empty());
    while i < n
        invariant
            n == v@.len(),
            start <= i <= n,
            t == v@.subrange(start as int, n as int),
            t == (if v@.len() > 0 && v@[0] == '+' {
                v@.drop_first()
            } else {
                v@
            }),
            all_digits(v@.subrange(start as int, i as int)),
            !over ==> acc as nat == digits_value(v@.subrange(start as int, i as int)) && acc <= max,
            over ==> digits_value(v@.subrange(start as int, i as int)) > max,
        decreases n - i,
    {
        let ghost pre = v@.subrange(start as int, i as int);
        let ghost post = v@.subrange(start as int, i + 1);
        assert(post.drop_last() == pre);
        assert(post.last() == v@[i as int]);
        let c = v[i];
        if !is_digit_exec(c) {
            assert(t[i - start] == c);
            assert(!is_digit(t[i - start]));
            assert(!all_digits(t));
            assert(parse_uint(v@, max as nat) is None);
            return None;
        }
        let d: u64 = (c as u32 - 48) as u64;
        if !over {
            match acc.checked_mul(10) {
                Some(m) => match m.checked_add(d) {
                    Some(x) => {
                        if x > max {
                            over = true;
                        } else {
                            acc = x;
                        }
                    },
                    None => {
                        over = true;
                    },
                },
                None => {
                    over = true;
                },
            }
        }
        assert forall|j: int| 0 <= j < post.len() implies is_digit(#[trigger] post[j]) by {
            if j < pre.len() {
                assert(post[j] == pre[j]);
            }
        }
        i += 1;
    }
    assert(v@.subrange(start as int, n as int) == t);
    if over {
        None
    } else {
        Some(acc)
    }
}

// ---------------------------------------------------------------------------
// ASCII case
// ---------------------------------------------------------------------------

/// The code of `c` with ASCII upper-case letters mapped to lower case.
pub open spec fn ascii_lower_code(c: char) -> u32 {
    let u = c as u32;
    if 65 <= u <= 90 {
        (u + 32) as u32
    } else {
        u
    }
}

/// `a` and `b` are equal up to ASCII case (`str::eq_ignore_ascii_case`).
pub open spec fn eq_ignore_ascii_case(a: Seq<char>, b: Seq<char>) -> bool {
    a.len() == b.len() && forall|i: int|
        0 <= i < a.len() ==> ascii_lower_code(#[trigger] a[i]) == ascii_lower_code(b[i])
}

pub fn ascii_lower_code_exec(c: char) -> (u: u32)
    ensures
        u == ascii_lower_code(c),
{
    let u = c as u32;
    if 65 <= u && u <= 90 {
        u + 32
    } else {
        u
    }
}

pub fn eq_ignore_ascii_case_exec(a: &[char], b: &[char]) -> (r: bool)
    ensures
        r == eq_ignore_ascii_case(a@, b@),
{
    if a.len() != b.len() {
        return false;
    }
    let mut i: usize = 0;
    while i < a.len()
        invariant
            a@.len() == b@.len(),
            i <= a@.len(),
            forall|j: int| 0 <= j < i ==> ascii_lower_code(#[trigger] a@[j]) == ascii_lower_code(b@[j]),
        decreases a@.len() - i,
    {
        if ascii_lower_code_exec(a[i]) != ascii_lower_code_exec(b[i]) {
            return false;
        }
        i += 1;
    }
    true
}

// ---------------------------------------------------------------------------
// Facts about splitting and trimming
// ---------------------------------------------------------------------------

/// `s` holds no occurrence of `d`.
pub open spec fn free_of(s: Seq<char>, d: char) -> bool {
    forall|i: int| 0 <= i < s.len() ==> s[i] != d
}

/// A string that `trim` leaves unchanged.
pub open spec fn is_trimmed(s: Seq<char>) -> bool {
    trim(s) == s
}

pub proof fn lemma_split_free(s: Seq<char>, d: char)
    requires
        free_of(s, d),
    ensures
        split(s, d) == seq![s],
    decreases s.len(),
{
    if s.len() > 0 {
        lemma_split_free(s.drop_last(), d);
        assert(s.drop_last().push(s.last()) == s);
    } else {
        assert(s == Seq::<char>::empty());
    }
}

/// Splitting `s`, a separator and a separator-free `t` gives the pieces of
/// `s` followed by `t`.
pub proof fn lemma_split_append(s: Seq<char>, d: char, t: Seq<char>)
    requires
        free_of(t, d),
    ensures
        split(s + seq![d] + t, d) == split(s, d).push(t),
    decreases t.len(),
{
    if t.len() == 0 {
        assert(t == Seq::<char>::empty());
        assert(s + seq![d] + t == s.push(d));
        assert((s.push(d)).drop_last() == s);
        assert((s.push(d)).last() == d);
    } else {
        let u = t.drop_last();
        let x = s + seq![d] + t;
        assert(free_of(u, d));
        lemma_split_append(s, d, u);
        assert(x.drop_last() == s + seq![d] + u);
        assert(x.last() == t.last());
        assert(t[t.len() - 1] != d);
        assert(u.push(t.last()) == t);
        lemma_split_nonempty(s + seq![d] + u, d);
        let r = split(s, d).push(u);
        assert(r.update(r.len() - 1, r.last().push(x.last())) =~= split(s, d).push(t));
    }
}

/// Every piece of `split(s, d)` is free of `d`.
pub proof fn lemma_split_pieces_free(s: Seq<char>, d: char)
    ensures
        forall|i: int| 0 <= i < split(s, d).len() ==> free_of(#[trigger] split(s, d)[i], d),
    decreases s.len(),
{
    if s.len() > 0 {
        lemma_split_pieces_free(s.drop_last(), d);
        lemma_split_nonempty(s.drop_last(), d);
    }
}

proof fn lemma_trim_end_shape(s: Seq<char>)
    ensures
        trim_end(s).len() <= s.len(),
        trim_end(s) == s.subrange(0, trim_end(s).len() as int),
        trim_end(s).len() == 0 || !is_ws(trim_end(s).last()),
    decreases s.len(),
{
    if s.len() > 0 && is_ws(s.last()) {
        lemma_trim_end_shape(s.drop_last());
        assert(s.drop_last().subrange(0, trim_end(s).len() as int) == s.subrange(
            0,
            trim_end(s).len() as int,
        ));
    } else {
        assert(s.subrange(0, s.len() as int) == s);
    }
}

proof fn lemma_trim_start_shape(s: Seq<char>)
    ensures
        trim_start(s).len() <= s.len(),
        trim_start(s) == s.subrange(s.len() - trim_start(s).len(), s.len() as int),
        trim_start(s).len() == 0 || !is_ws(trim_start(s)[0]),
    decreases s.len(),
{
    if s.len() > 0 && is_ws(s[0]) {
        lemma_trim_start_shape(s.drop_first());
        let k = s.len() - trim_start(s).len();
        assert(s.drop_first().subrange(k - 1, s.len() - 1) == s.subrange(k, s.len() as int));
    } else {
        assert(s.subrange(0, s.len() as int) == s);
    }
}

pub proof fn lemma_trim_end_fixed(s: Seq<char>)
    requires
        s.len() == 0 || !is_ws(s.last()),
    ensures
        trim_end(s) == s,
{
}

pub proof fn lemma_trim_start_fixed(s: Seq<char>)
    requires
        s.len() == 0 || !is_ws(s[0]),
    ensures
        trim_start(s) == s,
{
}

/// `trim(s)` is a contiguous part of `s` that `trim` leaves unchanged.
pub proof fn lemma_trim_shape(s: Seq<char>)
    ensures
        exists|a: int, b: int| 0 <= a <= b <= s.len() && #[trigger] s.subrange(a, b) == trim(s),
        is_trimmed(trim(s)),
{
    let y = trim_end(s);
    lemma_trim_end_shape(s);
    lemma_trim_start_shape(y);
    let t = trim_start(y);
    let a = y.len() - t.len();
    assert(s.subrange(a, y.len() as int) == t);
    if t.len() > 0 {
        assert(t.last() == y.last());
    }
    lemma_trim_end_fixed(t);
    lemma_trim_start_fixed(t);
}

/// A contiguous part of a `d`-free string is `d`-free.
pub proof fn lemma_free_subrange(s: Seq<char>, d: char, a: int, b: int)
    requires
        free_of(s, d),
        0 <= a <= b <= s.len(),
    ensures
        free_of(s.subrange(a, b), d),
{
    assert forall|i: int| 0 <= i < b - a implies s.subrange(a, b)[i] != d by {
        assert(s.subrange(a, b)[i] == s[a + i]);
    }
}

// ---------------------------------------------------------------------------
// Joining
// ---------------------------------------------------------------------------

/// `es` joined with `sep` between consecutive entries (`slice::join`).
pub open spec fn join(es: Seq<Seq<char>>, sep: Seq<char>) -> Seq<char>
    decreases es.len(),
{
    if es.len() == 0 {
        Seq::empty()
    } else if es.len() == 1 {
        es[0]
    } else {
        join(es.drop_last(), sep) + sep + es.last()
    }
}

/// Joins `es` with `sep` between consecutive entries.
pub fn join_exec(es: &Vec<Vec<char>>, sep: char) -> (r: Vec<char>)
    ensures
        r@ == join(views(es@), seq![sep]),
{
    let mut out: Vec<char> = Vec::new();
    let mut i: usize = 0;
    while i < es.len()
        invariant
            i <= es@.len(),
            out@ == join(views(es@).subrange(0, i as int), seq![sep]),
        decreases es@.len() - i,
    {
        let ghost pre = views(es@).subrange(0, i as int);
        let ghost post = views(es@).subrange(0, i + 1);
        assert(post.drop_last() == pre);
        if i > 0 {
            out.push(sep);
        }
        append_chars(&mut out, es[i].as_slice());
        i += 1;
        assert(out@ == join(post, seq![sep]));
    }
    assert(views(es@).subrange(0, es@.len() as int) == views(es@));
    out
}

/// Strings made of the character vectors of `v`.
pub fn strings_of(v: &Vec<Vec<char>>) -> (r: Vec<String>)
    ensures
        string_views(r@) == views(v@),
{
    let mut out: Vec<String> = Vec::new();
    let mut i: usize = 0;
    while i < v.len()
        invariant
            i <= v@.len(),
            string_views(out@) == views(v@).subrange(0, i as int),
        decreases v@.len() - i,
    {
        let s = string_of(v[i].as_slice());
        let ghost old_out = out@;
        out.push(s);
        assert(string_views(out@) =~= string_views(old_out).push(s@));
        i += 1;
        assert(string_views(out@) =~= views(v@).subrange(0, i as int));
    }
    assert(views(v@).subrange(0, v@.len() as int) == views(v@));
    out
}

/// Character vectors of the strings of `v`.
pub fn char_vecs_of(v: &[String]) -> (r: Vec<Vec<char>>)
    ensures
        views(r@) == string_views(v@),
{
    let mut out: Vec<Vec<char>> = Vec::new();
    let mut i: usize = 0;
    while i < v.len()
        invariant
            i <= v@.len(),
            views(out@) == string_views(v@).subrange(0, i as int),
        decreases v@.len() - i,
    {
        let c = chars_of(v[i].as_str());
        let ghost old_out = out@;
        out.push(c);
        assert(views(out@) =~= views(old_out).push(c@));
        i += 1;
        assert(views(out@) =~= string_views(v@).subrange(0, i as int));
    }
    assert(string_views(v@).subrange(0, v@.len() as int) == string_views(v@));
    out
}

/// Splitting `s` followed by a separator-free `t` extends the last piece of `s`.
pub proof fn lemma_split_extend(s: Seq<char>, d: char, t: Seq<char>)
    requires
        free_of(t, d),
    ensures
        split(s + t, d) == split(s, d).update(
            split(s, d).len() - 1,
            split(s, d).last() + t,
        ),
    decreases t.len(),
{
    lemma_split_nonempty(s, d);
    if t.len() == 0 {
        assert(s + t == s);
        assert(split(s, d).last() + t == split(s, d).last());
        assert(split(s, d).update(split(s, d).len() - 1, split(s, d).last()) == split(s, d));
    } else {
        let u = t.drop_last();
        assert(free_of(u, d));
        lemma_split_extend(s, d, u);
        assert((s + t).drop_last() == s + u);
        assert((s + t).last() == t.last());
        assert(t[t.len() - 1] != d);
        lemma_split_nonempty(s + u, d);
        let r = split(s + u, d);
        let q = split(s, d);
        assert(r.len() == q.len());
        assert(r.last() == q.last() + u);
        assert(u.push(t.last()) == t);
        assert((q.last() + u).push(t.last()) =~= q.last() + t);
        assert(r.update(r.len() - 1, r.last().push(t.last())) =~= split(s, d).update(
            split(s, d).len() - 1,
            split(s, d).last() + t,
        ));
    }
}

/// `ls` with a newline after each line.
pub open spec fn terminated(ls: Seq<Seq<char>>) -> Seq<char>
    decreases ls.len(),
{
    if ls.len() == 0 {
        Seq::empty()
    } else {
        terminated(ls.drop_last()) + ls.last() + seq!['\n']
    }
}

/// A line that `str::lines` gives back unchanged when terminated.
pub open spec fn plain_line(l: Seq<char>) -> bool {
    free_of(l, '\n') && !(l.len() > 0 && l.last() == '\r')
}

proof fn lemma_split_terminated(ls: Seq<Seq<char>>)
    requires
        forall|i: int| 0 <= i < ls.len() ==> free_of(#[trigger] ls[i], '\n'),
    ensures
        split(terminated(ls), '\n') == ls.push(Seq::empty()),
    decreases ls.len(),
{
    if ls.len() == 0 {
        assert(split(Seq::<char>::empty(), '\n') == seq![Seq::<char>::empty()]);
    } else {
        let d = ls.drop_last();
        assert forall|i: int| 0 <= i < d.len() implies free_of(#[trigger] d[i], '\n') by {
            assert(d[i] == ls[i]);
        }
        lemma_split_terminated(d);
        let x = terminated(d);
        assert(free_of(ls[ls.len() - 1], '\n'));
        lemma_split_extend(x, '\n', ls.last());
        let y = x + ls.last();
        assert(terminated(ls) == y.push('\n'));
        assert(y.push('\n').drop_last() == y);
        assert(split(x, '\n').update(split(x, '\n').len() - 1, split(x, '\n').last() + ls.last())
            =~= ls);
    }
}

/// Terminated plain lines read back as the same lines.
pub proof fn lemma_lines_terminated(ls: Seq<Seq<char>>)
    requires
        forall|i: int| 0 <= i < ls.len() ==> plain_line(#[trigger] ls[i]),
    ensures
        lines(terminated(ls)) == ls,
{
    assert forall|i: int| 0 <= i < ls.len() implies free_of(#[trigger] ls[i], '\n') by {
        assert(plain_line(ls[i]));
    }
    lemma_split_terminated(ls);
    let p = ls.push(Seq::<char>::empty());
    assert(p.drop_last() == ls);
    assert(ls.map_values(|x: Seq<char>| strip_cr(x)) =~= ls) by {
        assert forall|i: int| 0 <= i < ls.len() implies strip_cr(ls[i]) == ls[i] by {
            assert(plain_line(ls[i]));
        }
    }
}

/// Terminating two line lists one after the other.
pub proof fn lemma_terminated_concat(a: Seq<Seq<char>>, b: Seq<Seq<char>>)
    ensures
        terminated(a + b) == terminated(a) + terminated(b),
    decreases b.len(),
{
    if b.len() == 0 {
        assert(a + b == a);
        assert(terminated(a) + Seq::<char>::empty() == terminated(a));
    } else {
        lemma_terminated_concat(a, b.drop_last());
        assert((a + b).drop_last() == a + b.drop_last());
        assert((a + b).last() == b.last());
    }
}

/// A trimmed, non-empty string starts and ends with non-whitespace.
pub proof fn lemma_trimmed_ends(s: Seq<char>)
    requires
        is_trimmed(s),
        s.len() > 0,
    ensures
        !is_ws(s[0]),
        !is_ws(s.last()),
{
    lemma_trim_shape(s);
    let y = trim_end(s);
    lemma_trim_end_shape(s);
    lemma_trim_start_shape(y);
    let t = trim_start(y);
    assert(t == s);
    assert(t.last() == y.last());
}

/// Leading spaces before a trimmed string are trimmed away.
pub proof fn lemma_trim_indented(p: Seq<char>, k: nat)
    requires
        is_trimmed(p),
        p.len() > 0,
    ensures
        trim(Seq::new(k, |i: int| ' ') + p) == p,
    decreases k,
{
    lemma_trimmed_ends(p);
    let s = Seq::new(k, |i: int| ' ') + p;
    assert(s.last() == p.last());
    lemma_trim_end_fixed(s);
    if k == 0 {
        assert(s == p);
    } else {
        lemma_trim_indented(p, (k - 1) as nat);
        assert(s.drop_first() == Seq::new((k - 1) as nat, |i: int| ' ') + p);
        let s1 = s.drop_first();
        assert(s1.last() == p.last());
        lemma_trim_end_fixed(s1);
    }
}

/// What `String::from_utf8_lossy` gives for `b`: its UTF-8 text, with each
/// invalid sequence replaced by U+FFFD.
pub uninterp spec fn utf8_lossy(b: Seq<u8>) -> Seq<char>;

/// The text of `b`, invalid UTF-8 replaced (`String::from_utf8_lossy`). The
/// contract names the result and states that valid UTF-8 is decoded as is.
#[verifier::external_body]
pub(crate) fn lossy_text(b: &[u8]) -> (r: String)
    ensures
        r@ == utf8_lossy(b@),
        valid_utf8(b@) ==> r@ == decode_utf8(b@),
{
    String::from_utf8_lossy(b).into_owned()
}

// ---------------------------------------------------------------------------
// Ordering strings
// ---------------------------------------------------------------------------

/// `a` sorts before `b`: the order of `str`'s `Ord`, by character codes
/// (which for UTF-8 is also byte order).
pub open spec fn lex_lt(a: Seq<char>, b: Seq<char>) -> bool
    decreases a.len(),
{
    if a.len() == 0 {
        b.len() > 0
    } else if b.len() == 0 {
        false
    } else if a[0] != b[0] {
        (a[0] as u32) < (b[0] as u32)
    } else {
        lex_lt(a.drop_first(), b.drop_first())
    }
}

pub open spec fn lex_le(a: Seq<char>, b: Seq<char>) -> bool {
    !lex_lt(b, a)
}

/// `s` is in ascending order.
pub open spec fn sorted(s: Seq<Seq<char>>) -> bool {
    forall|i: int, j: int| 0 <= i < j < s.len() ==> lex_le(#[trigger] s[i], #[trigger] s[j])
}

pub proof fn lemma_lex_irrefl(a: Seq<char>)
    ensures
        !lex_lt(a, a),
    decreases a.len(),
{
    if a.len() > 0 {
        lemma_lex_irrefl(a.drop_first());
    }
}

pub proof fn lemma_lex_trans(a: Seq<char>, b: Seq<char>, c: Seq<char>)
    requires
        lex_lt(a, b),
        lex_lt(b, c),
    ensures
        lex_lt(a, c),
    decreases a.len(),
{
    if a.len() > 0 && b.len() > 0 && c.len() > 0 && a[0] == b[0] && b[0] == c[0] {
        lemma_lex_trans(a.drop_first(), b.drop_first(), c.drop_first());
    }
}

pub proof fn lemma_lex_total(a: Seq<char>, b: Seq<char>)
    ensures
        a == b || lex_lt(a, b) || lex_lt(b, a),
    decreases a.len(),
{
    if a.len() > 0 && b.len() > 0 {
        if a[0] == b[0] {
            lemma_lex_total(a.drop_first(), b.drop_first());
            if a.drop_first() == b.drop_first() {
                assert(a == seq![a[0]] + a.drop_first());
                assert(b == seq![b[0]] + b.drop_first());
            }
        } else {
            if (a[0] as u32) == (b[0] as u32) {
                vstd::utf8::char_u32_cast(a[0], a[0] as u32);
                vstd::utf8::char_u32_cast(b[0], b[0] as u32);
            }
        }
    } else if a.len() == 0 && b.len() == 0 {
        assert(a == b);
    }
}

pub proof fn lemma_lex_asym(a: Seq<char>, b: Seq<char>)
    requires
        lex_lt(a, b),
    ensures
        !lex_lt(b, a),
{
    if lex_lt(b, a) {
        lemma_lex_trans(a, b, a);
        lemma_lex_irrefl(a);
    }
}

pub proof fn lemma_lex_le_trans(a: Seq<char>, b: Seq<char>, c: Seq<char>)
    requires
        lex_le(a, b),
        lex_le(b, c),
    ensures
        lex_le(a, c),
{
    if lex_lt(c, a) {
        lemma_lex_total(a, b);
        if lex_lt(a, b) {
            lemma_lex_trans(c, a, b);
        }
    }
}

/// `a` sorts before `b`.
pub fn lex_lt_exec(a: &[char], b: &[char]) -> (r: bool)
    ensures
        r == lex_lt(a@, b@),
{
    let mut i: usize = 0;
    assert(a@.subrange(0, a@.len() as int) == a@);
    assert(b@.subrange(0, b@.len() as int) == b@);
    while i < a.len() && i < b.len() && a[i] == b[i]
        invariant
            i <= a@.len(),
            i <= b@.len(),
            lex_lt(a@, b@) == lex_lt(
                a@.subrange(i as int, a@.len() as int),
                b@.subrange(i as int, b@.len() as int),
            ),
        decreases a@.len() - i,
    {
        let ghost sa = a@.subrange(i as int, a@.len() as int);
        let ghost sb = b@.subrange(i as int, b@.len() as int);
        assert(sa.drop_first() == a@.subrange(i + 1, a@.len() as int));
        assert(sb.drop_first() == b@.subrange(i + 1, b@.len() as int));
        i += 1;
    }
    let ghost sa = a@.subrange(i as int, a@.len() as int);
    let ghost sb = b@.subrange(i as int, b@.len() as int);
    if i == a.len() {
        i < b.len()
    } else if i == b.len() {
        false
    } else {
        (a[i] as u32) < (b[i] as u32)
    }
}

/// The strings of `v` in ascending order.
pub fn sort_strings(v: &[String]) -> (r: Vec<String>)
    ensures
        sorted(string_views(r@)),
        string_views(r@).to_multiset() == string_views(v@).to_multiset(),
{
    broadcast use vstd::seq_lib::to_multiset_build, vstd::seq_lib::to_multiset_insert;

    let mut out: Vec<String> = Vec::new();
    let mut cs: Vec<Vec<char>> = Vec::new();
    let mut i: usize = 0;
    assert(string_views(v@).subrange(0, 0) == Seq::<Seq<char>>::empty());
    assert(string_views(out@) == Seq::<Seq<char>>::empty());
    while i < v.len()
        invariant
            i <= v@.len(),
            views(cs@) == string_views(out@),
            sorted(string_views(out@)),
            string_views(out@).to_multiset() == string_views(v@).subrange(0, i as int).to_multiset(),
        decreases v@.len() - i,
    {
        let x = chars_of(v[i].as_str());
        let ghost s = string_views(out@);
        let mut p: usize = 0;
        while p < cs.len() && !lex_lt_exec(x.as_slice(), cs[p].as_slice())
            invariant
                p <= cs@.len(),
                views(cs@) == s,
                forall|k: int| 0 <= k < p ==> lex_le(#[trigger] s[k], x@),
            decreases cs@.len() - p,
        {
            assert(cs@[p as int]@ == s[p as int]);
            p += 1;
        }
        assert(p < s.len() ==> lex_lt(x@, s[p as int])) by {
            if p < s.len() {
                assert(cs@[p as int]@ == s[p as int]);
            }
        }
        let item = v[i].clone();
        let ghost ns = s.insert(p as int, x@);
        out.insert(p, item);
        cs.insert(p, x);
        assert(string_views(out@) =~= ns);
        assert(views(cs@) =~= ns);
        assert(sorted(ns)) by {
            assert forall|a: int, b: int| 0 <= a < b < ns.len() implies lex_le(
                #[trigger] ns[a],
                #[trigger] ns[b],
            ) by {
                if a < p && b < p {
                    assert(ns[a] == s[a] && ns[b] == s[b]);
                } else if a < p && b == p {
                    assert(ns[a] == s[a]);
                } else if a < p && b > p {
                    assert(ns[a] == s[a] && ns[b] == s[b - 1]);
                    if a < b - 1 {
                        assert(lex_le(s[a], s[b - 1]));
                    }
                    lemma_lex_total(s[a], x@);
                    if lex_lt(x@, s[p as int]) {
                        if p < b - 1 {
                            assert(lex_le(s[p as int], s[b - 1]));
                        }
                    }
                    assert(lex_le(s[a], x@));
                    if p < b - 1 {
                        assert(lex_le(s[p as int], s[b - 1]));
                        assert(lex_lt(x@, s[p as int]));
                        if lex_lt(s[b - 1], x@) {
                            lemma_lex_trans(s[b - 1], x@, s[p as int]);
                        }
                        assert(lex_le(x@, s[b - 1]));
                    } else {
                        assert(b - 1 == p);
                        assert(lex_lt(x@, s[p as int]));
                        lemma_lex_asym(x@, s[p as int]);
                        assert(lex_le(x@, s[b - 1]));
                    }
                    lemma_lex_le_trans(s[a], x@, s[b - 1]);
                } else if a == p {
                    assert(ns[a] == x@ && ns[b] == s[b - 1]);
                    assert(lex_lt(x@, s[p as int]));
                    if p < b - 1 {
                        assert(lex_le(s[p as int], s[b - 1]));
                        if lex_lt(s[b - 1], x@) {
                            lemma_lex_trans(s[b - 1], x@, s[p as int]);
                        }
                    } else {
                        lemma_lex_asym(x@, s[p as int]);
                    }
                } else {
                    assert(ns[a] == s[a - 1] && ns[b] == s[b - 1]);
                }
            }
        }
        assert(string_views(v@).subrange(0, i + 1) == string_views(v@).subrange(0, i as int).push(
            x@,
        ));
        proof {
            vstd::seq_lib::to_multiset_insert(s, p as int, x@);
            vstd::seq_lib::to_multiset_build(string_views(v@).subrange(0, i as int), x@);
        }
        i += 1;
    }
    assert(string_views(v@).subrange(0, v@.len() as int) == string_views(v@));
    out
}

// ---------------------------------------------------------------------------
// Debug formatting
// ---------------------------------------------------------------------------

/// What `format!("{:?}", s)` gives for a string: `s` in double quotes,
/// with its special characters escaped.
pub uninterp spec fn debug_quoted(s: Seq<char>) -> Seq<char>;

/// `s` written as Rust's `Debug` writes a string.
#[verifier::external_body]
pub(crate) fn debug_str(s: &str) -> (r: String)
    ensures
        r@ == debug_quoted(s@),
{
    format!("{:?}", s)
}

} // verus!
