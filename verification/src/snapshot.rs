//! Snapshot truncation: keeping a pane snapshot within a byte budget while
//! preserving whole lines from its head and its tail.
use vstd::prelude::*;
use vstd::utf8::*;
use vstd::string::StringSliceAdditionalSpecFns;
use crate::text::{append_chars, append_str, chars_of, decimal, decimal_exec, digit_char, string_of};

verus! {

/// Localhost HTTP port for `POST /snapshot` from the Zellij plugin.
pub const DEFAULT_SNAPSHOT_PORT: u16 = 7880;

// ---------------------------------------------------------------------------
// Specification
// ---------------------------------------------------------------------------

/// The largest character boundary of `b` at or below `i`.
pub open spec fn floor_boundary(b: Seq<u8>, i: int) -> int
    decreases i,
{
    if i <= 0 {
        0
    } else if i >= b.len() {
        b.len() as int
    } else if is_char_boundary(b, i) {
        i
    } else {
        floor_boundary(b, i - 1)
    }
}

/// The smallest character boundary of `b` at or above `i`.
pub open spec fn ceil_boundary(b: Seq<u8>, i: int) -> int
    decreases b.len() - i,
{
    if i >= b.len() {
        b.len() as int
    } else if i >= 0 && is_char_boundary(b, i) {
        i
    } else {
        ceil_boundary(b, i + 1)
    }
}

/// The last index below `k` that holds a newline byte.
pub open spec fn last_newline_before(b: Seq<u8>, k: int) -> Option<int>
    decreases k,
{
    if k <= 0 || k > b.len() {
        None
    } else if b[k - 1] == 10u8 {
        Some(k - 1)
    } else {
        last_newline_before(b, k - 1)
    }
}

/// The first index at or above `k` that holds a newline byte which is not
/// the last byte of `b`.
pub open spec fn first_inner_newline_from(b: Seq<u8>, k: int) -> Option<int>
    decreases b.len() - k,
{
    if k < 0 || k + 1 >= b.len() {
        None
    } else if b[k] == 10u8 {
        Some(k)
    } else {
        first_inner_newline_from(b, k + 1)
    }
}

/// `e` moved left past the newline bytes just before it.
pub open spec fn strip_newlines_before(b: Seq<u8>, e: int) -> int
    decreases e,
{
    if 0 < e <= b.len() && b[e - 1] == 10u8 {
        strip_newlines_before(b, e - 1)
    } else {
        e
    }
}

/// `k` moved right past the newline bytes starting at it.
pub open spec fn skip_newlines_from(b: Seq<u8>, k: int) -> int
    decreases b.len() - k,
{
    if 0 <= k < b.len() && b[k] == 10u8 {
        skip_newlines_from(b, k + 1)
    } else {
        k
    }
}

/// End of the part of `b` that `take_head` keeps for a budget of `budget`
/// bytes: all of `b` when it fits; otherwise the lines that end within the
/// budget, without their trailing newlines; otherwise, when no line ends
/// within it, a cut at the last character boundary within the budget.
pub open spec fn head_end(b: Seq<u8>, budget: int) -> int {
    if b.len() <= budget {
        b.len() as int
    } else {
        match last_newline_before(b, budget) {
            Some(i) => strip_newlines_before(b, i + 1),
            None => floor_boundary(b, budget),
        }
    }
}

/// Start of the part of `b` that `take_tail` keeps for a budget of `budget`
/// bytes: all of `b` when it fits; otherwise the lines that start within the
/// last `budget` bytes, without their leading newlines; otherwise a cut at
/// the first character boundary within the last `budget` bytes.
pub open spec fn tail_start(b: Seq<u8>, budget: int) -> int {
    if b.len() <= budget {
        0
    } else {
        match first_inner_newline_from(b, b.len() - budget - 1) {
            Some(i) => skip_newlines_from(b, i + 1),
            None => ceil_boundary(b, b.len() - budget),
        }
    }
}

/// The marker that stands for the `n` bytes that truncation removed.
pub open spec fn marker(n: nat) -> Seq<char> {
    seq!['\n', '\n', '.', '.', '.', ' ', '['] + decimal(n) + seq![
        ' ',
        'b',
        'y',
        't',
        'e',
        's',
        ' ',
        't',
        'r',
        'u',
        'n',
        'c',
        'a',
        't',
        'e',
        'd',
        ']',
        ' ',
        '.',
        '.',
        '.',
        '\n',
        '\n',
    ]
}

/// What `truncate_snapshot` returns for `s` and a budget of `max` bytes.
pub open spec fn truncate_spec(s: Seq<char>, max: nat) -> Seq<char> {
    let b = encode_utf8(s);
    if b.len() <= max {
        s
    } else {
        let m = marker((b.len() - max) as nat);
        if max <= m.len() {
            decode_utf8(b.subrange(0, floor_boundary(b, max as int)))
        } else {
            let half = (max - m.len()) / 2;
            decode_utf8(b.subrange(0, head_end(b, half))) + m + decode_utf8(
                b.subrange(tail_start(b, half), b.len() as int),
            )
        }
    }
}

/// The byte offsets at which the lines of `b` begin: `0` for a non-empty `b`,
/// and each offset after a newline byte that is not the last byte.
pub open spec fn line_starts_spec(b: Seq<u8>) -> Seq<int> {
    if b.len() == 0 {
        Seq::empty()
    } else {
        seq![0int] + newline_successors(b, b.len() as int)
    }
}

/// The offsets `i + 1 < b.len()` with `b[i]` a newline, for `i < k`, in order.
pub open spec fn newline_successors(b: Seq<u8>, k: int) -> Seq<int>
    decreases k,
{
    if k <= 0 || k > b.len() {
        Seq::empty()
    } else if b[k - 1] == 10u8 && k < b.len() {
        newline_successors(b, k - 1).push(k)
    } else {
        newline_successors(b, k - 1)
    }
}

// ---------------------------------------------------------------------------
// Boundary facts
// ---------------------------------------------------------------------------

proof fn lemma_boundary_step(b: Seq<u8>, i: int)
    requires
        valid_utf8(b),
        0 <= i < b.len(),
        is_char_boundary(b, i),
    ensures
        is_char_boundary(b, i + length_of_first_scalar(b.subrange(i, b.len() as int))),
    decreases b.len(),
{
    let l = length_of_first_scalar(b);
    if i == 0 {
        assert(b.subrange(0, b.len() as int) == b);
        assert(is_char_boundary(pop_first_scalar(b), 0));
    } else {
        let p = pop_first_scalar(b);
        assert(is_char_boundary(p, i - l));
        assert(i - l >= 0);
        assert(i - l < p.len());
        lemma_boundary_step(p, i - l);
        assert(p.subrange(i - l, p.len() as int) == b.subrange(i, b.len() as int));
    }
}

/// The offset just after an ASCII byte of valid UTF-8 is a character boundary.
proof fn lemma_boundary_after_ascii(b: Seq<u8>, i: int)
    requires
        valid_utf8(b),
        0 <= i < b.len(),
        b[i] < 128,
    ensures
        is_char_boundary(b, i + 1),
{
    is_char_boundary_iff_not_is_continuation_byte(b, i);
    lemma_boundary_step(b, i);
    assert(b.subrange(i, b.len() as int)[0] == b[i]);
}

proof fn lemma_boundary_at_ascii(b: Seq<u8>, i: int)
    requires
        valid_utf8(b),
        0 <= i < b.len(),
        b[i] < 128,
    ensures
        is_char_boundary(b, i),
{
    is_char_boundary_iff_not_is_continuation_byte(b, i);
}

proof fn lemma_floor_boundary(b: Seq<u8>, i: int)
    requires
        valid_utf8(b),
    ensures
        0 <= floor_boundary(b, i) <= b.len(),
        i >= 0 ==> floor_boundary(b, i) <= i,
        is_char_boundary(b, floor_boundary(b, i)),
    decreases i,
{
    is_char_boundary_start_end_of_seq(b);
    if 0 < i < b.len() && !is_char_boundary(b, i) {
        lemma_floor_boundary(b, i - 1);
    }
}

proof fn lemma_ceil_boundary(b: Seq<u8>, i: int)
    requires
        valid_utf8(b),
        i >= 0,
    ensures
        0 <= ceil_boundary(b, i) <= b.len(),
        i <= b.len() ==> i <= ceil_boundary(b, i),
        is_char_boundary(b, ceil_boundary(b, i)),
    decreases b.len() - i,
{
    is_char_boundary_start_end_of_seq(b);
    if i < b.len() && !is_char_boundary(b, i) {
        lemma_ceil_boundary(b, i + 1);
    }
}

proof fn lemma_last_newline(b: Seq<u8>, k: int)
    ensures
        last_newline_before(b, k) matches Some(i) ==> 0 <= i < k && i < b.len() && b[i] == 10u8,
    decreases k,
{
    if 0 < k <= b.len() && b[k - 1] != 10u8 {
        lemma_last_newline(b, k - 1);
    }
}

proof fn lemma_first_inner_newline(b: Seq<u8>, k: int)
    ensures
        first_inner_newline_from(b, k) matches Some(i) ==> k <= i && i + 1 < b.len() && b[i]
            == 10u8,
    decreases b.len() - k,
{
    if !(k < 0 || k + 1 >= b.len()) && b[k] != 10u8 {
        lemma_first_inner_newline(b, k + 1);
    }
}

proof fn lemma_strip_newlines_before(b: Seq<u8>, e: int)
    requires
        0 <= e <= b.len(),
    ensures
        0 <= strip_newlines_before(b, e) <= e,
        strip_newlines_before(b, e) < e ==> b[strip_newlines_before(b, e)] == 10u8,
    decreases e,
{
    if 0 < e && b[e - 1] == 10u8 {
        lemma_strip_newlines_before(b, e - 1);
    }
}

proof fn lemma_skip_newlines_from(b: Seq<u8>, k: int)
    requires
        0 <= k <= b.len(),
    ensures
        k <= skip_newlines_from(b, k) <= b.len(),
        k < skip_newlines_from(b, k) ==> b[skip_newlines_from(b, k) - 1] == 10u8,
    decreases b.len() - k,
{
    if k < b.len() && b[k] == 10u8 {
        lemma_skip_newlines_from(b, k + 1);
    }
}

/// The head cut is a character boundary within the budget.
proof fn lemma_head_end(b: Seq<u8>, budget: int)
    requires
        valid_utf8(b),
        budget >= 0,
    ensures
        0 <= head_end(b, budget) <= b.len(),
        b.len() > budget ==> head_end(b, budget) <= budget,
        b.len() <= budget ==> head_end(b, budget) == b.len(),
        is_char_boundary(b, head_end(b, budget)),
{
    is_char_boundary_start_end_of_seq(b);
    if b.len() > budget {
        lemma_last_newline(b, budget);
        match last_newline_before(b, budget) {
            Some(i) => {
                lemma_strip_newlines_before(b, i + 1);
                let e = strip_newlines_before(b, i + 1);
                if e < i + 1 {
                    lemma_boundary_at_ascii(b, e);
                } else {
                    lemma_boundary_after_ascii(b, i);
                }
            },
            None => {
                lemma_floor_boundary(b, budget);
            },
        }
    }
}

/// The tail cut is a character boundary that leaves at most `budget` bytes.
proof fn lemma_tail_start(b: Seq<u8>, budget: int)
    requires
        valid_utf8(b),
        budget >= 0,
    ensures
        0 <= tail_start(b, budget) <= b.len(),
        b.len() > budget ==> b.len() - tail_start(b, budget) <= budget,
        b.len() <= budget ==> tail_start(b, budget) == 0,
        is_char_boundary(b, tail_start(b, budget)),
{
    is_char_boundary_start_end_of_seq(b);
    if b.len() > budget {
        lemma_first_inner_newline(b, b.len() - budget - 1);
        match first_inner_newline_from(b, b.len() - budget - 1) {
            Some(i) => {
                lemma_skip_newlines_from(b, i + 1);
                let k = skip_newlines_from(b, i + 1);
                lemma_boundary_after_ascii(b, k - 1);
            },
            None => {
                lemma_ceil_boundary(b, b.len() - budget);
            },
        }
    }
}

// ---------------------------------------------------------------------------
// Implementation
// ---------------------------------------------------------------------------

/// Largest char boundary ≤ index.
pub fn floor_char_boundary(s: &str, index: usize) -> (r: usize)
    ensures
        r as int == floor_boundary(s.spec_bytes(), index as int),
        is_char_boundary(s.spec_bytes(), r as int),
        r <= index,
{
    broadcast use encode_utf8_valid_utf8;

    let ghost b = s.spec_bytes();
    proof {
        lemma_floor_boundary(b, index as int);
        is_char_boundary_start_end_of_seq(b);
    }
    let n = s.as_bytes().len();
    if index >= n {
        return n;
    }
    let mut i: usize = index;
    while i > 0 && !s.is_char_boundary(i)
        invariant
            i <= index < n,
            n == b.len(),
            b == s.spec_bytes(),
            valid_utf8(b),
            floor_boundary(b, i as int) == floor_boundary(b, index as int),
        decreases i,
    {
        i -= 1;
    }
    i
}

/// Smallest char boundary ≥ index.
pub fn ceil_char_boundary(s: &str, index: usize) -> (r: usize)
    ensures
        r as int == ceil_boundary(s.spec_bytes(), index as int),
        is_char_boundary(s.spec_bytes(), r as int),
        r <= s.spec_bytes().len(),
{
    broadcast use encode_utf8_valid_utf8;

    let ghost b = s.spec_bytes();
    proof {
        lemma_ceil_boundary(b, index as int);
        is_char_boundary_start_end_of_seq(b);
    }
    let n = s.as_bytes().len();
    let mut i: usize = if index < n {
        index
    } else {
        n
    };
    while i < n && !s.is_char_boundary(i)
        invariant
            i <= n,
            n == b.len(),
            b == s.spec_bytes(),
            valid_utf8(b),
            ceil_boundary(b, i as int) == ceil_boundary(b, index as int),
        decreases n - i,
    {
        i += 1;
    }
    i
}

/// Byte offsets where each line begins (handles `\n` and `\r\n`).
pub fn line_starts(s: &str) -> (r: Vec<usize>)
    ensures
        r@.map_values(|x: usize| x as int) == line_starts_spec(s.spec_bytes()),
{
    let b = s.as_bytes();
    let n = b.len();
    let mut starts: Vec<usize> = Vec::new();
    if n == 0 {
        assert(starts@.map_values(|x: usize| x as int) == Seq::<int>::empty());
        return starts;
    }
    starts.push(0);
    let mut k: usize = 0;
    while k < n
        invariant
            n == b@.len(),
            k <= n,
            starts@.map_values(|x: usize| x as int) == seq![0int] + newline_successors(
                b@,
                k as int,
            ),
        decreases n - k,
    {
        let ghost old_starts = starts@;
        k += 1;
        if b[k - 1] == 10 && k < n {
            starts.push(k);
            assert(starts@.map_values(|x: usize| x as int) =~= old_starts.map_values(
                |x: usize| x as int,
            ).push(k as int));
        }
    }
    starts
}

/// The characters of `s` from byte `a` up to byte `b`, both boundaries.
fn byte_slice_chars(s: &str, a: usize, b: usize) -> (r: Vec<char>)
    requires
        a <= b <= s.spec_bytes().len(),
        is_char_boundary(s.spec_bytes(), a as int),
        is_char_boundary(s.spec_bytes(), b as int),
    ensures
        r@ == decode_utf8(s.spec_bytes().subrange(a as int, b as int)),
{
    broadcast use encode_utf8_valid_utf8, encode_utf8_decode_utf8, valid_utf8_split;

    let ghost bytes = s.spec_bytes();
    let (front, _) = s.split_at(b);
    assert(front.spec_bytes() == bytes.subrange(0, b as int));
    proof {
        assert(valid_utf8(bytes.subrange(0, b as int)));
        assert(bytes.subrange(0, b as int).subrange(0, a as int) == bytes.subrange(0, a as int));
        assert(is_char_boundary(front.spec_bytes(), a as int)) by {
            lemma_boundary_prefix(bytes, b as int, a as int);
        }
    }
    let (_, middle) = front.split_at(a);
    assert(middle.spec_bytes() == bytes.subrange(a as int, b as int));
    assert(decode_utf8(encode_utf8(middle@)) == middle@);
    chars_of(middle)
}

/// A character boundary below `e` stays one in the first `e` bytes.
proof fn lemma_boundary_prefix(b: Seq<u8>, e: int, a: int)
    requires
        valid_utf8(b),
        0 <= a <= e <= b.len(),
        is_char_boundary(b, e),
        is_char_boundary(b, a),
    ensures
        is_char_boundary(b.subrange(0, e), a),
    decreases b.len(),
{
    valid_utf8_split(b, e);
    if a > 0 {
        let l = length_of_first_scalar(b);
        let p = pop_first_scalar(b);
        let f = b.subrange(0, e);
        assert(is_char_boundary(p, a - l));
        assert(is_char_boundary(p, e - l));
        lemma_boundary_prefix(p, e - l, a - l);
        assert(f[0] == b[0]);
        assert(length_of_first_scalar(f) == l) by {
            assert(e >= l) by {
                assert(is_char_boundary(p, e - l));
            }
            assert(f.subrange(0, l) == b.subrange(0, l));
        }
        assert(pop_first_scalar(f) == p.subrange(0, e - l));
    }
}

fn last_newline_before_exec(b: &[u8], k: usize) -> (r: Option<usize>)
    requires
        k <= b@.len(),
    ensures
        match last_newline_before(b@, k as int) {
            Some(i) => r == Some(i as usize),
            None => r is None,
        },
{
    let mut j: usize = k;
    while j > 0
        invariant
            j <= k <= b@.len(),
            last_newline_before(b@, j as int) == last_newline_before(b@, k as int),
        decreases j,
    {
        if b[j - 1] == 10 {
            return Some(j - 1);
        }
        j -= 1;
    }
    None
}

fn first_inner_newline_from_exec(b: &[u8], k: usize) -> (r: Option<usize>)
    ensures
        match first_inner_newline_from(b@, k as int) {
            Some(i) => r == Some(i as usize),
            None => r is None,
        },
{
    let n = b.len();
    let mut j: usize = k;
    while j < n && j + 1 < n
        invariant
            n == b@.len(),
            k <= j,
            first_inner_newline_from(b@, j as int) == first_inner_newline_from(b@, k as int),
        decreases n - j,
    {
        if b[j] == 10 {
            return Some(j);
        }
        j += 1;
    }
    None
}

fn strip_newlines_before_exec(b: &[u8], e: usize) -> (r: usize)
    requires
        e <= b@.len(),
    ensures
        r as int == strip_newlines_before(b@, e as int),
{
    let mut j: usize = e;
    while j > 0 && b[j - 1] == 10
        invariant
            j <= e <= b@.len(),
            strip_newlines_before(b@, j as int) == strip_newlines_before(b@, e as int),
        decreases j,
    {
        j -= 1;
    }
    j
}

fn skip_newlines_from_exec(b: &[u8], k: usize) -> (r: usize)
    requires
        k <= b@.len(),
    ensures
        r as int == skip_newlines_from(b@, k as int),
{
    let n = b.len();
    let mut j: usize = k;
    while j < n && b[j] == 10
        invariant
            n == b@.len(),
            k <= j <= n,
            skip_newlines_from(b@, j as int) == skip_newlines_from(b@, k as int),
        decreases n - j,
    {
        j += 1;
    }
    j
}

fn head_end_exec(s: &str, budget: usize) -> (r: usize)
    ensures
        r as int == head_end(s.spec_bytes(), budget as int),
        r <= s.spec_bytes().len(),
        is_char_boundary(s.spec_bytes(), r as int),
{
    broadcast use encode_utf8_valid_utf8;

    proof {
        lemma_head_end(s.spec_bytes(), budget as int);
    }
    let b = s.as_bytes();
    let n = b.len();
    if n <= budget {
        return n;
    }
    match last_newline_before_exec(b, budget) {
        Some(i) => {
            proof {
                lemma_last_newline(b@, budget as int);
            }
            strip_newlines_before_exec(b, i + 1)
        },
        None => floor_char_boundary(s, budget),
    }
}

fn tail_start_exec(s: &str, budget: usize) -> (r: usize)
    ensures
        r as int == tail_start(s.spec_bytes(), budget as int),
        r <= s.spec_bytes().len(),
        is_char_boundary(s.spec_bytes(), r as int),
{
    broadcast use encode_utf8_valid_utf8;

    proof {
        lemma_tail_start(s.spec_bytes(), budget as int);
    }
    let b = s.as_bytes();
    let n = b.len();
    if n <= budget {
        return 0;
    }
    match first_inner_newline_from_exec(b, n - budget - 1) {
        Some(i) => {
            proof {
                lemma_first_inner_newline(b@, n - budget - 1);
            }
            skip_newlines_from_exec(b, i + 1)
        },
        None => ceil_char_boundary(s, n - budget),
    }
}

/// Take up to `budget` bytes from the start, preferring whole lines.
/// Falls back to a hard byte slice if no line boundary fits.
pub fn take_head(s: &str, budget: usize) -> (r: &str)
    ensures
        r@ == decode_utf8(s.spec_bytes().subrange(0, head_end(s.spec_bytes(), budget as int))),
{
    broadcast use encode_utf8_decode_utf8;

    let e = head_end_exec(s, budget);
    let (front, _) = s.split_at(e);
    assert(decode_utf8(encode_utf8(front@)) == front@);
    front
}

/// Take up to `budget` bytes from the end, preferring whole lines.
/// Falls back to a hard byte slice if no line boundary fits.
pub fn take_tail(s: &str, budget: usize) -> (r: &str)
    ensures
        r@ == decode_utf8(
            s.spec_bytes().subrange(tail_start(s.spec_bytes(), budget as int), s.spec_bytes().len() as int),
        ),
{
    broadcast use encode_utf8_decode_utf8;

    let k = tail_start_exec(s, budget);
    let (_, back) = s.split_at(k);
    assert(decode_utf8(encode_utf8(back@)) == back@);
    back
}

fn marker_exec(n: usize) -> (m: Vec<char>)
    ensures
        m@ == marker(n as nat),
{
    let mut m: Vec<char> = Vec::new();
    append_str(&mut m, "\n\n... [");
    let digits = decimal_exec(n as u64);
    append_chars(&mut m, digits.as_slice());
    append_str(&mut m, " bytes truncated] ...\n\n");
    proof {
        reveal_strlit("\n\n... [");
        reveal_strlit(" bytes truncated] ...\n\n");
    }
    assert(m@ =~= marker(n as nat));
    m
}

/// Truncate snapshot to at most `max_bytes` bytes.
///
/// Tries to keep whole lines from the head and tail so both early and recent
/// context survive. If the content has very long lines (e.g. a single wrapped
/// terminal line), falls back to a hard byte split at a UTF-8 character
/// boundary so the budget is always reasonably filled.
pub fn truncate_snapshot(raw: &str, max_bytes: usize) -> (r: String)
    ensures
        r@ == truncate_spec(raw@, max_bytes as nat),
        raw.spec_bytes().len() <= max_bytes ==> r@ == raw@,
{
    broadcast use encode_utf8_valid_utf8;

    let b = raw.as_bytes();
    let n = b.len();
    if n <= max_bytes {
        return raw.to_owned();
    }
    let m = marker_exec(n - max_bytes);
    if max_bytes <= m.len() {
        let boundary = floor_char_boundary(raw, max_bytes);
        proof {
            is_char_boundary_start_end_of_seq(b@);
        }
        let head = byte_slice_chars(raw, 0, boundary);
        return string_of(head.as_slice());
    }
    let half = (max_bytes - m.len()) / 2;
    let he = head_end_exec(raw, half);
    let ts = tail_start_exec(raw, half);
    proof {
        is_char_boundary_start_end_of_seq(b@);
    }
    let mut out = byte_slice_chars(raw, 0, he);
    append_chars(&mut out, m.as_slice());
    let tail = byte_slice_chars(raw, ts, n);
    append_chars(&mut out, tail.as_slice());
    string_of(out.as_slice())
}

// ---------------------------------------------------------------------------
// Laws
// ---------------------------------------------------------------------------

proof fn lemma_encode_concat(a: Seq<char>, c: Seq<char>)
    ensures
        encode_utf8(a + c) == encode_utf8(a) + encode_utf8(c),
    decreases a.len(),
{
    if a.len() > 0 {
        lemma_encode_concat(a.drop_first(), c);
        assert((a + c).drop_first() == a.drop_first() + c);
        assert((a + c)[0] == a[0]);
    } else {
        assert(a + c == c);
    }
}

proof fn lemma_decimal_ascii(n: nat)
    ensures
        is_ascii_chars(decimal(n)),
    decreases n,
{
    if n >= 10 {
        lemma_decimal_ascii(n / 10);
        assert(is_ascii_chars(decimal(n / 10).push(digit_char(n % 10)))) by {
            let d = decimal(n / 10).push(digit_char(n % 10));
            assert forall|i| 0 <= i < d.len() implies '\0' <= #[trigger] d[i] <= '\u{7f}' by {
                if i < d.len() - 1 {
                    assert(d[i] == decimal(n / 10)[i]);
                }
            }
        }
    }
}

proof fn lemma_marker_bytes(n: nat)
    ensures
        encode_utf8(marker(n)).len() == marker(n).len(),
{
    lemma_decimal_ascii(n);
    let m = marker(n);
    assert(is_ascii_chars(m)) by {
        assert forall|i| 0 <= i < m.len() implies '\0' <= #[trigger] m[i] <= '\u{7f}' by {
            let k = decimal(n).len();
            if 7 <= i < 7 + k {
                assert(m[i] == decimal(n)[i - 7]);
            }
        }
    }
    is_ascii_chars_encode_utf8(m);
}

/// A truncated snapshot never exceeds its byte budget, and a snapshot that
/// fits is returned unchanged.
pub proof fn law_truncate_within_budget(s: Seq<char>, max: nat)
    ensures
        encode_utf8(truncate_spec(s, max)).len() <= max,
        encode_utf8(s).len() <= max ==> truncate_spec(s, max) == s,
{
    broadcast use encode_utf8_valid_utf8, decode_utf8_encode_utf8, valid_utf8_split;

    let b = encode_utf8(s);
    if b.len() > max {
        let m = marker((b.len() - max) as nat);
        lemma_marker_bytes((b.len() - max) as nat);
        if max <= m.len() {
            lemma_floor_boundary(b, max as int);
            let f = floor_boundary(b, max as int);
            assert(valid_utf8(b.subrange(0, f)));
        } else {
            let half = (max - m.len()) / 2;
            lemma_head_end(b, half);
            lemma_tail_start(b, half);
            let x = b.subrange(0, head_end(b, half));
            let y = b.subrange(tail_start(b, half), b.len() as int);
            assert(valid_utf8(x));
            assert(valid_utf8(y));
            lemma_encode_concat(decode_utf8(x), m);
            lemma_encode_concat(decode_utf8(x) + m, decode_utf8(y));
        }
    }
}

/// The bytes of a truncated snapshot: the head cut, the marker, the tail
/// cut, each as bytes of the original.
proof fn lemma_truncated_bytes(s: Seq<char>, max: nat)
    requires
        encode_utf8(s).len() > max,
        max > marker((encode_utf8(s).len() - max) as nat).len(),
    ensures
        ({
            let b = encode_utf8(s);
            let m = marker((b.len() - max) as nat);
            let half = (max - m.len()) / 2;
            encode_utf8(truncate_spec(s, max)) == b.subrange(0, head_end(b, half)) + encode_utf8(m)
                + b.subrange(tail_start(b, half), b.len() as int)
        }),
{
    broadcast use encode_utf8_valid_utf8, decode_utf8_encode_utf8, valid_utf8_split;

    let b = encode_utf8(s);
    let m = marker((b.len() - max) as nat);
    let half = (max - m.len()) / 2;
    lemma_head_end(b, half);
    lemma_tail_start(b, half);
    let x = b.subrange(0, head_end(b, half));
    let y = b.subrange(tail_start(b, half), b.len() as int);
    assert(valid_utf8(x));
    assert(valid_utf8(y));
    lemma_encode_concat(decode_utf8(x), m);
    lemma_encode_concat(decode_utf8(x) + m, decode_utf8(y));
}

/// Searching for an inner newline from `k` finds one no later than `j`.
proof fn lemma_inner_newline_by(b: Seq<u8>, k: int, j: int)
    requires
        0 <= k <= j,
        j + 1 < b.len(),
        b[j] == 10u8,
    ensures
        first_inner_newline_from(b, k) matches Some(i) && k <= i <= j,
    decreases j - k,
{
    if b[k] != 10u8 {
        lemma_inner_newline_by(b, k + 1, j);
    }
}

/// Skipping newlines from `k` stops at or before `e`, a byte that is not one.
proof fn lemma_skip_stops_by(b: Seq<u8>, k: int, e: int)
    requires
        0 <= k <= e < b.len(),
        b[e] != 10u8,
    ensures
        skip_newlines_from(b, k) <= e,
    decreases e - k,
{
    if k < e && b[k] == 10u8 {
        lemma_skip_stops_by(b, k + 1, e);
    }
}

/// Searching back for a newline below `k` finds one at or after `j`.
proof fn lemma_last_newline_from(b: Seq<u8>, k: int, j: int)
    requires
        0 <= j < k <= b.len(),
        b[j] == 10u8,
    ensures
        last_newline_before(b, k) matches Some(i) && j <= i < k,
    decreases k - j,
{
    if b[k - 1] != 10u8 {
        lemma_last_newline_from(b, k - 1, j);
    }
}

/// Stripping newlines back from `e` stops at or after `j`, when the byte
/// before `j` is not one.
proof fn lemma_strip_stops_by(b: Seq<u8>, e: int, j: int)
    requires
        0 < j <= e <= b.len(),
        b[j - 1] != 10u8,
    ensures
        strip_newlines_before(b, e) >= j,
    decreases e - j,
{
    if e > j && b[e - 1] == 10u8 {
        lemma_strip_stops_by(b, e - 1, j);
    }
}

/// Truncation keeps both early and recent context. Say the snapshot's bytes
/// are `x`, a newline, then `y`, and it is over budget with room beyond the
/// marker. When `y` (the last lines, not starting with a blank line) fits in
/// half the room left by the marker, the result ends with `y`; when `x` (the
/// first lines, not ending with a blank line) fits below that half, the
/// result starts with `x`.
pub proof fn law_truncate_keeps_head_and_tail(s: Seq<char>, max: nat, x: Seq<u8>, y: Seq<u8>)
    requires
        encode_utf8(s) == x + seq![10u8] + y,
        encode_utf8(s).len() > max,
        max > marker((encode_utf8(s).len() - max) as nat).len(),
    ensures
        ({
            let r = encode_utf8(truncate_spec(s, max));
            let half = (max - marker((encode_utf8(s).len() - max) as nat).len()) / 2;
            &&& (y.len() > 0 && y[0] != 10u8 && y.len() <= half) ==> r.len() >= y.len() && r.subrange(
                r.len() - y.len(),
                r.len() as int,
            ) == y
            &&& (x.len() > 0 && x.last() != 10u8 && x.len() < half) ==> r.len() >= x.len()
                && r.subrange(0, x.len() as int) == x
        }),
{
    broadcast use encode_utf8_valid_utf8;

    let b = encode_utf8(s);
    let m = marker((b.len() - max) as nat);
    let half = (max - m.len()) / 2;
    let r = encode_utf8(truncate_spec(s, max));
    lemma_truncated_bytes(s, max);
    lemma_head_end(b, half);
    lemma_tail_start(b, half);
    let j = x.len() as int;
    assert(b[j] == 10u8);
    let he = head_end(b, half);
    let ts = tail_start(b, half);
    let hb = b.subrange(0, he);
    let tb = b.subrange(ts, b.len() as int);
    assert(r == hb + encode_utf8(m) + tb);
    if y.len() > 0 && y[0] != 10u8 && y.len() <= half {
        assert(b[j + 1] == y[0]);
        lemma_inner_newline_by(b, b.len() - half - 1, j);
        let i = first_inner_newline_from(b, b.len() - half - 1)->0;
        lemma_skip_stops_by(b, i + 1, j + 1);
        assert(ts <= j + 1);
        assert(r.subrange(r.len() - y.len(), r.len() as int) =~= y) by {
            assert forall|k: int| 0 <= k < y.len() implies r.subrange(r.len() - y.len(), r.len() as int)[k]
                == y[k] by {
                assert(r[r.len() - y.len() + k] == tb[tb.len() - y.len() + k]);
                assert(b[j + 1 + k] == y[k]);
            }
        }
    }
    if x.len() > 0 && x.last() != 10u8 && x.len() < half {
        assert(b[j - 1] == x.last());
        lemma_last_newline_from(b, half, j);
        let i = last_newline_before(b, half)->0;
        lemma_strip_stops_by(b, i + 1, j);
        assert(he >= j);
        assert(r.subrange(0, x.len() as int) =~= x) by {
            assert forall|k: int| 0 <= k < x.len() implies r.subrange(0, x.len() as int)[k] == x[k] by {
                assert(r[k] == hb[k]);
                assert(b[k] == x[k]);
            }
        }
    }
}

} // verus!
