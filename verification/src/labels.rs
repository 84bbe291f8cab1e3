//! Hotkey labels: slugs, label prefixes, file stems and animation paths.
use vstd::prelude::*;
use crate::text::{
    chars_of, copy_range, ends_with, has_prefix, has_suffix,
    index_of_from, index_of_exec, matches_at_exec, starts_with, string_of, trim, trimmed,
};
use crate::paths::{file_name_of, file_name_text, file_stem_of, file_stem_text};

verus! {

// ---------------------------------------------------------------------------
// Slugs
// ---------------------------------------------------------------------------

/// What `str::to_lowercase` returns for `s` (full Unicode lower-casing).
pub uninterp spec fn lowercase(s: Seq<char>) -> Seq<char>;

/// Lower-cases `s` (`str::to_lowercase`); the contract names the result.
#[verifier::external_body]
fn to_lowercase(s: &str) -> (r: String)
    ensures
        r@ == lowercase(s@),
{
    s.to_lowercase()
}

pub open spec fn is_ascii_alnum(c: char) -> bool {
    let u = c as u32;
    (48 <= u <= 57) || (65 <= u <= 90) || (97 <= u <= 122)
}

pub fn is_ascii_alnum_exec(c: char) -> (b: bool)
    ensures
        b == is_ascii_alnum(c),
{
    let u = c as u32;
    (48 <= u && u <= 57) || (65 <= u && u <= 90) || (97 <= u && u <= 122)
}

/// The slug built from `s` so far, and whether it ends with a separator
/// just added: ASCII letters and digits are kept, and each run of other
/// characters after the first kept one becomes a single `_`.
pub open spec fn slug_state(s: Seq<char>) -> (Seq<char>, bool)
    decreases s.len(),
{
    if s.len() == 0 {
        (Seq::empty(), false)
    } else {
        let st = slug_state(s.drop_last());
        let c = s.last();
        if is_ascii_alnum(c) {
            (st.0.push(c), false)
        } else if !st.1 && st.0.len() > 0 {
            (st.0.push('_'), true)
        } else {
            st
        }
    }
}

/// `s` without trailing `c`s.
pub open spec fn trim_char_end(s: Seq<char>, c: char) -> Seq<char>
    decreases s.len(),
{
    if s.len() > 0 && s.last() == c {
        trim_char_end(s.drop_last(), c)
    } else {
        s
    }
}

/// `s` without leading `c`s.
pub open spec fn trim_char_start(s: Seq<char>, c: char) -> Seq<char>
    decreases s.len(),
{
    if s.len() > 0 && s[0] == c {
        trim_char_start(s.drop_first(), c)
    } else {
        s
    }
}

/// The slug of already lower-cased text, without leading or trailing `_`.
pub open spec fn slug_of(s: Seq<char>) -> Seq<char> {
    trim_char_start(trim_char_end(slug_state(s).0, '_'), '_')
}

/// The slug of `s`: lower-cased, then reduced as `slug_of` says.
pub open spec fn slugify_spec(s: Seq<char>) -> Seq<char> {
    slug_of(lowercase(s))
}

fn trim_char_bounds(v: &[char], c: char) -> (r: (usize, usize))
    ensures
        r.0 <= r.1 <= v@.len(),
        v@.subrange(r.0 as int, r.1 as int) == trim_char_start(trim_char_end(v@, c), c),
{
    let mut n: usize = v.len();
    assert(v@.subrange(0, n as int) == v@);
    while n > 0 && v[n - 1] == c
        invariant
            n <= v@.len(),
            trim_char_end(v@.subrange(0, n as int), c) == trim_char_end(v@, c),
        decreases n,
    {
        assert(v@.subrange(0, n as int).drop_last() == v@.subrange(0, n - 1));
        n -= 1;
    }
    let ghost e = v@.subrange(0, n as int);
    let mut k: usize = 0;
    assert(e.subrange(0, n as int) == e);
    while k < n && v[k] == c
        invariant
            k <= n <= v@.len(),
            e == v@.subrange(0, n as int),
            trim_char_end(v@, c) == e,
            trim_char_start(e.subrange(k as int, n as int), c) == trim_char_start(e, c),
        decreases n - k,
    {
        assert(e.subrange(k as int, n as int).drop_first() == e.subrange(k + 1, n as int));
        k += 1;
    }
    assert(e.subrange(k as int, n as int) == v@.subrange(k as int, n as int));
    (k, n)
}

/// The slug of `s`.
pub fn slugify(s: &str) -> (r: String)
    ensures
        r@ == slugify_spec(s@),
{
    let lower = to_lowercase(s);
    let v = chars_of(lower.as_str());
    let mut out: Vec<char> = Vec::new();
    let mut prev = false;
    let mut i: usize = 0;
    while i < v.len()
        invariant
            i <= v@.len(),
            (out@, prev) == slug_state(v@.subrange(0, i as int)),
        decreases v@.len() - i,
    {
        let ghost pre = v@.subrange(0, i as int);
        let ghost post = v@.subrange(0, i + 1);
        assert(post.drop_last() == pre);
        assert(post.last() == v@[i as int]);
        let c = v[i];
        if is_ascii_alnum_exec(c) {
            out.push(c);
            prev = false;
        } else if !prev && out.len() > 0 {
            out.push('_');
            prev = true;
        }
        i += 1;
    }
    assert(v@.subrange(0, v@.len() as int) == v@);
    let (a, b) = trim_char_bounds(out.as_slice(), '_');
    let t = copy_range(out.as_slice(), a, b);
    string_of(t.as_slice())
}

/// The lookup key for a user-supplied name: its slug.
pub fn normalize_lookup_key(name: &str) -> (r: String)
    ensures
        r@ == slugify_spec(name@),
{
    slugify(name)
}

// ---------------------------------------------------------------------------
// Labels
// ---------------------------------------------------------------------------

/// The prefixes that a hotkey label may carry, in the order they are tried.
pub open spec fn label_prefixes() -> Seq<Seq<char>> {
    seq![
        seq!['M', 'o', 't', 'i', 'o', 'n', ':'],
        seq!['m', 'o', 't', 'i', 'o', 'n', ':'],
        seq!['E', 'x', 'p', 'r', 'e', 's', 's', 'i', 'o', 'n', ':'],
        seq!['e', 'x', 'p', 'r', 'e', 's', 's', 'i', 'o', 'n', ':'],
        seq!['A', 'n', 'i', 'm', ':'],
        seq!['A', 'n', 'i', 'm', 'a', 't', 'i', 'o', 'n', ':'],
        seq!['I', 'd', 'l', 'e', ':'],
        seq!['i', 'd', 'l', 'e', ':'],
    ]
}

/// `s` without the first of `ps[i..]` that it starts with, trimmed again;
/// `s` itself when it starts with none of them.
pub open spec fn strip_label_prefix(s: Seq<char>, ps: Seq<Seq<char>>, i: int) -> Seq<char>
    decreases ps.len() - i,
{
    if i < 0 || i >= ps.len() {
        s
    } else if has_prefix(s, ps[i]) {
        trim(s.subrange(ps[i].len() as int, s.len() as int))
    } else {
        strip_label_prefix(s, ps, i + 1)
    }
}

/// The key a hotkey label stands for: the slug of the trimmed label without
/// its kind prefix; none when that slug is empty.
pub open spec fn normalize_label_spec(name: Seq<char>) -> Option<Seq<char>> {
    let slug = slugify_spec(strip_label_prefix(trim(name), label_prefixes(), 0));
    if slug.len() == 0 {
        None
    } else {
        Some(slug)
    }
}

fn label_prefix(i: usize) -> (p: Vec<char>)
    requires
        i < 8,
    ensures
        p@ == label_prefixes()[i as int],
{
    let p = if i == 0 {
        chars_of("Motion:")
    } else if i == 1 {
        chars_of("motion:")
    } else if i == 2 {
        chars_of("Expression:")
    } else if i == 3 {
        chars_of("expression:")
    } else if i == 4 {
        chars_of("Anim:")
    } else if i == 5 {
        chars_of("Animation:")
    } else if i == 6 {
        chars_of("Idle:")
    } else {
        chars_of("idle:")
    };
    proof {
        reveal_strlit("Motion:");
        reveal_strlit("motion:");
        reveal_strlit("Expression:");
        reveal_strlit("expression:");
        reveal_strlit("Anim:");
        reveal_strlit("Animation:");
        reveal_strlit("Idle:");
        reveal_strlit("idle:");
    }
    assert(p@ =~= label_prefixes()[i as int]);
    p
}

/// The key that a hotkey label stands for, if any.
pub fn normalize_label(name: &str) -> (r: Option<String>)
    ensures
        match normalize_label_spec(name@) {
            Some(k) => r matches Some(x) && x@ == k,
            None => r is None,
        },
{
    let v = chars_of(name);
    let mut s = trimmed(v.as_slice());
    let ghost t = s@;
    let mut i: usize = 0;
    let mut stripped = false;
    while i < 8 && !stripped
        invariant
            i <= 8,
            t == trim(name@),
            !stripped ==> s@ == t,
            !stripped ==> strip_label_prefix(t, label_prefixes(), i as int)
                == strip_label_prefix(t, label_prefixes(), 0),
            stripped ==> s@ == strip_label_prefix(t, label_prefixes(), 0),
        decreases 8 - i + (if stripped { 0int } else { 1int }),
    {
        let p = label_prefix(i);
        if starts_with(s.as_slice(), p.as_slice()) {
            let rest = copy_range(s.as_slice(), p.len(), s.len());
            s = trimmed(rest.as_slice());
            stripped = true;
        } else {
            i += 1;
        }
    }
    let text = string_of(s.as_slice());
    let slug = slugify(text.as_str());
    if slug.as_str().is_empty() {
        None
    } else {
        Some(slug)
    }
}

/// What `char::is_alphabetic` returns for `c` (the Unicode `Alphabetic`
/// property).
pub uninterp spec fn alphabetic(c: char) -> bool;

/// `c` has the Unicode `Alphabetic` property (`char::is_alphabetic`); the
/// contract names the result.
#[verifier::external_body]
fn is_alphabetic(c: char) -> (b: bool)
    ensures
        b == alphabetic(c),
{
    c.is_alphabetic()
}

/// A slug is a useful key when it holds a letter.
pub fn label_key_is_useful(slug: &str) -> (r: bool)
    ensures
        r == exists|i: int| 0 <= i < slug@.len() && alphabetic(#[trigger] slug@[i]),
{
    let v = chars_of(slug);
    let mut i: usize = 0;
    while i < v.len()
        invariant
            i <= v@.len(),
            v@ == slug@,
            forall|j: int| 0 <= j < i ==> !alphabetic(#[trigger] v@[j]),
        decreases v@.len() - i,
    {
        if is_alphabetic(v[i]) {
            return true;
        }
        i += 1;
    }
    false
}

// ---------------------------------------------------------------------------
// File stems
// ---------------------------------------------------------------------------

pub open spec fn has_dot(s: Seq<char>) -> bool {
    index_of_from(s, '.', 0) is Some
}

/// Repeatedly taking the stem of `s` while it holds a dot ends: each step
/// either finds no file name or shortens the text.
pub open spec fn stem_walk_ends(s: Seq<char>) -> bool
    decreases s.len(),
{
    if !has_dot(s) {
        true
    } else {
        match file_stem_of(s) {
            None => true,
            Some(t) => t.len() < s.len() && stem_walk_ends(t),
        }
    }
}

/// Where repeatedly taking the stem of `s` while it holds a dot arrives:
/// the first dot-free stem, or none when a step finds no file name.
pub open spec fn stem_walk(s: Seq<char>) -> Option<Seq<char>>
    decreases s.len(),
{
    if !has_dot(s) {
        Some(s)
    } else {
        match file_stem_of(s) {
            None => None,
            Some(t) => if t.len() < s.len() {
                stem_walk(t)
            } else {
                None
            },
        }
    }
}

/// Taking the stem of `file` for a key comes to an end.
pub open spec fn file_stem_key_ends(file: Seq<char>) -> bool {
    file.len() == 0 || match file_stem_of(file) {
        Some(t) => stem_walk_ends(t),
        None => true,
    }
}

/// The key taken from a hotkey's animation file: the slug of the file's
/// stem with every extension removed; none when the file is empty, has no
/// file name, or the slug is empty.
pub open spec fn file_stem_key_spec(file: Seq<char>) -> Option<Seq<char>> {
    if file.len() == 0 {
        None
    } else {
        match file_stem_of(file) {
            None => None,
            Some(t) => match stem_walk(t) {
                None => None,
                Some(stem) => {
                    let slug = slugify_spec(stem);
                    if slug.len() == 0 {
                        None
                    } else {
                        Some(slug)
                    }
                },
            },
        }
    }
}

fn file_stem_chars(p: &[char]) -> (r: Option<Vec<char>>)
    ensures
        match file_stem_of(p@) {
            Some(t) => r matches Some(x) && x@ == t,
            None => r is None,
        },
{
    let text = string_of(p);
    match file_stem_text(text.as_str()) {
        Some(t) => Some(chars_of(t.as_str())),
        None => None,
    }
}

/// Whether taking the stem of `file` for a key comes to an end.
pub fn file_stem_walk_ends(file: &str) -> (r: bool)
    ensures
        r == file_stem_key_ends(file@),
{
    let v = chars_of(file);
    if v.len() == 0 {
        return true;
    }
    let mut stem = match file_stem_chars(v.as_slice()) {
        Some(t) => t,
        None => return true,
    };
    let ghost first = stem@;
    loop
        invariant
            file_stem_of(v@) == Some(first),
            v@ == file@,
            v@.len() > 0,
            stem_walk_ends(first) == stem_walk_ends(stem@),
        decreases stem@.len(),
    {
        if index_of_exec(stem.as_slice(), '.', 0).is_none() {
            return true;
        }
        match file_stem_chars(stem.as_slice()) {
            None => return true,
            Some(t) => {
                if t.len() >= stem.len() {
                    return false;
                }
                stem = t;
            },
        }
    }
}

/// The key taken from a hotkey's animation file.
pub fn file_stem_key(file: &str) -> (r: Option<String>)
    requires
        file_stem_key_ends(file@),
    ensures
        match file_stem_key_spec(file@) {
            Some(k) => r matches Some(x) && x@ == k,
            None => r is None,
        },
{
    let v = chars_of(file);
    if v.len() == 0 {
        return None;
    }
    let mut stem = match file_stem_chars(v.as_slice()) {
        Some(t) => t,
        None => return None,
    };
    let ghost first = stem@;
    proof {
        assert(stem_walk_ends(first));
    }
    while index_of_exec(stem.as_slice(), '.', 0).is_some()
        invariant
            file_stem_of(v@) == Some(first),
            v@ == file@,
            v@.len() > 0,
            stem_walk_ends(stem@),
            stem_walk(first) == stem_walk(stem@),
        decreases stem@.len(),
    {
        match file_stem_chars(stem.as_slice()) {
            None => return None,
            Some(t) => {
                stem = t;
            },
        }
    }
    assert(stem_walk(stem@) == Some(stem@));
    let text = string_of(stem.as_slice());
    let slug = slugify(text.as_str());
    if slug.as_str().is_empty() {
        None
    } else {
        Some(slug)
    }
}

// ---------------------------------------------------------------------------
// Animation paths
// ---------------------------------------------------------------------------

/// The final component of `path`, or `path` itself when it has none
/// (`Path::file_name` with the whole path as fallback).
pub open spec fn file_basename_spec(path: Seq<char>) -> Seq<char> {
    match file_name_of(path) {
        Some(n) => n,
        None => path,
    }
}

pub fn file_basename(path: &str) -> (r: String)
    ensures
        r@ == file_basename_spec(path@),
{
    match file_name_text(path) {
        Some(n) => n,
        None => path.to_owned(),
    }
}

/// An animation event names the expected file: the same path, one path
/// ending with the other, or the same final component.
pub open spec fn animation_matches_spec(animation_name: Seq<char>, expected_file: Seq<char>) -> bool {
    animation_name == expected_file || has_suffix(animation_name, expected_file) || has_suffix(
        expected_file,
        animation_name,
    ) || file_basename_spec(animation_name) == file_basename_spec(expected_file)
}

fn eq_str_chars(a: &[char], b: &[char]) -> (r: bool)
    ensures
        r == (a@ == b@),
{
    if a.len() != b.len() {
        return false;
    }
    let r = matches_at_exec(a, b, 0);
    assert(r ==> a@.subrange(0, b@.len() as int) == b@);
    assert(a@.subrange(0, a@.len() as int) == a@);
    r
}

pub fn animation_matches(animation_name: &str, expected_file: &str) -> (r: bool)
    ensures
        r == animation_matches_spec(animation_name@, expected_file@),
{
    let a = chars_of(animation_name);
    let e = chars_of(expected_file);
    if eq_str_chars(a.as_slice(), e.as_slice()) || ends_with(a.as_slice(), e.as_slice())
        || ends_with(e.as_slice(), a.as_slice()) {
        return true;
    }
    let ba = file_basename(animation_name);
    let be = file_basename(expected_file);
    let x = chars_of(ba.as_str());
    let y = chars_of(be.as_str());
    eq_str_chars(x.as_slice(), y.as_slice())
}

} // verus!
