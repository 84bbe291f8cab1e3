//! The OSF (Open Smart Face) expression player: expressions are files of
//! fixed-size frames, read once and sent over UDP one frame at a time.
use vstd::prelude::*;
use crate::paths::{debug_path, join_path, path_debug, path_join};
use crate::text::{
    append_str, chars_of, copy_range, ends_with, has_suffix,
    sort_strings, sorted, string_of, string_views,
};
use crate::vts::{first_match, index_in, lemma_index_in};

verus! {

/// The size of one frame, in bytes.
pub const FRAME_LEN: usize = 1785;

/// The time between two frames, in milliseconds.
pub const FRAME_INTERVAL_MS: u64 = 40;

/// The frames in the contents of an expression file: its whole
/// `FRAME_LEN`-byte chunks in order; a partial chunk at the end is dropped.
pub open spec fn frames_spec(data: Seq<u8>) -> Seq<Seq<u8>> {
    Seq::new(
        (data.len() / FRAME_LEN as nat) as nat,
        |i: int| data.subrange(i * FRAME_LEN, i * FRAME_LEN + FRAME_LEN),
    )
}

pub open spec fn frame_views(v: Seq<Vec<u8>>) -> Seq<Seq<u8>> {
    v.map_values(|f: Vec<u8>| f@)
}

/// The frames in the contents of an expression file.
pub fn frames_of(data: &[u8]) -> (r: Vec<Vec<u8>>)
    ensures
        frame_views(r@) == frames_spec(data@),
{
    let n = data.len();
    let mut out: Vec<Vec<u8>> = Vec::new();
    let mut pos: usize = 0;
    let mut i: usize = 0;
    while n - pos >= FRAME_LEN
        invariant
            n == data@.len(),
            pos == i * FRAME_LEN,
            pos <= n,
            out@.len() == i,
            forall|j: int|
                0 <= j < i ==> #[trigger] frame_views(out@)[j] == data@.subrange(
                    j * FRAME_LEN,
                    j * FRAME_LEN + FRAME_LEN,
                ),
        decreases n - pos,
    {
        let frame = vstd::slice::slice_to_vec(&data[pos..pos + FRAME_LEN]);
        let ghost before = out@;
        assert(frame@ == data@.subrange(i * FRAME_LEN, i * FRAME_LEN + FRAME_LEN));
        out.push(frame);
        assert(frame_views(out@) == frame_views(before).push(frame@));
        pos = pos + FRAME_LEN;
        i = i + 1;
    }
    assert(i == n / FRAME_LEN) by (nonlinear_arith)
        requires
            pos == i * 1785,
            pos <= n,
            n - pos < 1785,
    ;
    assert(frame_views(out@) =~= frames_spec(data@));
    out
}

/// The expression a file holds: its name without `.osf.bin`; none for
/// other files.
pub open spec fn expression_stem_spec(file_name: Seq<char>) -> Option<Seq<char>> {
    if has_suffix(file_name, ".osf.bin"@) {
        Some(file_name.subrange(0, file_name.len() - 8))
    } else {
        None
    }
}

/// The expression a file holds.
pub fn expression_stem(file_name: &str) -> (r: Option<String>)
    ensures
        match expression_stem_spec(file_name@) {
            Some(s) => r matches Some(x) && x@ == s,
            None => r is None,
        },
{
    proof {
        reveal_strlit(".osf.bin");
    }
    let v = chars_of(file_name);
    let suffix = chars_of(".osf.bin");
    if ends_with(v.as_slice(), suffix.as_slice()) {
        let s = copy_range(v.as_slice(), 0, v.len() - 8);
        Some(string_of(s.as_slice()))
    } else {
        None
    }
}

/// The frames of the expressions of a directory, and the expression that
/// stands in for unknown ones.
#[derive(Debug)]
pub struct OsfPlayer {
    pub fallback_expression: String,
    pub cache: Vec<(String, Vec<Vec<u8>>)>,
}

pub open spec fn expression_names(c: Seq<(String, Vec<Vec<u8>>)>) -> Seq<Seq<char>> {
    c.map_values(|e: (String, Vec<Vec<u8>>)| e.0@)
}

/// The expressions of a directory as plain values: each name with its
/// frames, in the order first met.
pub open spec fn library_view(c: Seq<(String, Vec<Vec<u8>>)>) -> Seq<(Seq<char>, Seq<Seq<u8>>)> {
    c.map_values(|e: (String, Vec<Vec<u8>>)| (e.0@, frame_views(e.1@)))
}

/// The expressions of the files `(name, contents)` of a directory: each
/// `.osf.bin` file under its stem, a later file of the same stem replacing
/// the frames of an earlier one.
pub open spec fn library_spec(files: Seq<(String, Vec<u8>)>) -> Seq<(Seq<char>, Seq<Seq<u8>>)>
    decreases files.len(),
{
    if files.len() == 0 {
        Seq::empty()
    } else {
        let p = library_spec(files.drop_last());
        match expression_stem_spec(files.last().0@) {
            Some(stem) => {
                let names = p.map_values(|e: (Seq<char>, Seq<Seq<u8>>)| e.0);
                match index_in(names, stem) {
                    Some(i) => p.update(i, (stem, frames_spec(files.last().1@))),
                    None => p.push((stem, frames_spec(files.last().1@))),
                }
            },
            None => p,
        }
    }
}

/// The message when the fallback expression has no file in `dir`.
pub open spec fn missing_fallback_message(dir: Seq<char>, fallback: Seq<char>) -> Seq<char> {
    "Fallback expression file does not exist: "@ + path_debug(
        path_join(dir, fallback + ".osf.bin"@),
    )
}

fn library_position(c: &Vec<(String, Vec<Vec<u8>>)>, name: &String) -> (r: Option<usize>)
    ensures
        match r {
            Some(j) => j < c@.len() && index_in(expression_names(c@), name@) == Some(j as int),
            None => index_in(expression_names(c@), name@) is None,
        },
{
    let ghost s = expression_names(c@);
    let mut i: usize = 0;
    while i < c.len()
        invariant
            i <= c@.len(),
            s == expression_names(c@),
            first_match(s, name@, i as int) == first_match(s, name@, 0),
        decreases c@.len() - i,
    {
        if c[i].0 == *name {
            return Some(i);
        }
        i += 1;
    }
    None
}

impl OsfPlayer {
    /// The player for the files `(name, contents)` of the directory `dir`:
    /// an error when none of them is the fallback expression.
    pub fn from_files(dir: &str, fallback_expression: &str, files: Vec<(String, Vec<u8>)>) -> (r:
        Result<OsfPlayer, String>)
        ensures
            match r {
                Ok(p) => library_view(p.cache@) == library_spec(files@)
                    && p.fallback_expression@ == fallback_expression@
                    && expression_names(p.cache@).contains(fallback_expression@),
                Err(e) => !library_spec(files@).map_values(
                    |x: (Seq<char>, Seq<Seq<u8>>)| x.0,
                ).contains(fallback_expression@) && e@ == missing_fallback_message(
                    dir@,
                    fallback_expression@,
                ),
            },
    {
        let mut cache: Vec<(String, Vec<Vec<u8>>)> = Vec::new();
        let mut i: usize = 0;
        while i < files.len()
            invariant
                i <= files@.len(),
                library_view(cache@) == library_spec(files@.subrange(0, i as int)),
            decreases files@.len() - i,
        {
            let ghost pre = files@.subrange(0, i as int);
            let ghost post = files@.subrange(0, i + 1);
            assert(post.drop_last() == pre);
            assert(post.last() == files@[i as int]);
            match expression_stem(files[i].0.as_str()) {
                Some(stem) => {
                    let frames = frames_of(files[i].1.as_slice());
                    proof {
                        assert(library_view(cache@).map_values(
                            |e: (Seq<char>, Seq<Seq<u8>>)| e.0,
                        ) == expression_names(cache@));
                    }
                    match library_position(&cache, &stem) {
                        Some(j) => {
                            let ghost before = cache@;
                            let ghost fv = frame_views(frames@);
                            let entry = (stem, frames);
                            cache.set(j, entry);
                            assert(library_view(cache@) == library_view(before).update(
                                j as int,
                                (entry.0@, fv),
                            ));
                        },
                        None => {
                            let ghost before = cache@;
                            let ghost fv = frame_views(frames@);
                            let entry = (stem, frames);
                            cache.push(entry);
                            assert(library_view(cache@) == library_view(before).push((entry.0@, fv)));
                        },
                    }
                },
                None => {},
            }
            i += 1;
        }
        assert(files@.subrange(0, files@.len() as int) == files@);
        let fallback = fallback_expression.to_owned();
        proof {
            assert(library_view(cache@).map_values(|e: (Seq<char>, Seq<Seq<u8>>)| e.0)
                == expression_names(cache@));
            lemma_index_in(expression_names(cache@), fallback@);
        }
        if library_position(&cache, &fallback).is_none() {
            let name = {
                let mut v = chars_of(fallback_expression);
                append_str(&mut v, ".osf.bin");
                string_of(v.as_slice())
            };
            let path = join_path(dir, name.as_str());
            let mut msg = chars_of("Fallback expression file does not exist: ");
            append_str(&mut msg, debug_path(path.as_str()).as_str());
            return Err(string_of(msg.as_slice()));
        }
        Ok(OsfPlayer { fallback_expression: fallback, cache })
    }

    /// The frames played for `name`: its own, else the fallback's; none
    /// when neither is loaded.
    pub fn load_named(&self, name: &str) -> (r: Option<&Vec<Vec<u8>>>)
        ensures
            match index_in(expression_names(self.cache@), name@) {
                Some(i) => r matches Some(f) && *f == self.cache@[i].1,
                None => match index_in(expression_names(self.cache@), self.fallback_expression@) {
                    Some(j) => r matches Some(f) && *f == self.cache@[j].1,
                    None => r is None,
                },
            },
    {
        let n = name.to_owned();
        match library_position(&self.cache, &n) {
            Some(i) => Some(&self.cache[i].1),
            None => match library_position(&self.cache, &self.fallback_expression) {
                Some(j) => Some(&self.cache[j].1),
                None => None,
            },
        }
    }

    /// The loaded expressions in ascending order.
    pub fn get_available_expressions(&self) -> (r: Vec<String>)
        ensures
            sorted(string_views(r@)),
            string_views(r@).to_multiset() == expression_names(self.cache@).to_multiset(),
    {
        let mut names: Vec<String> = Vec::new();
        let mut i: usize = 0;
        while i < self.cache.len()
            invariant
                i <= self.cache@.len(),
                string_views(names@) == expression_names(self.cache@).subrange(0, i as int),
            decreases self.cache@.len() - i,
        {
            let ghost before = names@;
            names.push(self.cache[i].0.clone());
            assert(string_views(names@) == string_views(before).push(self.cache@[i as int].0@));
            i += 1;
            assert(string_views(names@) == expression_names(self.cache@).subrange(0, i as int));
        }
        assert(expression_names(self.cache@).subrange(0, self.cache@.len() as int)
            == expression_names(self.cache@));
        sort_strings(names.as_slice())
    }
}

// ---------------------------------------------------------------------------
// Playing
// ---------------------------------------------------------------------------

/// Which frame to send next while playing `count` frames, once or in a loop.
#[derive(Debug, Clone, Copy, PartialEq, Eq, Structural)]
pub struct FrameCursor {
    pub next: usize,
    pub count: usize,
    pub looping: bool,
}

/// One step of a cursor: the cursor after it and the frame to send.
pub open spec fn advance_spec(c: FrameCursor) -> (FrameCursor, Option<usize>) {
    if c.count == 0 {
        (c, None)
    } else if c.next < c.count {
        (FrameCursor { next: (c.next + 1) as usize, ..c }, Some(c.next))
    } else if c.looping {
        (FrameCursor { next: 1, ..c }, Some(0usize))
    } else {
        (c, None)
    }
}

/// The frames sent by `n` steps of the cursor `c`, in order.
pub open spec fn frames_sent(c: FrameCursor, n: nat) -> Seq<Option<usize>>
    decreases n,
{
    if n == 0 {
        Seq::empty()
    } else {
        let (c2, r) = advance_spec(c);
        seq![r] + frames_sent(c2, (n - 1) as nat)
    }
}

impl FrameCursor {
    /// A cursor at the first of `count` frames.
    pub fn new(count: usize, looping: bool) -> (r: FrameCursor)
        ensures
            r == (FrameCursor { next: 0, count, looping }),
    {
        FrameCursor { next: 0, count, looping }
    }

    /// The frame to send now: the frames in order; after the last, the
    /// first again when looping, else none. No frames, none.
    pub fn advance(&mut self) -> (r: Option<usize>)
        requires
            old(self).next <= old(self).count,
        ensures
            (*final(self), r) == advance_spec(*old(self)),
            final(self).next <= final(self).count,
    {
        if self.count == 0 {
            return None;
        }
        if self.next < self.count {
            let i = self.next;
            self.next = self.next + 1;
            return Some(i);
        }
        if self.looping {
            self.next = 1;
            Some(0)
        } else {
            None
        }
    }
}

/// What playing an expression comes to.
#[derive(Debug, Clone, Copy, PartialEq, Eq, Structural)]
pub enum OsfPlan {
    /// Nothing to send: return at once.
    Nothing,
    /// Nothing to send while looping: wait for the cancel.
    WaitForCancel,
    /// Send the frames with this cursor.
    Send(FrameCursor),
}

/// How to play `count` frames once or in a loop.
pub fn osf_plan(count: usize, looping: bool) -> (r: OsfPlan)
    ensures
        count == 0 && !looping ==> r == OsfPlan::Nothing,
        count == 0 && looping ==> r == OsfPlan::WaitForCancel,
        count > 0 ==> r == OsfPlan::Send(FrameCursor { next: 0, count, looping }),
{
    if count == 0 {
        if looping {
            OsfPlan::WaitForCancel
        } else {
            OsfPlan::Nothing
        }
    } else {
        OsfPlan::Send(FrameCursor::new(count, looping))
    }
}

// ---------------------------------------------------------------------------
// Laws
// ---------------------------------------------------------------------------

/// Played once, an expression of `count` frames sends each frame exactly
/// once, in order, and then nothing more: of `n` steps, step `i` sends frame
/// `i` while `i < count`, and nothing after.
pub proof fn law_play_once_sends_each_frame_once(count: usize, n: nat)
    requires
        count > 0,
    ensures
        frames_sent(FrameCursor { next: 0, count, looping: false }, n).len() == n,
        forall|i: int|
            0 <= i < n ==> #[trigger] frames_sent(FrameCursor { next: 0, count, looping: false }, n)[i]
                == if i < count {
                Some(i as usize)
            } else {
                None
            },
{
    lemma_frames_sent_once(FrameCursor { next: 0, count, looping: false }, n);
}

proof fn lemma_frames_sent_once(c: FrameCursor, n: nat)
    requires
        c.count > 0,
        !c.looping,
        c.next <= c.count,
    ensures
        frames_sent(c, n).len() == n,
        forall|i: int|
            0 <= i < n ==> #[trigger] frames_sent(c, n)[i] == if c.next + i < c.count {
                Some((c.next + i) as usize)
            } else {
                None
            },
    decreases n,
{
    if n > 0 {
        let (c2, r) = advance_spec(c);
        lemma_frames_sent_once(c2, (n - 1) as nat);
        let tail = frames_sent(c2, (n - 1) as nat);
        assert forall|i: int| 0 <= i < n implies #[trigger] frames_sent(c, n)[i] == if c.next + i < c.count {
            Some((c.next + i) as usize)
        } else {
            None
        } by {
            if i > 0 {
                assert(frames_sent(c, n)[i] == tail[i - 1]);
            }
        }
    }
}

/// Played in a loop, an expression of `count` frames sends its frames in
/// order, starting over after the last: the `i`-th frame sent is frame
/// `i % count`.
pub proof fn law_loop_cycles_frames(count: usize, n: nat)
    requires
        count > 0,
    ensures
        frames_sent(FrameCursor { next: 0, count, looping: true }, n).len() == n,
        forall|i: int|
            0 <= i < n ==> #[trigger] frames_sent(FrameCursor { next: 0, count, looping: true }, n)[i]
                == Some((i % (count as int)) as usize),
{
    lemma_frames_sent_loop(FrameCursor { next: 0, count, looping: true }, n);
}

proof fn lemma_frames_sent_loop(c: FrameCursor, n: nat)
    requires
        c.count > 0,
        c.looping,
        c.next <= c.count,
    ensures
        frames_sent(c, n).len() == n,
        forall|i: int|
            0 <= i < n ==> #[trigger] frames_sent(c, n)[i] == Some(((c.next + i) % (c.count as int)) as usize),
    decreases n,
{
    if n > 0 {
        let (c2, r) = advance_spec(c);
        lemma_frames_sent_loop(c2, (n - 1) as nat);
        let tail = frames_sent(c2, (n - 1) as nat);
        let m = c.count as int;
        assert forall|i: int| 0 <= i < n implies #[trigger] frames_sent(c, n)[i] == Some(
            ((c.next + i) % m) as usize,
        ) by {
            if i == 0 {
                if c.next < c.count {
                    vstd::arithmetic::div_mod::lemma_small_mod(c.next as nat, m as nat);
                } else {
                    vstd::arithmetic::div_mod::lemma_mod_self_0(m);
                }
            } else {
                assert(frames_sent(c, n)[i] == tail[i - 1]);
                if c.next == c.count {
                    vstd::arithmetic::div_mod::lemma_mod_add_multiples_vanish(i, m);
                }
            }
        }
    }
}

/// Every frame read from a file has exactly `FRAME_LEN` bytes, the frames
/// are the file's bytes in order, and less than one frame is left over.
pub proof fn law_frames_exact(data: Seq<u8>)
    ensures
        forall|i: int| 0 <= i < frames_spec(data).len() ==> (#[trigger] frames_spec(data)[i]).len() == FRAME_LEN,
        forall|i: int, k: int|
            0 <= i < frames_spec(data).len() && 0 <= k < FRAME_LEN ==> #[trigger] frames_spec(data)[i][k]
                == data[i * FRAME_LEN + k],
        frames_spec(data).len() * FRAME_LEN <= data.len() < (frames_spec(data).len() + 1) * FRAME_LEN,
{
    let n = frames_spec(data).len();
    assert(n == data.len() / 1785);
    assert(n * 1785 <= data.len() < (n + 1) * 1785) by (nonlinear_arith)
        requires
            n == data.len() / 1785,
    ;
    assert forall|i: int| 0 <= i < n implies (#[trigger] frames_spec(data)[i]).len() == FRAME_LEN by {
        assert((i + 1) * 1785 <= n * 1785) by (nonlinear_arith)
            requires
                i < n,
        ;
    }
    assert forall|i: int, k: int|
        0 <= i < n && 0 <= k < FRAME_LEN implies #[trigger] frames_spec(data)[i][k] == data[i * FRAME_LEN + k] by {
        assert((i + 1) * 1785 <= n * 1785) by (nonlinear_arith)
            requires
                i < n,
        ;
    }
}

} // verus!
