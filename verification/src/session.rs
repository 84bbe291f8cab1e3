//! Choosing among several running sessions.
use vstd::prelude::*;
use crate::text::{chars_of, parse_uint, parse_uint_exec, trim, trimmed};

verus! {

/// The 1-based index that `input` selects among `count` sessions.
pub open spec fn session_choice_spec(input: Seq<char>, count: nat) -> Option<nat> {
    match parse_uint(trim(input), usize::MAX as nat) {
        Some(n) => if 1 <= n <= count {
            Some(n)
        } else {
            None
        },
        None => None,
    }
}

/// Parse a 1-based session index from interactive input: the trimmed input
/// as a `usize`, kept when it lies in `1..=count`.
pub fn parse_session_choice(input: &str, count: usize) -> (r: Option<usize>)
    ensures
        match session_choice_spec(input@, count as nat) {
            Some(n) => r == Some(n as usize),
            None => r is None,
        },
{
    let chars = chars_of(input);
    let t = trimmed(chars.as_slice());
    match parse_uint_exec(t.as_slice(), usize::MAX as u64) {
        Some(n) => {
            if 1 <= n && n <= count as u64 {
                Some(n as usize)
            } else {
                None
            }
        },
        None => None,
    }
}

} // verus!
