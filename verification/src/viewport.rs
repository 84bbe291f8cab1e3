//! Pane viewport helpers: the visible text of a terminal pane and the line
//! under its cursor.
use vstd::prelude::*;
use crate::text::{
    is_ws, lemma_trim_shape, lemma_trimmed_ends,
    chars_of, join, join_exec, string_of, string_views, trim, trim_end, trim_end_len, trimmed, views,
};

verus! {

/// What `strip_ansi_escapes::strip_str` returns for `s`: the text with its
/// ANSI escape sequences removed.
pub uninterp spec fn ansi_stripped(s: Seq<char>) -> Seq<char>;

/// Removes ANSI escape sequences from `s` (`strip_ansi_escapes::strip_str`).
/// The contract names the result and states nothing more of it.
#[verifier::external_body]
fn strip_ansi(s: &str) -> (r: String)
    ensures
        r@ == ansi_stripped(s@),
{
    strip_ansi_escapes::strip_str(s)
}

/// One viewport line as shown: escapes removed, trailing whitespace trimmed.
pub open spec fn shown_line(line: Seq<char>) -> Seq<char> {
    trim_end(ansi_stripped(line))
}

/// The visible text of a pane whose viewport lines are `lines`.
pub open spec fn pane_screen_text_spec(lines: Seq<Seq<char>>) -> Seq<char> {
    trim(join(lines.map_values(|l: Seq<char>| shown_line(l)), seq!['\n']))
}

fn shown_line_exec(line: &String) -> (r: Vec<char>)
    ensures
        r@ == shown_line(line@),
{
    let stripped = strip_ansi(line.as_str());
    let chars = chars_of(stripped.as_str());
    let n = trim_end_len(chars.as_slice());
    crate::text::copy_range(chars.as_slice(), 0, n)
}

/// Build visible pane text from viewport lines (ANSI stripped).
pub fn pane_screen_text(viewport: &[String]) -> (r: String)
    ensures
        r@ == pane_screen_text_spec(string_views(viewport@)),
{
    let ghost shown = string_views(viewport@).map_values(|l: Seq<char>| shown_line(l));
    let mut lines: Vec<Vec<char>> = Vec::new();
    let mut i: usize = 0;
    while i < viewport.len()
        invariant
            i <= viewport@.len(),
            shown == string_views(viewport@).map_values(|l: Seq<char>| shown_line(l)),
            views(lines@) == shown.subrange(0, i as int),
        decreases viewport@.len() - i,
    {
        let l = shown_line_exec(&viewport[i]);
        assert(shown[i as int] == shown_line(viewport@[i as int]@));
        let ghost old_lines = lines@;
        lines.push(l);
        assert(views(lines@) =~= views(old_lines).push(l@));
        i += 1;
        assert(views(lines@) =~= shown.subrange(0, i as int));
    }
    assert(shown.subrange(0, viewport@.len() as int) == shown);
    let joined = join_exec(&lines, '\n');
    let t = trimmed(joined.as_slice());
    string_of(t.as_slice())
}

/// Map pane-relative cursor Y to a viewport row index.
pub fn viewport_row(cursor_y: usize, pane_y: usize, pane_content_y: usize) -> (r: usize)
    ensures
        r == viewport_row_spec(cursor_y as int, pane_y as int, pane_content_y as int),
{
    let frame_top: usize = if pane_content_y >= pane_y {
        pane_content_y - pane_y
    } else {
        0
    };
    if cursor_y >= frame_top {
        cursor_y - frame_top
    } else {
        0
    }
}

/// Line under the cursor in the current viewport: that line as shown, or the
/// empty string when the cursor's row lies outside the viewport.
pub fn active_line_from_viewport(
    viewport: &[String],
    cursor_y: usize,
    pane_y: usize,
    pane_content_y: usize,
) -> (r: String)
    ensures
        ({
            let row = viewport_row_spec(cursor_y as int, pane_y as int, pane_content_y as int);
            if row < viewport@.len() {
                r@ == shown_line(viewport@[row]@)
            } else {
                r@ == Seq::<char>::empty()
            }
        }),
{
    let row = viewport_row(cursor_y, pane_y, pane_content_y);
    if row < viewport.len() {
        let l = shown_line_exec(&viewport[row]);
        string_of(l.as_slice())
    } else {
        String::new()
    }
}

/// The viewport row of a cursor: its pane row less the frame rows above the
/// content, both differences saturating at zero.
pub open spec fn viewport_row_spec(cursor_y: int, pane_y: int, pane_content_y: int) -> int {
    let frame_top = if pane_content_y >= pane_y {
        pane_content_y - pane_y
    } else {
        0
    };
    if cursor_y >= frame_top {
        cursor_y - frame_top
    } else {
        0
    }
}

/// The visible text of a pane neither starts nor ends with whitespace, so a
/// viewport of blank rows shows nothing, and a pane whose rows are all blank
/// counts as empty.
pub proof fn law_screen_text_trimmed(lines: Seq<Seq<char>>)
    ensures
        pane_screen_text_spec(lines).len() > 0 ==> !is_ws(pane_screen_text_spec(lines)[0]) && !is_ws(
            pane_screen_text_spec(lines).last(),
        ),
{
    let j = join(lines.map_values(|l: Seq<char>| shown_line(l)), seq!['\n']);
    lemma_trim_shape(j);
    if pane_screen_text_spec(lines).len() > 0 {
        lemma_trimmed_ends(trim(j));
    }
}

/// Every character of `s` is whitespace.
pub open spec fn all_blank(s: Seq<char>) -> bool {
    forall|k: int| 0 <= k < s.len() ==> is_ws(#[trigger] s[k])
}

proof fn lemma_join_blank(es: Seq<Seq<char>>)
    requires
        forall|i: int| 0 <= i < es.len() ==> all_blank(#[trigger] es[i]),
    ensures
        all_blank(join(es, seq!['\n'])),
    decreases es.len(),
{
    if es.len() > 1 {
        lemma_join_blank(es.drop_last());
        let a = join(es.drop_last(), seq!['\n']);
        let j = a + seq!['\n'] + es.last();
        assert(all_blank(es.last()));
        assert forall|k: int| 0 <= k < j.len() implies is_ws(#[trigger] j[k]) by {
            if k < a.len() {
                assert(j[k] == a[k]);
            } else if k == a.len() {
                assert(j[k] == '\n');
            } else {
                assert(j[k] == es.last()[k - a.len() - 1]);
            }
        }
    } else if es.len() == 1 {
        assert(all_blank(es[0]));
    }
}

proof fn lemma_trim_end_blank(s: Seq<char>)
    requires
        all_blank(s),
    ensures
        trim_end(s).len() == 0,
    decreases s.len(),
{
    if s.len() > 0 {
        assert(is_ws(s[s.len() - 1]));
        let t = s.drop_last();
        assert forall|k: int| 0 <= k < t.len() implies is_ws(#[trigger] t[k]) by {
            assert(t[k] == s[k]);
        }
        lemma_trim_end_blank(t);
    }
}

/// A pane whose visible rows are all blank shows no text.
pub proof fn law_blank_screen_is_empty(lines: Seq<Seq<char>>)
    requires
        forall|i: int| 0 <= i < lines.len() ==> all_blank(#[trigger] shown_line(lines[i])),
    ensures
        pane_screen_text_spec(lines).len() == 0,
{
    let es = lines.map_values(|l: Seq<char>| shown_line(l));
    assert forall|i: int| 0 <= i < es.len() implies all_blank(#[trigger] es[i]) by {
        assert(es[i] == shown_line(lines[i]));
    }
    lemma_join_blank(es);
    lemma_trim_end_blank(join(es, seq!['\n']));
}

} // verus!
