//! The reaction bar: its scrollback of messages, how many rows each takes
//! when wrapped, scrolling, and which part of which message is on screen.
use vstd::prelude::*;
use vstd::utf8::*;
use vstd::string::StringSliceAdditionalSpecFns;
use std::collections::VecDeque;
use crate::text::{chars_of, is_ws, string_of, trim, trim_end, trimmed, utf8_lossy, lossy_text};

verus! {

/// Most bytes read from one connection to the bar (the text of a reaction).
pub const MAX_MESSAGE_BYTES: usize = 65536;

/// Bytes read beyond `MAX_MESSAGE_BYTES` before the text is cut.
pub const READ_SLACK: usize = 1024;

// ---------------------------------------------------------------------------
// Wrapped height of a message
// ---------------------------------------------------------------------------

/// The byte lengths of the `\n`-separated lines of `b`.
pub open spec fn line_lengths(b: Seq<u8>) -> Seq<nat>
    decreases b.len(),
{
    if b.len() == 0 {
        seq![0nat]
    } else {
        let r = line_lengths(b.drop_last());
        if b.last() == 10u8 {
            r.push(0nat)
        } else {
            r.update(r.len() - 1, r.last() + 1)
        }
    }
}

pub proof fn lemma_line_lengths_nonempty(b: Seq<u8>)
    ensures
        line_lengths(b).len() >= 1,
    decreases b.len(),
{
    if b.len() > 0 {
        lemma_line_lengths_nonempty(b.drop_last());
    }
}

/// `n / w` rounded up.
pub open spec fn ceil_div(n: nat, w: nat) -> nat {
    (n / w + if n % w != 0 {
        1nat
    } else {
        0nat
    }) as nat
}

pub proof fn lemma_ceil_div_le(n: nat, w: nat)
    requires
        w >= 1,
    ensures
        ceil_div(n, w) <= n,
{
    assert(n / w <= n) by (nonlinear_arith)
        requires
            w >= 1,
    ;
    if n % w != 0 {
        assert(w >= 2);
        assert(n / w < n) by (nonlinear_arith)
            requires
                w >= 2,
                n % w != 0,
        ;
    }
}

/// The rows that lines of these byte lengths take at width `w`.
pub open spec fn rows_for(lens: Seq<nat>, w: nat) -> nat
    decreases lens.len(),
{
    if lens.len() == 0 {
        0
    } else {
        rows_for(lens.drop_last(), w) + ceil_div(lens.last(), w)
    }
}

/// The rows a message takes when wrapped at `width` bytes (at least 1):
/// each line takes its byte length divided by the width, rounded up; an
/// empty message still takes one row. The count is kept in a `u16`.
pub open spec fn message_height_spec(text: Seq<char>, width: nat) -> u16 {
    let w = if width == 0 {
        1nat
    } else {
        width
    };
    let rows = rows_for(line_lengths(encode_utf8(text)), w);
    (if rows == 0 {
        1nat
    } else {
        rows
    }) as u16
}

fn ceil_div_exec(n: usize, w: usize) -> (r: usize)
    requires
        w >= 1,
    ensures
        r == ceil_div(n as nat, w as nat),
{
    proof {
        lemma_ceil_div_le(n as nat, w as nat);
    }
    n / w + if n % w != 0 {
        1
    } else {
        0
    }
}

/// The rows `text` takes when wrapped at `width`.
pub fn message_height(text: &str, width: usize) -> (r: u16)
    ensures
        r == message_height_spec(text@, width as nat),
{
    let w: usize = if width == 0 {
        1
    } else {
        width
    };
    let b = text.as_bytes();
    let ghost bs = text.spec_bytes();
    let mut done: usize = 0;
    let mut cur: usize = 0;
    let mut i: usize = 0;
    assert(bs.subrange(0, 0) == Seq::<u8>::empty());
    while i < b.len()
        invariant
            b@ == bs,
            w >= 1,
            i <= bs.len(),
            line_lengths(bs.subrange(0, i as int)).last() == cur,
            rows_for(line_lengths(bs.subrange(0, i as int)).drop_last(), w as nat) == done,
            done + cur <= i,
        decreases bs.len() - i,
    {
        let ghost pre = bs.subrange(0, i as int);
        let ghost post = bs.subrange(0, i + 1);
        assert(post.drop_last() == pre);
        assert(post.last() == bs[i as int]);
        proof {
            lemma_line_lengths_nonempty(pre);
            lemma_ceil_div_le(cur as nat, w as nat);
        }
        if b[i] == 10u8 {
            let c = ceil_div_exec(cur, w);
            assert(line_lengths(post).drop_last() == line_lengths(pre));
            done = done + c;
            cur = 0;
        } else {
            assert(line_lengths(post).drop_last() == line_lengths(pre).drop_last());
            cur = cur + 1;
        }
        i += 1;
    }
    assert(bs.subrange(0, bs.len() as int) == bs);
    proof {
        lemma_line_lengths_nonempty(bs);
        lemma_ceil_div_le(cur as nat, w as nat);
    }
    let rows = done + ceil_div_exec(cur, w);
    let m: usize = if rows == 0 {
        1
    } else {
        rows
    };
    m as u16
}

// ---------------------------------------------------------------------------
// The scrollback
// ---------------------------------------------------------------------------

/// A reaction in the scrollback and when it arrived, in milliseconds on the
/// bar's clock.
#[derive(Debug, Clone)]
pub struct Message {
    pub text: String,
    pub timestamp_ms: u64,
}

/// The scrollback of the bar.
#[derive(Debug)]
pub struct AppState {
    pub messages: VecDeque<Message>,
    /// Lines scrolled up from the bottom-aligned view.
    pub scroll_offset: u16,
    /// How many messages the scrollback keeps.
    pub history_length: usize,
}

/// The rows all of `ms` take at `width`.
pub open spec fn total_height(ms: Seq<Message>, width: nat) -> nat
    decreases ms.len(),
{
    if ms.len() == 0 {
        0
    } else {
        total_height(ms.drop_last(), width) + message_height_spec(ms.last().text@, width) as nat
    }
}

/// `a - b`, or 0 when `b` is larger.
pub open spec fn sat_sub(a: int, b: int) -> int {
    if a >= b {
        a - b
    } else {
        0
    }
}

/// `a + b`, or the largest `u16` when that is larger.
pub open spec fn sat_add16(a: int, b: int) -> int {
    if a + b <= 65535 {
        a + b
    } else {
        65535
    }
}

pub open spec fn min(a: int, b: int) -> int {
    if a <= b {
        a
    } else {
        b
    }
}

/// How far the view can scroll up: what does not fit in the viewport.
pub open spec fn max_scroll_spec(ms: Seq<Message>, viewport_height: u16, width: nat) -> int {
    sat_sub(total_height(ms, width) as int, viewport_height as int)
}

/// How far the view can scroll up.
pub fn max_scroll_offset(state: &AppState, viewport_height: u16, width: usize) -> (r: u16)
    requires
        total_height(state.messages@, width as nat) <= 65535,
    ensures
        r == max_scroll_spec(state.messages@, viewport_height, width as nat),
{
    let mut total: u16 = 0;
    let mut i: usize = 0;
    let n = state.messages.len();
    while i < n
        invariant
            n == state.messages@.len(),
            i <= n,
            total == total_height(state.messages@.subrange(0, i as int), width as nat),
            total_height(state.messages@, width as nat) <= 65535,
        decreases n - i,
    {
        let ghost pre = state.messages@.subrange(0, i as int);
        let ghost post = state.messages@.subrange(0, i + 1);
        assert(post.drop_last() == pre);
        proof {
            lemma_total_height_prefix(state.messages@, width as nat, i + 1);
        }
        let h = message_height(state.messages[i].text.as_str(), width);
        total = total + h;
        i += 1;
    }
    assert(state.messages@.subrange(0, n as int) == state.messages@);
    if total >= viewport_height {
        total - viewport_height
    } else {
        0
    }
}

/// The rows of a prefix are no more than those of the whole.
pub proof fn lemma_total_height_prefix(ms: Seq<Message>, width: nat, k: int)
    requires
        0 <= k <= ms.len(),
    ensures
        total_height(ms.subrange(0, k), width) <= total_height(ms, width),
    decreases ms.len(),
{
    if k < ms.len() {
        assert(ms.drop_last().subrange(0, k) == ms.subrange(0, k));
        lemma_total_height_prefix(ms.drop_last(), width, k);
    } else {
        assert(ms.subrange(0, k) == ms);
    }
}

/// The messages after pushing `m`: the oldest dropped first when the
/// scrollback is full.
pub open spec fn pushed_messages(ms: Seq<Message>, history_length: nat, m: Message) -> Seq<Message> {
    if history_length == 0 {
        Seq::empty()
    } else if ms.len() >= history_length && ms.len() > 0 {
        ms.drop_first().push(m)
    } else {
        ms.push(m)
    }
}

/// The scroll offset after pushing `m`: at the bottom the view stays at the
/// bottom; scrolled up, it keeps showing the same rows (less the rows of a
/// dropped message, plus those of the new one), within the new limit.
pub open spec fn pushed_offset(
    ms: Seq<Message>,
    history_length: nat,
    offset: u16,
    m: Message,
    viewport_height: u16,
    width: nat,
) -> int {
    if offset == 0 || history_length == 0 {
        0
    } else {
        let after_drop = if ms.len() >= history_length && ms.len() > 0 {
            sat_sub(offset as int, message_height_spec(ms[0].text@, width) as int)
        } else {
            offset as int
        };
        let raised = sat_add16(after_drop, message_height_spec(m.text@, width) as int);
        min(
            raised,
            max_scroll_spec(pushed_messages(ms, history_length, m), viewport_height, width),
        )
    }
}

impl AppState {
    /// An empty scrollback that keeps `history_length` messages.
    pub fn new(history_length: usize) -> (r: AppState)
        ensures
            r.messages@.len() == 0,
            r.scroll_offset == 0,
            r.history_length == history_length,
    {
        AppState { messages: VecDeque::new(), scroll_offset: 0, history_length }
    }

    /// Adds a reaction that arrived at `timestamp_ms`.
    pub fn push(&mut self, text: String, timestamp_ms: u64, viewport_height: u16, width: usize)
        requires
            old(self).scroll_offset != 0 ==> total_height(
                pushed_messages(
                    old(self).messages@,
                    old(self).history_length as nat,
                    Message { text, timestamp_ms },
                ),
                width as nat,
            ) <= 65535,
        ensures
            final(self).messages@ == pushed_messages(
                old(self).messages@,
                old(self).history_length as nat,
                Message { text, timestamp_ms },
            ),
            final(self).scroll_offset == pushed_offset(
                old(self).messages@,
                old(self).history_length as nat,
                old(self).scroll_offset,
                Message { text, timestamp_ms },
                viewport_height,
                width as nat,
            ),
            final(self).history_length == old(self).history_length,
    {
        if self.history_length == 0 {
            self.messages = VecDeque::new();
            self.scroll_offset = 0;
            return;
        }
        let at_bottom = self.scroll_offset == 0;
        if self.messages.len() >= self.history_length {
            if let Some(front) = self.messages.pop_front() {
                if !at_bottom {
                    let removed = message_height(front.text.as_str(), width);
                    self.scroll_offset = if self.scroll_offset >= removed {
                        self.scroll_offset - removed
                    } else {
                        0
                    };
                }
            }
        }
        let new_height = message_height(text.as_str(), width);
        let ghost m = Message { text, timestamp_ms };
        self.messages.push_back(Message { text, timestamp_ms });
        if at_bottom {
            self.scroll_offset = 0;
        } else {
            self.scroll_offset = if self.scroll_offset as u32 + new_height as u32 <= 65535 {
                self.scroll_offset + new_height
            } else {
                65535
            };
            let max = max_scroll_offset(self, viewport_height, width);
            if max < self.scroll_offset {
                self.scroll_offset = max;
            }
        }
    }

    /// Scrolls up by `lines`, no further than `max`.
    pub fn scroll_up(&mut self, lines: u16, max: u16)
        requires
            old(self).scroll_offset + lines <= 65535,
        ensures
            final(self).scroll_offset == min(old(self).scroll_offset + lines, max as int),
            final(self).messages@ == old(self).messages@,
            final(self).history_length == old(self).history_length,
    {
        let up = self.scroll_offset + lines;
        self.scroll_offset = if up <= max {
            up
        } else {
            max
        };
    }

    /// Scrolls down by `lines`, no further than the bottom.
    pub fn scroll_down(&mut self, lines: u16)
        ensures
            final(self).scroll_offset == sat_sub(old(self).scroll_offset as int, lines as int),
            final(self).messages@ == old(self).messages@,
            final(self).history_length == old(self).history_length,
    {
        self.scroll_offset = if self.scroll_offset >= lines {
            self.scroll_offset - lines
        } else {
            0
        };
    }
}

// ---------------------------------------------------------------------------
// What is on screen
// ---------------------------------------------------------------------------

/// The part of a message that is drawn: its index in the scrollback, the
/// row of the view where it starts, how many rows it shows, how many of its
/// own rows are scrolled off above, and how many messages are newer.
#[derive(Debug, Clone, Copy, PartialEq, Eq, Structural)]
pub struct VisibleSlice {
    pub index: usize,
    pub row: u16,
    pub height: u16,
    pub skip_lines: u16,
    pub position: usize,
}

/// The sum of the heights.
pub open spec fn sum_heights(hs: Seq<u16>) -> nat
    decreases hs.len(),
{
    if hs.len() == 0 {
        0
    } else {
        sum_heights(hs.drop_last()) + hs.last() as nat
    }
}

pub proof fn lemma_sum_heights_prefix(hs: Seq<u16>, k: int)
    requires
        0 <= k <= hs.len(),
    ensures
        sum_heights(hs.subrange(0, k)) <= sum_heights(hs),
    decreases hs.len(),
{
    if k < hs.len() {
        assert(hs.drop_last().subrange(0, k) == hs.subrange(0, k));
        lemma_sum_heights_prefix(hs.drop_last(), k);
    } else {
        assert(hs.subrange(0, k) == hs);
    }
}

/// The first row of the content that is shown: the view sits at the
/// bottom, raised by the scroll offset but not above the top.
pub open spec fn scroll_top_spec(hs: Seq<u16>, available: u16, offset: u16) -> int {
    let max_scroll = sat_sub(sum_heights(hs) as int, available as int);
    sat_sub(max_scroll, min(offset as int, max_scroll))
}

/// The slices of the first `k` messages that fall in the rows from `st`
/// to `st + available`.
pub open spec fn slices_upto(hs: Seq<u16>, available: u16, st: int, k: int) -> Seq<VisibleSlice>
    decreases k,
{
    if k <= 0 || k > hs.len() {
        Seq::empty()
    } else {
        let p = slices_upto(hs, available, st, k - 1);
        let i = k - 1;
        let y = sum_heights(hs.subrange(0, i)) as int;
        let bottom = y + hs[i];
        let end = sat_add16(st, available as int);
        if bottom > st && y < end {
            let top = if y >= st {
                y
            } else {
                st
            };
            let low = min(bottom, end);
            p.push(
                VisibleSlice {
                    index: i as usize,
                    row: (top - st) as u16,
                    height: sat_sub(low, top) as u16,
                    skip_lines: sat_sub(st, y) as u16,
                    position: (hs.len() - 1 - i) as usize,
                },
            )
        } else {
            p
        }
    }
}

/// The slices of the messages with these heights that a view of
/// `available` rows, scrolled up by `offset`, shows.
pub open spec fn visible_slices_spec(hs: Seq<u16>, available: u16, offset: u16) -> Seq<VisibleSlice> {
    slices_upto(hs, available, scroll_top_spec(hs, available, offset), hs.len() as int)
}

/// What a view of `available` rows scrolled up by `offset` shows of
/// messages of these heights.
pub fn visible_slices(heights: &[u16], available: u16, offset: u16) -> (r: Vec<VisibleSlice>)
    requires
        sum_heights(heights@) <= 65535,
    ensures
        r@ == visible_slices_spec(heights@, available, offset),
{
    let n = heights.len();
    let mut total: u16 = 0;
    let mut i: usize = 0;
    while i < n
        invariant
            n == heights@.len(),
            i <= n,
            total == sum_heights(heights@.subrange(0, i as int)),
            sum_heights(heights@) <= 65535,
        decreases n - i,
    {
        assert(heights@.subrange(0, i + 1).drop_last() == heights@.subrange(0, i as int));
        proof {
            lemma_sum_heights_prefix(heights@, i + 1);
        }
        total = total + heights[i];
        i += 1;
    }
    assert(heights@.subrange(0, n as int) == heights@);
    let max_scroll: u16 = if total >= available {
        total - available
    } else {
        0
    };
    let raise: u16 = if offset <= max_scroll {
        offset
    } else {
        max_scroll
    };
    let st: u16 = max_scroll - raise;
    let end: u16 = if st as u32 + available as u32 <= 65535 {
        st + available
    } else {
        65535
    };
    let mut out: Vec<VisibleSlice> = Vec::new();
    let mut y: u16 = 0;
    let mut k: usize = 0;
    while k < n
        invariant
            n == heights@.len(),
            k <= n,
            y == sum_heights(heights@.subrange(0, k as int)),
            sum_heights(heights@) <= 65535,
            st == scroll_top_spec(heights@, available, offset),
            end == sat_add16(st as int, available as int),
            out@ == slices_upto(heights@, available, st as int, k as int),
        decreases n - k,
    {
        assert(heights@.subrange(0, k + 1).drop_last() == heights@.subrange(0, k as int));
        proof {
            lemma_sum_heights_prefix(heights@, k + 1);
        }
        let h = heights[k];
        let bottom: u16 = y + h;
        if bottom > st && y < end {
            let top: u16 = if y >= st {
                y
            } else {
                st
            };
            let low: u16 = if bottom <= end {
                bottom
            } else {
                end
            };
            let height: u16 = if low >= top {
                low - top
            } else {
                0
            };
            let skip: u16 = if st >= y {
                st - y
            } else {
                0
            };
            out.push(
                VisibleSlice { index: k, row: top - st, height, skip_lines: skip, position: n - 1 - k },
            );
        }
        y = bottom;
        k += 1;
    }
    out
}

/// The heights of the messages of the scrollback at `width`, in order.
pub open spec fn heights_of(ms: Seq<Message>, width: nat) -> Seq<u16> {
    ms.map_values(|m: Message| message_height_spec(m.text@, width))
}

/// The heights of the messages of the scrollback at `width`.
pub fn message_heights(state: &AppState, width: usize) -> (r: Vec<u16>)
    ensures
        r@ == heights_of(state.messages@, width as nat),
{
    let mut out: Vec<u16> = Vec::new();
    let n = state.messages.len();
    let mut i: usize = 0;
    while i < n
        invariant
            n == state.messages@.len(),
            i <= n,
            out@ == heights_of(state.messages@, width as nat).subrange(0, i as int),
        decreases n - i,
    {
        out.push(message_height(state.messages[i].text.as_str(), width));
        i += 1;
        assert(out@ == heights_of(state.messages@, width as nat).subrange(0, i as int));
    }
    assert(heights_of(state.messages@, width as nat).subrange(0, n as int) == heights_of(
        state.messages@,
        width as nat,
    ));
    out
}

// ---------------------------------------------------------------------------
// Receiving a reaction
// ---------------------------------------------------------------------------

/// The bytes that carry the reaction `t` to the bar: its UTF-8 encoding,
/// ended by a newline.
pub open spec fn bar_frame(t: Seq<char>) -> Seq<u8> {
    encode_utf8(t + seq!['\n'])
}

/// The bytes to send to the bar for the reaction `text`.
pub fn bar_message(text: &str) -> (r: Vec<u8>)
    ensures
        r@ == bar_frame(text@),
{
    let mut v = chars_of(text);
    v.push('\n');
    assert(v@ == text@ + seq!['\n']);
    let framed = string_of(v.as_slice());
    let framed_str = framed.as_str();
    assert(framed_str@ == text@ + seq!['\n']);
    vstd::slice::slice_to_vec(framed_str.as_bytes())
}

/// The text of `bytes`: decoded as UTF-8 when valid, else with each invalid
/// sequence replaced.
pub open spec fn decoded_text(bytes: Seq<u8>) -> Seq<char> {
    if valid_utf8(bytes) {
        decode_utf8(bytes)
    } else {
        utf8_lossy(bytes)
    }
}

/// What the bar shows for the bytes of one connection: their text, trimmed;
/// none when nothing is left.
pub open spec fn received_spec(bytes: Seq<u8>) -> Option<Seq<char>> {
    if trim(decoded_text(bytes)).len() == 0 {
        None
    } else {
        Some(trim(decoded_text(bytes)))
    }
}

/// The text of a reaction received as `bytes`: decoded (invalid UTF-8
/// replaced) and trimmed; none when nothing is left.
pub fn received_text(bytes: &[u8]) -> (r: Option<String>)
    ensures
        trim(utf8_lossy(bytes@)).len() == 0 ==> r is None,
        trim(utf8_lossy(bytes@)).len() > 0 ==> (r matches Some(t) && t@ == trim(utf8_lossy(bytes@))),
        match received_spec(bytes@) {
            Some(x) => r matches Some(t) && t@ == x,
            None => r is None,
        },
{
    let text = lossy_text(bytes);
    let v = chars_of(text.as_str());
    let t = trimmed(v.as_slice());
    if t.len() == 0 {
        None
    } else {
        Some(string_of(t.as_slice()))
    }
}

// ---------------------------------------------------------------------------
// Laws
// ---------------------------------------------------------------------------

/// Pushing keeps the scrollback within its length; with a length of at
/// least one the new message is the newest, and with a length of zero
/// nothing is kept.
pub proof fn law_scrollback_bounded(ms: Seq<Message>, history_length: nat, m: Message)
    requires
        ms.len() <= history_length,
    ensures
        pushed_messages(ms, history_length, m).len() <= history_length,
        history_length >= 1 ==> pushed_messages(ms, history_length, m).last() == m,
        history_length == 0 ==> pushed_messages(ms, history_length, m).len() == 0,
{
}

/// The bar shows what the daemon sends it: a reaction framed by
/// `bar_message` is received as that reaction, trimmed, and a blank one
/// shows nothing.
pub proof fn law_bar_receives_sent_text(t: Seq<char>)
    ensures
        received_spec(bar_frame(t)) == if trim(t).len() == 0 {
            None
        } else {
            Some(trim(t))
        },
{
    let f = t + seq!['\n'];
    encode_utf8_valid_utf8(f);
    encode_utf8_decode_utf8(f);
    assert(f.drop_last() == t);
    assert(is_ws(f.last()));
    assert(trim_end(f) == trim_end(t));
}

/// A view at the bottom stays at the bottom; a scrolled view never goes
/// past the new scroll limit.
pub proof fn law_push_keeps_view(
    ms: Seq<Message>,
    history_length: nat,
    offset: u16,
    m: Message,
    viewport_height: u16,
    width: nat,
)
    ensures
        offset == 0 ==> pushed_offset(ms, history_length, offset, m, viewport_height, width) == 0,
        pushed_offset(ms, history_length, offset, m, viewport_height, width) <= max_scroll_spec(
            pushed_messages(ms, history_length, m),
            viewport_height,
            width,
        ),
{
}

} // verus!
