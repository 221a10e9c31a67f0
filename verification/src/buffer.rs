//! The line buffer: every line received, a window of the most recent ones,
//! and the colour state that the lines before the window leave behind.

use vstd::prelude::*;
use crate::sgr::{
    AnsiState, escape_text, lemma_escape_then_line, lemma_scan_wf, line_effect, plain,
    update_ansi_state, wf_state,
};
use crate::text::push_str;

verus! {

/// Index of the first line of the window over `total` lines that shows at
/// most `cap` of them.
pub open spec fn window_start(total: nat, cap: nat) -> nat {
    if total > cap {
        (total - cap) as nat
    } else {
        0
    }
}

/// The state after the lines `lines` have been written, one after the other,
/// starting with state `s`.
pub open spec fn state_after(s: AnsiState, lines: Seq<Seq<char>>) -> AnsiState
    decreases lines.len(),
{
    if lines.len() == 0 {
        s
    } else {
        line_effect(state_after(s, lines.drop_last()), lines.last())
    }
}

/// `lines`, with the escape sequence of `p` put in front of the first one
/// (unless there is no first line or `p` is the state of a reset terminal).
pub open spec fn with_prefix(lines: Seq<Seq<char>>, p: AnsiState) -> Seq<Seq<char>> {
    if lines.len() == 0 || p == plain() {
        lines
    } else {
        lines.update(0, escape_text(p) + lines[0])
    }
}

/// The lines `h[start..end]`, ready to be shown on a reset terminal: the
/// first carries the state that `h[..start]` leaves behind.
pub open spec fn shown(h: Seq<Seq<char>>, start: nat, end: nat) -> Seq<Seq<char>> {
    with_prefix(h.subrange(start as int, end as int), state_after(plain(), h.take(start as int)))
}

/// The last `cap` lines of `h` (all of them when there are fewer).
pub open spec fn window(h: Seq<Seq<char>>, cap: nat) -> Seq<Seq<char>> {
    h.subrange(window_start(h.len(), cap) as int, h.len() as int)
}

/// The window of `h`, ready to be shown on a reset terminal.
pub open spec fn display_window(h: Seq<Seq<char>>, cap: nat) -> Seq<Seq<char>> {
    shown(h, window_start(h.len(), cap), h.len())
}

/// At most `count` lines of `h` from index `start` on, ready to be shown on a
/// reset terminal; nothing when `start` is past the end.
pub open spec fn display_range_spec(h: Seq<Seq<char>>, start: nat, count: nat) -> Seq<
    Seq<char>,
> {
    if start >= h.len() {
        Seq::empty()
    } else if start + count < h.len() {
        shown(h, start, start + count)
    } else {
        shown(h, start, h.len())
    }
}

/// Every line received, a window over the most recent `capacity` of them,
/// and the colour state in effect at the start of the window.
pub struct LineBuffer {
    lines: Vec<String>,
    capacity: usize,
    ansi_prefix: AnsiState,
}

impl LineBuffer {
    /// Every line received so far, oldest first.
    pub closed spec fn history(&self) -> Seq<Seq<char>> {
        self.lines@.map_values(|s: String| s@)
    }

    /// How many lines the window holds at most.
    pub closed spec fn cap(&self) -> nat {
        self.capacity as nat
    }

    /// The colour state in effect at the start of the window is the one that
    /// the lines before it leave behind.
    pub closed spec fn wf(&self) -> bool {
        self.ansi_prefix == state_after(
            plain(),
            self.history().take(window_start(self.history().len(), self.cap()) as int),
        )
    }

    /// An empty buffer whose window holds at most `capacity` lines.
    pub fn new(capacity: usize) -> (r: LineBuffer)
        ensures
            r.wf(),
            r.history() == Seq::<Seq<char>>::empty(),
            r.cap() == capacity,
    {
        let r = LineBuffer { lines: Vec::new(), capacity, ansi_prefix: AnsiState::default() };
        assert(r.history() =~= Seq::<Seq<char>>::empty());
        assert(r.history().take(0) =~= Seq::<Seq<char>>::empty());
        r
    }

    /// Appends `line`; the oldest line of a full window leaves it, and its
    /// colour codes go into the state at the start of the window.
    pub fn push(&mut self, line: String)
        requires
            old(self).wf(),
        ensures
            final(self).wf(),
            final(self).history() == old(self).history().push(line@),
            final(self).cap() == old(self).cap(),
    {
        let ghost h = self.history();
        let total = self.lines.len();
        let ghost h2 = h.push(line@);
        if total >= self.capacity {
            let leave = total - self.capacity;
            proof {
                assert(h2.take(leave + 1).drop_last() =~= h.take(leave as int));
                assert(h.take(leave as int) =~= h.take(
                    window_start(h.len(), self.cap()) as int,
                ));
            }
            if leave < total {
                assert(h2[leave as int] == self.lines@[leave as int]@);
                update_ansi_state(&mut self.ansi_prefix, self.lines[leave].as_str());
            } else {
                update_ansi_state(&mut self.ansi_prefix, line.as_str());
            }
        } else {
            assert(h2.take(0) =~= h.take(0));
        }
        self.lines.push(line);
        assert(self.history() =~= h2);
    }

    /// How many lines the window holds.
    pub fn len(&self) -> (r: usize)
        ensures
            r == window(self.history(), self.cap()).len(),
    {
        let total = self.lines.len();
        if total > self.capacity {
            self.capacity
        } else {
            total
        }
    }

    /// How many lines have been received in all.
    pub fn total_count(&self) -> (r: usize)
        ensures
            r == self.history().len(),
    {
        self.lines.len()
    }

    /// The lines of the window, oldest first.
    pub fn lines(&self) -> (r: Vec<&str>)
        ensures
            r@.map_values(|s: &str| s@) == window(self.history(), self.cap()),
    {
        let total = self.lines.len();
        let start = if total > self.capacity {
            total - self.capacity
        } else {
            0
        };
        let mut out: Vec<&str> = Vec::new();
        let mut i = start;
        while i < total
            invariant
                start <= i <= total,
                total == self.lines@.len(),
                start == window_start(total as nat, self.cap()),
                out@.map_values(|s: &str| s@) == self.history().subrange(start as int, i as int),
            decreases total - i,
        {
            let ghost old_out = out@;
            let item = self.lines[i].as_str();
            out.push(item);
            assert(out@.map_values(|s: &str| s@) =~= old_out.map_values(|s: &str| s@).push(
                item@,
            ));
            i += 1;
            assert(out@.map_values(|s: &str| s@) =~= self.history().subrange(
                start as int,
                i as int,
            ));
        }
        out
    }

    /// `self.lines[start..end]` as owned strings, with `prefix` put in front
    /// of the first.
    fn copy_with_prefix(&self, start: usize, end: usize, prefix: &String) -> (r: Vec<String>)
        requires
            start < end <= self.lines@.len(),
        ensures
            r@.map_values(|s: String| s@) == self.history().subrange(start as int, end as int).update(
                0,
                prefix@ + self.history()[start as int],
            ),
    {
        let mut out: Vec<String> = Vec::new();
        let mut first = prefix.clone();
        push_str(&mut first, self.lines[start].as_str());
        out.push(first);
        let mut i = start + 1;
        while i < end
            invariant
                start < i <= end <= self.lines@.len(),
                out@.map_values(|s: String| s@) == self.history().subrange(
                    start as int,
                    i as int,
                ).update(0, prefix@ + self.history()[start as int]),
            decreases end - i,
        {
            let ghost old_out = out@;
            let item = self.lines[i].clone();
            out.push(item);
            assert(out@.map_values(|s: String| s@) =~= old_out.map_values(|s: String| s@).push(
                item@,
            ));
            i += 1;
            assert(out@.map_values(|s: String| s@) =~= self.history().subrange(
                start as int,
                i as int,
            ).update(0, prefix@ + self.history()[start as int]));
        }
        out
    }

    /// `self.lines[start..end]` as owned strings.
    fn copy_plain(&self, start: usize, end: usize) -> (r: Vec<String>)
        requires
            start <= end <= self.lines@.len(),
        ensures
            r@.map_values(|s: String| s@) == self.history().subrange(start as int, end as int),
    {
        let mut out: Vec<String> = Vec::new();
        let mut i = start;
        while i < end
            invariant
                start <= i <= end <= self.lines@.len(),
                out@.map_values(|s: String| s@) == self.history().subrange(
                    start as int,
                    i as int,
                ),
            decreases end - i,
        {
            let ghost old_out = out@;
            let item = self.lines[i].clone();
            out.push(item);
            assert(out@.map_values(|s: String| s@) =~= old_out.map_values(|s: String| s@).push(
                item@,
            ));
            i += 1;
            assert(out@.map_values(|s: String| s@) =~= self.history().subrange(
                start as int,
                i as int,
            ));
        }
        out
    }

    /// `self.lines[start..end]` ready to be shown, given the state `p` that
    /// the lines before `start` leave behind.
    fn render(&self, start: usize, end: usize, p: &AnsiState) -> (r: Vec<String>)
        requires
            start <= end <= self.lines@.len(),
        ensures
            r@.map_values(|s: String| s@) == with_prefix(
                self.history().subrange(start as int, end as int),
                *p,
            ),
    {
        if start == end || p.is_empty() {
            self.copy_plain(start, end)
        } else {
            let prefix = p.to_escape();
            self.copy_with_prefix(start, end, &prefix)
        }
    }

    /// The lines of the window, the first one carrying the colour state that
    /// the lines before the window leave behind.
    pub fn display_lines(&self) -> (r: Vec<String>)
        requires
            self.wf(),
        ensures
            r@.map_values(|s: String| s@) == display_window(self.history(), self.cap()),
    {
        let total = self.lines.len();
        let start = if total > self.capacity {
            total - self.capacity
        } else {
            0
        };
        self.render(start, total, &self.ansi_prefix)
    }

    /// At most `count` lines from index `start` on, the first one carrying the
    /// colour state that the lines before it leave behind.
    pub fn display_range(&self, start: usize, count: usize) -> (r: Vec<String>)
        requires
            self.wf(),
        ensures
            r@.map_values(|s: String| s@) == display_range_spec(self.history(), start as nat, count as nat),
    {
        let total = self.lines.len();
        if start >= total {
            return Vec::new();
        }
        let end = if count < total - start {
            start + count
        } else {
            total
        };
        let ws = if total > self.capacity {
            total - self.capacity
        } else {
            0
        };
        let mut st = AnsiState::default();
        let mut k: usize = 0;
        if start >= ws {
            st = self.ansi_prefix;
            k = ws;
        }
        assert(self.history().take(0) =~= Seq::<Seq<char>>::empty());
        while k < start
            invariant
                k <= start < total,
                total == self.lines@.len(),
                st == state_after(plain(), self.history().take(k as int)),
            decreases start - k,
        {
            update_ansi_state(&mut st, self.lines[k].as_str());
            k += 1;
            assert(self.history().take(k as int).drop_last() =~= self.history().take(k - 1));
        }
        self.render(start, end, &st)
    }
}


// ---------------------------------------------------------------------
// The colours of lines that have left the window are kept
// ---------------------------------------------------------------------

pub proof fn lemma_state_after_concat(s: AnsiState, a: Seq<Seq<char>>, b: Seq<Seq<char>>)
    ensures
        state_after(s, a + b) == state_after(state_after(s, a), b),
    decreases b.len(),
{
    if b.len() == 0 {
        assert(a + b =~= a);
    } else {
        assert((a + b).drop_last() =~= a + b.drop_last());
        assert((a + b).last() == b.last());
        lemma_state_after_concat(s, a, b.drop_last());
    }
}

pub proof fn lemma_state_after_wf(s: AnsiState, lines: Seq<Seq<char>>)
    requires
        wf_state(s),
    ensures
        wf_state(state_after(s, lines)),
    decreases lines.len(),
{
    if lines.len() > 0 {
        lemma_state_after_wf(s, lines.drop_last());
        lemma_scan_wf(state_after(s, lines.drop_last()), vstd::utf8::encode_utf8(lines.last()));
    }
}

proof fn lemma_with_prefix_replays(w: Seq<Seq<char>>, p: AnsiState, k: nat)
    requires
        wf_state(p),
        1 <= k <= w.len(),
    ensures
        state_after(plain(), with_prefix(w, p).take(k as int)) == state_after(p, w.take(k as int)),
    decreases k,
{
    let d = with_prefix(w, p);
    if k == 1 {
        assert(d.take(1).drop_last() =~= Seq::<Seq<char>>::empty());
        assert(w.take(1).drop_last() =~= Seq::<Seq<char>>::empty());
        assert(state_after(plain(), Seq::<Seq<char>>::empty()) == plain());
        assert(state_after(p, Seq::<Seq<char>>::empty()) == p);
        assert(state_after(plain(), d.take(1).drop_last()) == plain());
        assert(state_after(p, w.take(1).drop_last()) == p);
        assert(d.take(1).last() == d[0]);
        assert(w.take(1).last() == w[0]);
        assert(state_after(plain(), d.take(1)) == line_effect(plain(), d[0]));
        assert(state_after(p, w.take(1)) == line_effect(p, w[0]));
        if p != plain() {
            lemma_escape_then_line(p, w[0]);
            assert(d[0] == escape_text(p) + w[0]);
        }
    } else {
        lemma_with_prefix_replays(w, p, (k - 1) as nat);
        assert(d.take(k as int).drop_last() =~= d.take(k - 1));
        assert(w.take(k as int).drop_last() =~= w.take(k - 1));
        assert(d[k - 1] == w[k - 1]);
    }
}

/// Shown on a reset terminal, the lines `h[start..end]` (the first carrying
/// the colour state that the earlier lines leave behind) leave after each of
/// them the same colour state as writing every line from the first one
/// received would.
pub proof fn law_shown_lines_keep_colors(h: Seq<Seq<char>>, start: nat, end: nat, k: nat)
    requires
        start <= end <= h.len(),
        1 <= k <= end - start,
    ensures
        state_after(plain(), shown(h, start, end).take(k as int)) == state_after(
            plain(),
            h.take(start + k as int),
        ),
{
    let p = state_after(plain(), h.take(start as int));
    lemma_state_after_wf(plain(), h.take(start as int));
    let w = h.subrange(start as int, end as int);
    lemma_with_prefix_replays(w, p, k);
    assert(h.take(start + k as int) =~= h.take(start as int) + w.take(k as int));
    lemma_state_after_concat(plain(), h.take(start as int), w.take(k as int));
}

/// The window that `display_lines` shows on a reset terminal leaves after
/// each of its lines the colour state that every line received up to that
/// one leaves: colours set by lines that have left the window are kept.
pub proof fn law_display_lines_keep_colors(h: Seq<Seq<char>>, cap: nat, k: nat)
    requires
        1 <= k <= window(h, cap).len(),
    ensures
        state_after(plain(), display_window(h, cap).take(k as int)) == state_after(
            plain(),
            h.take(window_start(h.len(), cap) + k as int),
        ),
{
    law_shown_lines_keep_colors(h, window_start(h.len(), cap), h.len(), k);
}

/// The lines that `display_range` shows on a reset terminal leave after each
/// of them the colour state that every line received up to that one leaves.
pub proof fn law_display_range_keeps_colors(h: Seq<Seq<char>>, start: nat, count: nat, k: nat)
    requires
        1 <= k <= display_range_spec(h, start, count).len(),
    ensures
        state_after(plain(), display_range_spec(h, start, count).take(k as int)) == state_after(
            plain(),
            h.take(start + k as int),
        ),
{
    if start + count < h.len() {
        law_shown_lines_keep_colors(h, start, start + count, k);
    } else {
        law_shown_lines_keep_colors(h, start, h.len(), k);
    }
}

} // verus!
