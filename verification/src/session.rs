//! The decisions of the interactive viewer: what each input event does to
//! the buffer, the view and the countdown, and what is written in reply.
//! The caller reads events, asks for the terminal size, writes the output
//! and passes key bytes on to the child.

use vstd::prelude::*;
use crate::buffer::{LineBuffer, display_window, window};
use crate::display::{
    clear_lines, clear_text, collapsed_frame, draw_collapsed, draw_expanded, expanded_frame,
    lines_out, visible_count, write_line,
};
use crate::event::{Event, KeyCode, KeyEvent, Mode};
use crate::keys::{key_bytes_spec, key_to_bytes};
use crate::lines::{complete_lines, extract_lines, pty_line_text, unfinished};
use crate::text::{push_str, trim, trimmed};

verus! {

/// How many of the most recent lines the collapsed view shows.
pub const TAIL_LINES: usize = 10;

/// What the viewer knows between two events.
pub struct Screen {
    /// Every line received, trimmed, oldest first.
    pub history: Seq<Seq<char>>,
    pub mode: Mode,
    /// How many lines the last frame took.
    pub prev_drawn: nat,
    /// Whether the next collapsed frame is drawn without erasing a previous one.
    pub first: bool,
    /// Whether the input has closed.
    pub input_done: bool,
    /// Index of the first line on the expanded page.
    pub scroll: nat,
    /// Seconds left before the viewer exits on its own, once the input has closed.
    pub countdown: Option<u8>,
    /// Bytes of pty output after the last newline.
    pub remainder: Seq<u8>,
}

/// The effect of one event.
pub struct Outcome {
    pub next: Screen,
    /// What to write to the terminal.
    pub output: Seq<char>,
    /// What to write to the child's pty.
    pub to_pty: Option<Seq<u8>>,
    /// Whether the viewer ends.
    pub quit: bool,
}

pub open spec fn quiet(next: Screen, output: Seq<char>) -> Outcome {
    Outcome { next, output, to_pty: None, quit: false }
}

/// The height of the expanded page on a terminal of `rows` rows (one row is
/// kept for the status line).
pub open spec fn viewport_of(rows: u16) -> nat {
    if rows >= 1 {
        (rows - 1) as nat
    } else {
        0
    }
}

pub open spec fn sat_sub(a: nat, b: nat) -> nat {
    if a > b {
        (a - b) as nat
    } else {
        0
    }
}

pub open spec fn min_nat(a: nat, b: nat) -> nat {
    if a <= b {
        a
    } else {
        b
    }
}

/// The number of lines a collapsed frame of `h` takes.
pub open spec fn collapsed_height(h: Seq<Seq<char>>) -> nat {
    display_window(h, TAIL_LINES as nat).len() + 1
}

/// Redraws after lines were added: the collapsed view is redrawn in place;
/// the expanded page follows the end of the input when it was showing it.
pub open spec fn redraw(m: Screen, rows: u16) -> Outcome {
    match m.mode {
        Mode::Collapsed => quiet(
            Screen { prev_drawn: collapsed_height(m.history), first: false, ..m },
            collapsed_frame(
                m.history,
                TAIL_LINES as nat,
                m.prev_drawn,
                m.first,
                true,
                m.input_done,
                None,
            ),
        ),
        Mode::Expanded => {
            let vp = viewport_of(rows);
            let total = m.history.len();
            let at_bottom = total > 0 && m.scroll + vp >= total - 1;
            let scroll = if at_bottom {
                sat_sub(total, vp)
            } else {
                m.scroll
            };
            quiet(
                Screen { scroll, prev_drawn: visible_count(total, scroll, vp) + 1, ..m },
                clear_text(m.prev_drawn) + expanded_frame(m.history, scroll, vp, true, m.input_done),
            )
        },
    }
}

/// A line from the pipe: it is added, trimmed, and the view redrawn.
pub open spec fn on_line(m: Screen, line: Seq<char>, rows: u16) -> Outcome {
    redraw(Screen { history: m.history.push(trim(line)), ..m }, rows)
}

/// Output of the child: the lines it completes are added, trimmed, and the
/// view redrawn; nothing is drawn when it completes none.
pub open spec fn on_pty_output(m: Screen, data: Seq<u8>, rows: u16) -> Outcome {
    let all = m.remainder + data;
    let news = complete_lines(all).map_values(|l: Seq<u8>| trim(pty_line_text(l)));
    let m2 = Screen { remainder: unfinished(all), ..m };
    if news.len() == 0 {
        quiet(m2, Seq::empty())
    } else {
        redraw(Screen { history: m.history + news, ..m2 }, rows)
    }
}

/// Where a navigation key moves the expanded page.
pub open spec fn scroll_target(code: KeyCode, scroll: nat, vp: nat, max_offset: nat) -> nat {
    match code {
        KeyCode::Up | KeyCode::Char('k') => sat_sub(scroll, 1),
        KeyCode::Down | KeyCode::Char('j') => min_nat(scroll + 1, max_offset),
        KeyCode::PageUp => sat_sub(scroll, vp),
        KeyCode::PageDown => min_nat(scroll + vp, max_offset),
        KeyCode::Home | KeyCode::Char('g') => 0,
        KeyCode::End | KeyCode::Char('G') => max_offset,
        _ => scroll,
    }
}

/// Whether a key goes to the child rather than to the viewer: in pty mode,
/// while the collapsed view is shown and the child runs.
pub open spec fn goes_to_child(m: Screen, forward_keys: bool) -> bool {
    forward_keys && m.mode == Mode::Collapsed && !m.input_done
}

/// A key from the terminal.
pub open spec fn on_key(m: Screen, k: KeyEvent, rows: u16, forward_keys: bool) -> Outcome {
    let vp = viewport_of(rows);
    let total = m.history.len();
    if k.code == KeyCode::Tab {
        match m.mode {
            Mode::Collapsed => {
                let scroll = sat_sub(total, vp);
                quiet(
                    Screen {
                        mode: Mode::Expanded,
                        countdown: None,
                        scroll,
                        prev_drawn: visible_count(total, scroll, vp) + 1,
                        ..m
                    },
                    clear_text(m.prev_drawn) + "\x1B[?1049h"@ + expanded_frame(
                        m.history,
                        scroll,
                        vp,
                        true,
                        m.input_done,
                    ),
                )
            },
            Mode::Expanded => quiet(
                Screen {
                    mode: Mode::Collapsed,
                    countdown: None,
                    first: true,
                    prev_drawn: collapsed_height(m.history),
                    ..m
                },
                "\x1B[?1049l"@ + collapsed_frame(
                    m.history,
                    TAIL_LINES as nat,
                    0,
                    true,
                    true,
                    m.input_done,
                    None,
                ),
            ),
        }
    } else if goes_to_child(m, forward_keys) {
        Outcome { next: m, output: Seq::empty(), to_pty: key_bytes_spec(k), quit: false }
    } else if (k.code == KeyCode::Char('c') && k.ctrl) || k.code == KeyCode::Char('q') {
        Outcome { next: m, output: Seq::empty(), to_pty: None, quit: true }
    } else if m.mode == Mode::Expanded {
        let target = scroll_target(k.code, m.scroll, vp, sat_sub(total, vp));
        if target != m.scroll {
            quiet(
                Screen { scroll: target, prev_drawn: visible_count(total, target, vp) + 1, ..m },
                clear_text(m.prev_drawn) + expanded_frame(m.history, target, vp, true, m.input_done),
            )
        } else {
            quiet(m, Seq::empty())
        }
    } else {
        quiet(m, Seq::empty())
    }
}

/// The input has closed: the countdown starts and the view is redrawn.
pub open spec fn on_input_done(m: Screen, rows: u16, countdown_secs: u8) -> Outcome {
    let m2 = Screen { input_done: true, countdown: Some(countdown_secs), ..m };
    match m.mode {
        Mode::Collapsed => quiet(
            Screen { prev_drawn: collapsed_height(m.history), ..m2 },
            (if m.prev_drawn > 0 {
                clear_text(m.prev_drawn)
            } else {
                Seq::empty()
            }) + collapsed_frame(
                m.history,
                TAIL_LINES as nat,
                0,
                true,
                true,
                true,
                Some(countdown_secs),
            ),
        ),
        Mode::Expanded => {
            let vp = viewport_of(rows);
            quiet(
                Screen { prev_drawn: visible_count(m.history.len(), m.scroll, vp) + 1, ..m2 },
                clear_text(m.prev_drawn) + expanded_frame(m.history, m.scroll, vp, true, true),
            )
        },
    }
}

/// The effect of an event.
pub open spec fn on_event(
    m: Screen,
    e: Event,
    rows: u16,
    forward_keys: bool,
    countdown_secs: u8,
) -> Outcome {
    match e {
        Event::Line(s) => on_line(m, s@, rows),
        Event::PtyOutput(d) => on_pty_output(m, d@, rows),
        Event::Key(k) => on_key(m, k, rows, forward_keys),
        Event::InputDone => on_input_done(m, rows, countdown_secs),
    }
}

/// A second of the countdown has passed without an event: the viewer ends
/// when it runs out; otherwise the collapsed view shows the new count.
pub open spec fn on_tick(m: Screen, remaining: u8) -> Outcome {
    let left = (remaining - 1) as u8;
    let m2 = Screen { countdown: Some(left), ..m };
    if left == 0 {
        Outcome { next: m2, output: Seq::empty(), to_pty: None, quit: true }
    } else if m.mode == Mode::Collapsed {
        quiet(
            Screen { prev_drawn: collapsed_height(m.history), ..m2 },
            clear_text(m.prev_drawn) + collapsed_frame(
                m.history,
                TAIL_LINES as nat,
                0,
                true,
                true,
                true,
                Some(left),
            ),
        )
    } else {
        quiet(m2, Seq::empty())
    }
}

/// What the caller does after an event.
pub struct Reaction {
    /// Text to write to the terminal.
    pub output: String,
    /// Bytes to write to the child's pty.
    pub to_pty: Option<Vec<u8>>,
    /// Whether to stop.
    pub quit: bool,
}

impl Reaction {
    pub open spec fn matches(&self, o: Outcome) -> bool {
        &&& self.output@ == o.output
        &&& match (self.to_pty, o.to_pty) {
            (Some(v), Some(b)) => v@ == b,
            (None, None) => true,
            _ => false,
        }
        &&& self.quit == o.quit
    }
}

/// The state of the interactive viewer.
pub struct Session {
    buf: LineBuffer,
    mode: Mode,
    prev_drawn_lines: usize,
    first: bool,
    input_done: bool,
    scroll_offset: usize,
    countdown: Option<u8>,
    pty_remainder: Vec<u8>,
    forward_keys: bool,
    countdown_secs: u8,
}

impl View for Session {
    type V = Screen;

    closed spec fn view(&self) -> Screen {
        Screen {
            history: self.buf.history(),
            mode: self.mode,
            prev_drawn: self.prev_drawn_lines as nat,
            first: self.first,
            input_done: self.input_done,
            scroll: self.scroll_offset as nat,
            countdown: self.countdown,
            remainder: self.pty_remainder@,
        }
    }
}

fn viewport(rows: u16) -> (r: usize)
    ensures
        r == viewport_of(rows),
{
    (rows as usize).saturating_sub(1)
}

impl Session {
    /// Whether keys go to the child while the collapsed view is shown.
    pub closed spec fn forwards_keys(&self) -> bool {
        self.forward_keys
    }

    /// How many seconds the countdown starts from.
    pub closed spec fn countdown_start(&self) -> u8 {
        self.countdown_secs
    }

    pub closed spec fn wf(&self) -> bool {
        &&& self.buf.wf()
        &&& self.buf.cap() == TAIL_LINES
    }

    /// A viewer with nothing received yet; `forward_keys` says whether keys go
    /// to a child in a pty, `countdown_secs` how long the viewer stays once the
    /// input has closed.
    pub fn new(forward_keys: bool, countdown_secs: u8) -> (r: Session)
        ensures
            r.wf(),
            r@ == (Screen {
                history: Seq::empty(),
                mode: Mode::Collapsed,
                prev_drawn: 0,
                first: true,
                input_done: false,
                scroll: 0,
                countdown: None,
                remainder: Seq::empty(),
            }),
            r.forwards_keys() == forward_keys,
            r.countdown_start() == countdown_secs,
    {
        let r = Session {
            buf: LineBuffer::new(TAIL_LINES),
            mode: Mode::Collapsed,
            prev_drawn_lines: 0,
            first: true,
            input_done: false,
            scroll_offset: 0,
            countdown: None,
            pty_remainder: Vec::new(),
            forward_keys,
            countdown_secs,
        };
        assert(r@.remainder =~= Seq::<u8>::empty());
        r
    }

    /// The seconds left on the countdown, if it runs.
    pub fn countdown(&self) -> (r: Option<u8>)
        ensures
            r == self@.countdown,
    {
        self.countdown
    }

    /// Whether the countdown has run out, so that the viewer ends before
    /// waiting for another event.
    pub fn expired(&self) -> (r: bool)
        ensures
            r == (self@.countdown == Some(0u8)),
    {
        match self.countdown {
            Some(n) => n == 0,
            None => false,
        }
    }

    fn redraw_after_push(&mut self, out: &mut String, rows: u16)
        requires
            old(self).wf(),
        ensures
            final(self).wf(),
            final(self)@ == redraw(old(self)@, rows).next,
            final(out)@ == old(out)@ + redraw(old(self)@, rows).output,
            final(self).forwards_keys() == old(self).forwards_keys(),
            final(self).countdown_start() == old(self).countdown_start(),
    {
        match self.mode {
            Mode::Collapsed => {
                self.prev_drawn_lines = draw_collapsed(
                    out,
                    &self.buf,
                    self.prev_drawn_lines,
                    self.first,
                    true,
                    self.input_done,
                    None,
                );
                self.first = false;
            },
            Mode::Expanded => {
                let vp = viewport(rows);
                let total = self.buf.total_count();
                let at_bottom = total > 0 && self.scroll_offset.saturating_add(vp) >= total - 1;
                if at_bottom {
                    self.scroll_offset = total.saturating_sub(vp);
                }
                clear_lines(out, self.prev_drawn_lines);
                self.prev_drawn_lines = draw_expanded(
                    out,
                    &self.buf,
                    self.scroll_offset,
                    vp,
                    true,
                    self.input_done,
                );
            },
        }
    }

    /// Adds `line`, trimmed.
    fn add_line(&mut self, line: &str)
        requires
            old(self).wf(),
        ensures
            final(self).wf(),
            final(self)@ == (Screen { history: old(self)@.history.push(trim(line@)), ..old(self)@ }),
            final(self).forwards_keys() == old(self).forwards_keys(),
            final(self).countdown_start() == old(self).countdown_start(),
    {
        let t = trimmed(line);
        self.buf.push(t);
    }

    fn handle_pty_output(&mut self, data: &[u8], rows: u16) -> (r: Reaction)
        requires
            old(self).wf(),
        ensures
            final(self).wf(),
            final(self)@ == on_pty_output(old(self)@, data@, rows).next,
            r.matches(on_pty_output(old(self)@, data@, rows)),
            final(self).forwards_keys() == old(self).forwards_keys(),
            final(self).countdown_start() == old(self).countdown_start(),
    {
        let ghost m = self@;
        let new_lines = extract_lines(&mut self.pty_remainder, data);
        let ghost all = m.remainder + data@;
        let ghost news = complete_lines(all).map_values(|l: Seq<u8>| trim(pty_line_text(l)));
        let ghost texts = new_lines@.map_values(|s: String| s@);
        assert(texts.len() == new_lines@.len());
        assert(texts == complete_lines(all).map_values(|l: Seq<u8>| pty_line_text(l)));
        assert(news.len() == new_lines@.len());
        assert forall|j: int| 0 <= j < news.len() implies news[j] == trim(
            #[trigger] new_lines@[j]@,
        ) by {
            assert(texts[j] == new_lines@[j]@);
            assert(texts[j] == pty_line_text(complete_lines(all)[j]));
        }
        let mut out = String::new();
        if new_lines.len() == 0 {
            assert(self@ == on_pty_output(m, data@, rows).next);
            return Reaction { output: out, to_pty: None, quit: false };
        }
        let mut i: usize = 0;
        while i < new_lines.len()
            invariant
                self.wf(),
                i <= new_lines@.len(),
                news.len() == new_lines@.len(),
                forall|j: int|
                    0 <= j < news.len() ==> news[j] == trim(#[trigger] new_lines@[j]@),
                self@ == (Screen {
                    history: m.history + news.take(i as int),
                    remainder: unfinished(all),
                    ..m
                }),
                self.forwards_keys() == old(self).forwards_keys(),
                self.countdown_start() == old(self).countdown_start(),
            decreases new_lines@.len() - i,
        {
            self.add_line(new_lines[i].as_str());
            i += 1;
            assert(m.history + news.take(i as int) =~= (m.history + news.take(i - 1)).push(
                news[i - 1],
            ));
        }
        assert(news.take(i as int) =~= news);
        self.redraw_after_push(&mut out, rows);
        Reaction { output: out, to_pty: None, quit: false }
    }

    /// Redraws the expanded page at `scroll_offset`, erasing the last frame.
    fn redraw_page(&mut self, out: &mut String, vp: usize)
        requires
            old(self).wf(),
            vp < usize::MAX,
        ensures
            final(self).wf(),
            final(self)@ == (Screen {
                prev_drawn: visible_count(
                    old(self)@.history.len(),
                    old(self)@.scroll,
                    vp as nat,
                ) + 1,
                ..old(self)@
            }),
            final(out)@ == old(out)@ + clear_text(old(self)@.prev_drawn) + expanded_frame(
                old(self)@.history,
                old(self)@.scroll,
                vp as nat,
                true,
                old(self)@.input_done,
            ),
            final(self).forwards_keys() == old(self).forwards_keys(),
            final(self).countdown_start() == old(self).countdown_start(),
    {
        clear_lines(out, self.prev_drawn_lines);
        self.prev_drawn_lines = draw_expanded(
            out,
            &self.buf,
            self.scroll_offset,
            vp,
            true,
            self.input_done,
        );
    }

    fn handle_key(&mut self, key: KeyEvent, rows: u16) -> (r: Reaction)
        requires
            old(self).wf(),
        ensures
            final(self).wf(),
            final(self)@ == on_key(old(self)@, key, rows, old(self).forwards_keys()).next,
            r.matches(on_key(old(self)@, key, rows, old(self).forwards_keys())),
            final(self).forwards_keys() == old(self).forwards_keys(),
            final(self).countdown_start() == old(self).countdown_start(),
    {
        let mut out = String::new();
        let vp = viewport(rows);
        let total = self.buf.total_count();
        if key.code == KeyCode::Tab {
            self.countdown = None;
            match self.mode {
                Mode::Collapsed => {
                    clear_lines(&mut out, self.prev_drawn_lines);
                    push_str(&mut out, "\x1B[?1049h");
                    self.mode = Mode::Expanded;
                    self.scroll_offset = total.saturating_sub(vp);
                    self.prev_drawn_lines = draw_expanded(
                        &mut out,
                        &self.buf,
                        self.scroll_offset,
                        vp,
                        true,
                        self.input_done,
                    );
                },
                Mode::Expanded => {
                    push_str(&mut out, "\x1B[?1049l");
                    self.mode = Mode::Collapsed;
                    self.first = true;
                    self.prev_drawn_lines = draw_collapsed(
                        &mut out,
                        &self.buf,
                        0,
                        true,
                        true,
                        self.input_done,
                        None,
                    );
                },
            }
            return Reaction { output: out, to_pty: None, quit: false };
        }
        if self.forward_keys && self.mode == Mode::Collapsed && !self.input_done {
            let bytes = key_to_bytes(&key);
            return Reaction { output: out, to_pty: bytes, quit: false };
        }
        if (key.code == KeyCode::Char('c') && key.ctrl) || key.code == KeyCode::Char('q') {
            return Reaction { output: out, to_pty: None, quit: true };
        }
        if self.mode == Mode::Expanded {
            let max_offset = total.saturating_sub(vp);
            let s = self.scroll_offset;
            let new_offset = match key.code {
                KeyCode::Up | KeyCode::Char('k') => s.saturating_sub(1),
                KeyCode::Down | KeyCode::Char('j') => {
                    if s < max_offset {
                        s + 1
                    } else {
                        max_offset
                    }
                },
                KeyCode::PageUp => s.saturating_sub(vp),
                KeyCode::PageDown => {
                    if s >= max_offset {
                        max_offset
                    } else if vp <= max_offset - s {
                        s + vp
                    } else {
                        max_offset
                    }
                },
                KeyCode::Home | KeyCode::Char('g') => 0,
                KeyCode::End | KeyCode::Char('G') => max_offset,
                _ => s,
            };
            if new_offset != s {
                self.scroll_offset = new_offset;
                self.redraw_page(&mut out, vp);
            }
        }
        Reaction { output: out, to_pty: None, quit: false }
    }

    fn handle_input_done(&mut self, rows: u16) -> (r: Reaction)
        requires
            old(self).wf(),
        ensures
            final(self).wf(),
            final(self)@ == on_input_done(old(self)@, rows, old(self).countdown_start()).next,
            r.matches(on_input_done(old(self)@, rows, old(self).countdown_start())),
            final(self).forwards_keys() == old(self).forwards_keys(),
            final(self).countdown_start() == old(self).countdown_start(),
    {
        let mut out = String::new();
        self.input_done = true;
        self.countdown = Some(self.countdown_secs);
        if self.mode == Mode::Collapsed {
            if self.prev_drawn_lines > 0 {
                clear_lines(&mut out, self.prev_drawn_lines);
            }
            self.prev_drawn_lines = draw_collapsed(
                &mut out,
                &self.buf,
                0,
                true,
                true,
                true,
                self.countdown,
            );
        } else {
            let vp = viewport(rows);
            self.redraw_page(&mut out, vp);
        }
        Reaction { output: out, to_pty: None, quit: false }
    }

    /// Reacts to `event` on a terminal of `rows` rows.
    pub fn handle(&mut self, event: Event, rows: u16) -> (r: Reaction)
        requires
            old(self).wf(),
        ensures
            final(self).wf(),
            final(self)@ == on_event(
                old(self)@,
                event,
                rows,
                old(self).forwards_keys(),
                old(self).countdown_start(),
            ).next,
            r.matches(
                on_event(
                    old(self)@,
                    event,
                    rows,
                    old(self).forwards_keys(),
                    old(self).countdown_start(),
                ),
            ),
            final(self).forwards_keys() == old(self).forwards_keys(),
            final(self).countdown_start() == old(self).countdown_start(),
    {
        match event {
            Event::Line(line) => {
                self.add_line(line.as_str());
                let mut out = String::new();
                self.redraw_after_push(&mut out, rows);
                Reaction { output: out, to_pty: None, quit: false }
            },
            Event::PtyOutput(data) => self.handle_pty_output(data.as_slice(), rows),
            Event::Key(key) => self.handle_key(key, rows),
            Event::InputDone => self.handle_input_done(rows),
        }
    }

    /// A second of the countdown has passed without an event.
    pub fn tick(&mut self) -> (r: Reaction)
        requires
            old(self).wf(),
            old(self)@.countdown matches Some(n) && n > 0,
        ensures
            final(self).wf(),
            final(self)@ == on_tick(old(self)@, old(self)@.countdown->0).next,
            r.matches(on_tick(old(self)@, old(self)@.countdown->0)),
            final(self).forwards_keys() == old(self).forwards_keys(),
            final(self).countdown_start() == old(self).countdown_start(),
    {
        let mut out = String::new();
        let remaining = match self.countdown {
            Some(n) => n,
            None => 1,
        };
        let left = remaining - 1;
        self.countdown = Some(left);
        if left == 0 {
            return Reaction { output: out, to_pty: None, quit: true };
        }
        if self.mode == Mode::Collapsed {
            clear_lines(&mut out, self.prev_drawn_lines);
            self.prev_drawn_lines = draw_collapsed(
                &mut out,
                &self.buf,
                0,
                true,
                true,
                true,
                self.countdown,
            );
        }
        Reaction { output: out, to_pty: None, quit: false }
    }

    /// What to write when the viewer ends: leave the alternate screen if it
    /// is shown, and reset the rendition.
    pub fn finish(&self) -> (r: String)
        ensures
            r@ == if self@.mode == Mode::Expanded {
                "\x1B[?1049l"@ + "\x1B[0m"@
            } else {
                "\x1B[0m"@
            },
    {
        let mut out = String::new();
        if self.mode == Mode::Expanded {
            push_str(&mut out, "\x1B[?1049l");
        }
        push_str(&mut out, "\x1B[0m");
        out
    }
}


// ---------------------------------------------------------------------
// Laws of the viewer
// ---------------------------------------------------------------------

/// The screen after `k` seconds of the countdown have passed without an event.
pub open spec fn ticked(m: Screen, k: nat) -> Screen
    decreases k,
{
    if k == 0 {
        m
    } else {
        let p = ticked(m, (k - 1) as nat);
        on_tick(p, p.countdown->0).next
    }
}

proof fn lemma_ticked_countdown(m: Screen, n: u8, k: nat)
    requires
        m.countdown == Some(n),
        k < n,
    ensures
        ticked(m, k).countdown == Some((n - k) as u8),
    decreases k,
{
    if k > 0 {
        lemma_ticked_countdown(m, n, (k - 1) as nat);
    }
}

/// Once the input has closed, the viewer ends after exactly as many quiet
/// seconds as the countdown starts from: every earlier second only counts
/// down.
pub proof fn law_countdown_ends_viewer(m: Screen, rows: u16, secs: u8, k: nat)
    requires
        secs >= 1,
        k < secs,
    ensures
        ({
            let d = on_input_done(m, rows, secs).next;
            &&& ticked(d, k).countdown == Some((secs - k) as u8)
            &&& on_tick(ticked(d, k), (secs - k) as u8).quit == (k == secs - 1)
        }),
{
    let d = on_input_done(m, rows, secs).next;
    lemma_ticked_countdown(d, secs, k);
}

/// `q`, and Ctrl+C, end the viewer whenever keys are not going to the child.
pub proof fn law_quit_keys(m: Screen, k: KeyEvent, rows: u16, forward_keys: bool)
    requires
        k.code == KeyCode::Char('q') || (k.code == KeyCode::Char('c') && k.ctrl),
        !goes_to_child(m, forward_keys),
    ensures
        on_key(m, k, rows, forward_keys).quit,
        on_key(m, k, rows, forward_keys).next == m,
{
}

/// While keys go to the child, every key but Tab is passed on as its bytes,
/// and nothing else changes.
pub proof fn law_keys_go_to_child(m: Screen, k: KeyEvent, rows: u16)
    requires
        goes_to_child(m, true),
        k.code != KeyCode::Tab,
    ensures
        on_key(m, k, rows, true).to_pty == key_bytes_spec(k),
        on_key(m, k, rows, true).next == m,
        !on_key(m, k, rows, true).quit,
{
}

/// Tab switches between the collapsed and the expanded view, stops the
/// countdown, and keeps every line; pressing it twice gives back the view
/// one started from.
pub proof fn law_tab_toggles(m: Screen, rows: u16, rows2: u16, forward_keys: bool)
    ensures
        ({
            let tab = KeyEvent { code: KeyCode::Tab, ctrl: false };
            let once = on_key(m, tab, rows, forward_keys).next;
            let twice = on_key(once, tab, rows2, forward_keys).next;
            &&& once.mode != m.mode
            &&& once.countdown is None
            &&& once.history == m.history
            &&& twice.mode == m.mode
            &&& twice.history == m.history
        }),
{
}

/// In the expanded view, Home (or `g`) goes to the first line and End (or
/// `G`) to the last page; no navigation key scrolls further down than the
/// last page, unless the page was already further down.
pub proof fn law_navigation(m: Screen, k: KeyEvent, rows: u16, forward_keys: bool)
    requires
        m.mode == Mode::Expanded,
        k.code != KeyCode::Tab,
        k.code != KeyCode::Char('q'),
        !(k.code == KeyCode::Char('c') && k.ctrl),
    ensures
        ({
            let vp = viewport_of(rows);
            let last_page = sat_sub(m.history.len(), vp);
            let next = on_key(m, k, rows, forward_keys).next;
            &&& (k.code == KeyCode::Home || k.code == KeyCode::Char('g')) ==> next.scroll == 0
            &&& (k.code == KeyCode::End || k.code == KeyCode::Char('G')) ==> next.scroll == last_page
            &&& next.scroll <= m.scroll || next.scroll <= last_page
            &&& next.history == m.history
        }),
{
}

/// A new line in the expanded view moves the page only when it was showing
/// the end: when the page ended before the last line (of the history with
/// the new line), it stays where it was; otherwise it goes to the last
/// page. The new line is added, trimmed, at the end of the history.
pub proof fn law_new_line_keeps_page_unless_at_end(m: Screen, line: Seq<char>, rows: u16)
    requires
        m.mode == Mode::Expanded,
    ensures
        ({
            let vp = viewport_of(rows);
            let total = m.history.len() + 1;
            let next = on_line(m, line, rows).next;
            &&& next.history == m.history.push(trim(line))
            &&& next.mode == Mode::Expanded
            &&& m.scroll + vp < total - 1 ==> next.scroll == m.scroll
            &&& m.scroll + vp >= total - 1 ==> next.scroll == sat_sub(total, vp)
        }),
{
}

/// Output of the child that completes lines in the expanded view moves the
/// page only when it was showing the end, as a new line does.
pub proof fn law_new_output_keeps_page_unless_at_end(m: Screen, data: Seq<u8>, rows: u16)
    requires
        m.mode == Mode::Expanded,
        complete_lines(m.remainder + data).len() > 0,
    ensures
        ({
            let vp = viewport_of(rows);
            let total = m.history.len() + complete_lines(m.remainder + data).len();
            let next = on_pty_output(m, data, rows).next;
            &&& next.history.len() == total
            &&& m.scroll + vp < total - 1 ==> next.scroll == m.scroll
            &&& m.scroll + vp >= total - 1 ==> next.scroll == sat_sub(total, vp)
        }),
{
}

/// In the expanded view the line and page keys move the page by exactly one
/// line or one page, never past the first line or the last page: Down and
/// `j` go one line further unless the page is at (or past) the last page,
/// where they put it on the last page; Up and `k` go one line back unless at
/// the first line; PageDown and PageUp do the same by a page.
pub proof fn law_scroll_steps(m: Screen, k: KeyEvent, rows: u16, forward_keys: bool)
    requires
        m.mode == Mode::Expanded,
    ensures
        ({
            let vp = viewport_of(rows);
            let last_page = sat_sub(m.history.len(), vp);
            let next = on_key(m, k, rows, forward_keys).next;
            &&& (k.code == KeyCode::Down || k.code == KeyCode::Char('j')) ==> next.scroll == (
            if m.scroll + 1 <= last_page {
                m.scroll + 1
            } else {
                last_page
            })
            &&& (k.code == KeyCode::Up || k.code == KeyCode::Char('k')) ==> next.scroll == (
            if m.scroll >= 1 {
                (m.scroll - 1) as nat
            } else {
                0
            })
            &&& k.code == KeyCode::PageDown ==> next.scroll == (if m.scroll + vp <= last_page {
                m.scroll + vp
            } else {
                last_page
            })
            &&& k.code == KeyCode::PageUp ==> next.scroll == (if m.scroll >= vp {
                (m.scroll - vp) as nat
            } else {
                0
            })
            &&& !on_key(m, k, rows, forward_keys).quit ==> next.history == m.history
        }),
{
}

/// Tab from the collapsed view opens the expanded view on its last page
/// (the end of the input), whatever page it showed before; Tab from the
/// expanded view goes back to the collapsed view, drawn afresh.
pub proof fn law_tab_opens_at_last_page(m: Screen, rows: u16, forward_keys: bool)
    ensures
        ({
            let tab = KeyEvent { code: KeyCode::Tab, ctrl: false };
            let next = on_key(m, tab, rows, forward_keys);
            &&& m.mode == Mode::Collapsed ==> next.next.mode == Mode::Expanded && next.next.scroll
                == sat_sub(m.history.len(), viewport_of(rows))
            &&& m.mode == Mode::Expanded ==> next.next.mode == Mode::Collapsed && next.next.first
            &&& next.to_pty is None
            &&& !next.quit
        }),
{
}

/// Keys reach the child only in pty mode, while the collapsed view is shown
/// and the input has not closed; once the input has closed no key is passed
/// on, and `q` or Ctrl+C ends the viewer.
pub proof fn law_keys_reach_child_only_while_it_runs(
    m: Screen,
    k: KeyEvent,
    rows: u16,
    forward_keys: bool,
)
    ensures
        on_key(m, k, rows, forward_keys).to_pty is Some ==> forward_keys && m.mode
            == Mode::Collapsed && !m.input_done && k.code != KeyCode::Tab,
        m.input_done ==> on_key(m, k, rows, forward_keys).to_pty is None,
        m.input_done && (k.code == KeyCode::Char('q') || (k.code == KeyCode::Char('c') && k.ctrl))
            ==> on_key(m, k, rows, forward_keys).quit,
        (forward_keys && m.mode == Mode::Collapsed && !m.input_done && k.code != KeyCode::Tab)
            ==> on_key(m, k, rows, forward_keys).to_pty == key_bytes_spec(k) && !on_key(
            m,
            k,
            rows,
            forward_keys,
        ).quit,
{
}

// ---------------------------------------------------------------------
// Without a terminal to read keys from
// ---------------------------------------------------------------------

/// The tail shown when no terminal is available for keys: each line is
/// added and the window redrawn in place, until an empty line.
pub struct PlainTail {
    buf: LineBuffer,
    first: bool,
    prev_drawn_lines: usize,
}

/// What a plain tail knows between two lines.
pub struct PlainState {
    pub history: Seq<Seq<char>>,
    pub first: bool,
    pub prev_drawn: nat,
}

impl View for PlainTail {
    type V = PlainState;

    closed spec fn view(&self) -> PlainState {
        PlainState {
            history: self.buf.history(),
            first: self.first,
            prev_drawn: self.prev_drawn_lines as nat,
        }
    }
}

/// What a plain tail writes for a line (trimmed, and not empty) that brings
/// its history to `h`.
pub open spec fn plain_frame(h: Seq<Seq<char>>, first: bool, prev_drawn: nat) -> Seq<char> {
    (if first {
        Seq::empty()
    } else {
        clear_text(prev_drawn)
    }) + lines_out(display_window(h, TAIL_LINES as nat), false)
}

impl PlainTail {
    pub closed spec fn wf(&self) -> bool {
        &&& self.buf.wf()
        &&& self.buf.cap() == TAIL_LINES
    }

    pub fn new() -> (r: PlainTail)
        ensures
            r.wf(),
            r@ == (PlainState { history: Seq::empty(), first: true, prev_drawn: 0 }),
    {
        PlainTail { buf: LineBuffer::new(TAIL_LINES), first: true, prev_drawn_lines: 0 }
    }

    /// Takes a line of input. An empty line (after trimming) ends the tail:
    /// `None`, nothing changed. Otherwise the trimmed line is added, and the
    /// text that redraws the window in place is returned.
    pub fn feed_line(&mut self, line: &str) -> (r: Option<String>)
        requires
            old(self).wf(),
        ensures
            final(self).wf(),
            trim(line@).len() == 0 ==> r is None && final(self)@ == old(self)@,
            trim(line@).len() > 0 ==> {
                let h = old(self)@.history.push(trim(line@));
                &&& r matches Some(s) && s@ == plain_frame(h, old(self)@.first, old(self)@.prev_drawn)
                &&& final(self)@ == (PlainState {
                    history: h,
                    first: false,
                    prev_drawn: display_window(h, TAIL_LINES as nat).len(),
                })
            },
    {
        let t = trimmed(line);
        if t.as_str().is_empty() {
            return None;
        }
        let mut out = String::new();
        if !self.first {
            clear_lines(&mut out, self.prev_drawn_lines);
        }
        self.buf.push(t);
        let lines = self.buf.display_lines();
        let ghost before = out@;
        let mut i: usize = 0;
        while i < lines.len()
            invariant
                i <= lines@.len(),
                out@ == before + lines_out(lines@.take(i as int).map_values(|s: String| s@), false),
            decreases lines@.len() - i,
        {
            write_line(&mut out, lines[i].as_str(), false);
            let ghost m = lines@.take(i + 1).map_values(|s: String| s@);
            assert(m.drop_last() =~= lines@.take(i as int).map_values(|s: String| s@));
            i += 1;
            assert(out@ =~= before + lines_out(
                lines@.take(i as int).map_values(|s: String| s@),
                false,
            ));
        }
        assert(lines@.take(i as int) =~= lines@);
        self.prev_drawn_lines = lines.len();
        self.first = false;
        Some(out)
    }
}

} // verus!
