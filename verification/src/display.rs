//! The text that redraws the tail in place (collapsed view) or shows a
//! scrollable page of it (expanded view).

use vstd::prelude::*;
use crate::buffer::{LineBuffer, display_range_spec, display_window, window};
use crate::text::{dec, push_dec, push_str};

verus! {

/// A line as written to the terminal: in raw mode the cursor is also taken
/// back to the first column.
pub open spec fn line_out(line: Seq<char>, raw_mode: bool) -> Seq<char> {
    if raw_mode {
        line + "\r\n"@
    } else {
        line + "\n"@
    }
}

/// Every line of `lines`, written one after the other.
pub open spec fn lines_out(lines: Seq<Seq<char>>, raw_mode: bool) -> Seq<char>
    decreases lines.len(),
{
    if lines.len() == 0 {
        Seq::empty()
    } else {
        lines_out(lines.drop_last(), raw_mode) + line_out(lines.last(), raw_mode)
    }
}

/// `n` times: cursor one line up, then erase that line.
pub open spec fn erase_up(n: nat) -> Seq<char>
    decreases n,
{
    if n == 0 {
        Seq::empty()
    } else {
        erase_up((n - 1) as nat) + "\x1B[1A\x1B[2K"@
    }
}

/// Resets the rendition, then erases the last `n` lines drawn.
pub open spec fn clear_text(n: nat) -> Seq<char> {
    "\x1B[0m"@ + erase_up(n)
}

/// The status line under the collapsed view.
pub open spec fn collapsed_status(total: nat, input_done: bool, countdown: Option<u8>) -> Seq<char> {
    "\x1B[0;2m[Tab: expand | "@ + dec(total) + match countdown {
        Some(n) => " lines | done | exiting in "@ + dec(n as nat) + "s]\x1B[0m"@,
        None => if input_done {
            " lines | done]\x1B[0m"@
        } else {
            " lines]\x1B[0m"@
        },
    }
}

/// The collapsed view: unless it is the first frame, the previous one (of
/// `prev_lines` lines) is erased; then the window and a status line.
pub open spec fn collapsed_frame(
    h: Seq<Seq<char>>,
    cap: nat,
    prev_lines: nat,
    first: bool,
    raw_mode: bool,
    input_done: bool,
    countdown: Option<u8>,
) -> Seq<char> {
    (if first {
        Seq::empty()
    } else {
        clear_text(prev_lines)
    }) + lines_out(display_window(h, cap), raw_mode) + line_out(
        collapsed_status(h.len(), input_done, countdown),
        raw_mode,
    )
}

/// How many lines a page of `viewport` lines from `offset` on shows.
pub open spec fn visible_count(total: nat, offset: nat, viewport: nat) -> nat {
    if offset >= total {
        0
    } else if viewport < total - offset {
        viewport
    } else {
        (total - offset) as nat
    }
}

/// The status line under the expanded view.
pub open spec fn expanded_status(total: nat, offset: nat, viewport: nat, input_done: bool) -> Seq<
    char,
> {
    let end = offset + visible_count(total, offset, viewport);
    "\x1B[0;2m[Tab: collapse | "@ + dec(offset + 1) + "-"@ + dec(end) + " of "@ + dec(total) + (
    if end < total {
        " | "@ + dec((total - end) as nat) + " new \u{2193}"@
    } else {
        Seq::empty()
    }) + (if input_done {
        " | done"@
    } else {
        Seq::empty()
    }) + "]\x1B[0m"@
}

/// The expanded view: a page of `viewport` lines from `offset` on, then a
/// status line.
pub open spec fn expanded_frame(
    h: Seq<Seq<char>>,
    offset: nat,
    viewport: nat,
    raw_mode: bool,
    input_done: bool,
) -> Seq<char> {
    lines_out(display_range_spec(h, offset, viewport), raw_mode) + line_out(
        expanded_status(h.len(), offset, viewport, input_done),
        raw_mode,
    )
}

/// Writes `line` as a line of the terminal.
pub fn write_line(out: &mut String, line: &str, raw_mode: bool)
    ensures
        final(out)@ == old(out)@ + line_out(line@, raw_mode),
{
    push_str(out, line);
    if raw_mode {
        push_str(out, "\r\n");
    } else {
        push_str(out, "\n");
    }
    assert(out@ =~= old(out)@ + line_out(line@, raw_mode));
}

/// Resets the rendition and erases the last `num_lines` lines drawn.
pub fn clear_lines(out: &mut String, num_lines: usize)
    ensures
        final(out)@ == old(out)@ + clear_text(num_lines as nat),
{
    push_str(out, "\x1B[0m");
    let mut i: usize = 0;
    while i < num_lines
        invariant
            i <= num_lines,
            out@ == old(out)@ + "\x1B[0m"@ + erase_up(i as nat),
        decreases num_lines - i,
    {
        push_str(out, "\x1B[1A\x1B[2K");
        i += 1;
        assert(out@ =~= old(out)@ + "\x1B[0m"@ + erase_up(i as nat));
    }
    assert(out@ =~= old(out)@ + clear_text(num_lines as nat));
}

fn write_lines(out: &mut String, lines: &Vec<String>, raw_mode: bool)
    ensures
        final(out)@ == old(out)@ + lines_out(lines@.map_values(|s: String| s@), raw_mode),
{
    let mut i: usize = 0;
    while i < lines.len()
        invariant
            i <= lines@.len(),
            out@ == old(out)@ + lines_out(lines@.take(i as int).map_values(|s: String| s@), raw_mode),
        decreases lines@.len() - i,
    {
        let ghost before = out@;
        write_line(out, lines[i].as_str(), raw_mode);
        let ghost m = lines@.take(i + 1).map_values(|s: String| s@);
        assert(m.drop_last() =~= lines@.take(i as int).map_values(|s: String| s@));
        i += 1;
        assert(out@ =~= old(out)@ + lines_out(lines@.take(i as int).map_values(|s: String| s@), raw_mode));
    }
    assert(lines@.take(i as int) =~= lines@);
}

/// Draws the collapsed view and returns how many lines it took.
pub fn draw_collapsed(
    out: &mut String,
    buf: &LineBuffer,
    prev_lines: usize,
    first: bool,
    raw_mode: bool,
    input_done: bool,
    countdown: Option<u8>,
) -> (r: usize)
    requires
        buf.wf(),
        window(buf.history(), buf.cap()).len() < usize::MAX,
    ensures
        final(out)@ == old(out)@ + collapsed_frame(
            buf.history(),
            buf.cap(),
            prev_lines as nat,
            first,
            raw_mode,
            input_done,
            countdown,
        ),
        r == display_window(buf.history(), buf.cap()).len() + 1,
{
    let ghost start = out@;
    if !first {
        clear_lines(out, prev_lines);
    }
    let ghost cleared = out@;
    let lines = buf.display_lines();
    write_lines(out, &lines, raw_mode);
    let ghost written = out@;
    let mut status = String::new();
    push_str(&mut status, "\x1B[0;2m[Tab: expand | ");
    push_dec(&mut status, buf.total_count() as u128);
    match countdown {
        Some(n) => {
            push_str(&mut status, " lines | done | exiting in ");
            push_dec(&mut status, n as u128);
            push_str(&mut status, "s]\x1B[0m");
        },
        None => {
            if input_done {
                push_str(&mut status, " lines | done]\x1B[0m");
            } else {
                push_str(&mut status, " lines]\x1B[0m");
            }
        },
    }
    assert(status@ =~= collapsed_status(buf.history().len(), input_done, countdown));
    write_line(out, status.as_str(), raw_mode);
    assert(out@ =~= start + collapsed_frame(
        buf.history(),
        buf.cap(),
        prev_lines as nat,
        first,
        raw_mode,
        input_done,
        countdown,
    ));
    lines.len() + 1
}

/// Draws a page of the expanded view and returns how many lines it took.
pub fn draw_expanded(
    out: &mut String,
    buf: &LineBuffer,
    scroll_offset: usize,
    viewport_height: usize,
    raw_mode: bool,
    input_done: bool,
) -> (r: usize)
    requires
        buf.wf(),
        visible_count(buf.history().len(), scroll_offset as nat, viewport_height as nat)
            < usize::MAX,
    ensures
        final(out)@ == old(out)@ + expanded_frame(
            buf.history(),
            scroll_offset as nat,
            viewport_height as nat,
            raw_mode,
            input_done,
        ),
        r == visible_count(buf.history().len(), scroll_offset as nat, viewport_height as nat) + 1,
{
    let ghost start = out@;
    let total = buf.total_count();
    let visible: usize = if scroll_offset >= total {
        0
    } else if viewport_height < total - scroll_offset {
        viewport_height
    } else {
        total - scroll_offset
    };
    let lines = buf.display_range(scroll_offset, viewport_height);
    write_lines(out, &lines, raw_mode);
    let end = scroll_offset + visible;
    let mut status = String::new();
    push_str(&mut status, "\x1B[0;2m[Tab: collapse | ");
    push_dec(&mut status, scroll_offset as u128 + 1);
    push_str(&mut status, "-");
    push_dec(&mut status, end as u128);
    push_str(&mut status, " of ");
    push_dec(&mut status, total as u128);
    if end < total {
        push_str(&mut status, " | ");
        push_dec(&mut status, (total - end) as u128);
        push_str(&mut status, " new \u{2193}");
    }
    if input_done {
        push_str(&mut status, " | done");
    }
    push_str(&mut status, "]\x1B[0m");
    assert(status@ =~= expanded_status(
        buf.history().len(),
        scroll_offset as nat,
        viewport_height as nat,
        input_done,
    ));
    write_line(out, status.as_str(), raw_mode);
    assert(out@ =~= start + expanded_frame(
        buf.history(),
        scroll_offset as nat,
        viewport_height as nat,
        raw_mode,
        input_done,
    ));
    visible + 1
}

} // verus!
