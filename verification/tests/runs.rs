//! The program's end-to-end cases, run on the library that makes
//! its decisions (the process, pty and pipe plumbing is not exercised here).

use ttail::event::Event;
use ttail::program::{child_exit_code, choose_launch, countdown_secs_from, Launch};
use ttail::session::{PlainTail, Session};

/// Feeds piped lines to the tail shown when no terminal is available, as
/// the program does, and returns everything it writes.
fn pipe_output(lines: &[&str]) -> String {
    let mut tail = PlainTail::new();
    let mut out = String::new();
    for line in lines {
        match tail.feed_line(line) {
            Some(text) => out.push_str(&text),
            None => break,
        }
    }
    out
}

/// Runs a child's output through the viewer in pty mode, with the countdown
/// that the tests set, until the viewer ends; returns what it writes.
fn pty_output(chunks: &[&[u8]]) -> (String, usize) {
    let mut s = Session::new(true, countdown_secs_from(Some("1")));
    let mut out = String::new();
    for c in chunks {
        out.push_str(&s.handle(Event::PtyOutput(c.to_vec()), 24).output);
    }
    out.push_str(&s.handle(Event::InputDone, 24).output);
    let mut ticks = 0;
    while !s.expired() {
        let r = s.tick();
        out.push_str(&r.output);
        ticks += 1;
        if r.quit {
            break;
        }
    }
    out.push_str(&s.finish());
    (out, ticks)
}

#[test]
fn no_args_piped_stdin_exits_on_eof() {
    assert_eq!(choose_launch(false, None), Launch::Pipe);
    assert_eq!(pipe_output(&[]), "");
}

#[test]
fn no_args_with_tty_shows_usage() {
    assert_eq!(choose_launch(true, None), Launch::Usage);
}

#[test]
fn pipe_mode_displays_lines() {
    let stdout = pipe_output(&["alpha", "beta", "gamma"]);
    assert!(stdout.contains("alpha"), "missing alpha: {}", stdout);
    assert!(stdout.contains("beta"), "missing beta: {}", stdout);
    assert!(stdout.contains("gamma"), "missing gamma: {}", stdout);
}

#[test]
fn pipe_mode_empty_line_stops() {
    let stdout = pipe_output(&["hello", "", "should not appear"]);
    assert!(stdout.contains("hello"), "missing hello: {}", stdout);
    assert!(
        !stdout.contains("should not appear"),
        "unexpected line after empty line: {}",
        stdout
    );
}

#[test]
fn pipe_mode_shows_only_last_window() {
    let lines: Vec<String> = (0..20).map(|i| format!("line {}", i)).collect();
    let refs: Vec<&str> = lines.iter().map(|l| l.as_str()).collect();
    let stdout = pipe_output(&refs);
    assert!(stdout.contains("line 19"), "missing line 19: {}", stdout);
}

#[test]
fn pipe_mode_preserves_ansi_colors() {
    let stdout = pipe_output(&["\x1B[31mred text\x1B[0m", "plain text"]);
    assert!(
        stdout.contains("\x1B[31m"),
        "ANSI red code not preserved: {}",
        stdout
    );
}

#[test]
fn pty_mode_runs_echo() {
    assert_eq!(choose_launch(true, Some("echo")), Launch::Pty);
    let (text, _) = pty_output(&[b"hello from pty\r\n"]);
    assert!(text.contains("hello from pty"), "child output not found in: {:?}", text);
    assert_eq!(child_exit_code(0), 0);
}

#[test]
fn pty_mode_propagates_exit_code() {
    assert_eq!(child_exit_code(42 << 8), 42, "expected exit 42");
}

#[test]
fn pty_mode_invalid_command_exits_127() {
    assert_eq!(child_exit_code(127 << 8), 127, "expected exit 127");
}

#[test]
fn pty_mode_multiline_output() {
    let (text, _) = pty_output(&[b"line1\r\nli", b"ne2\r\nline3\r\n"]);
    assert!(text.contains("line1"), "missing line1: {:?}", text);
    assert!(text.contains("line2"), "missing line2: {:?}", text);
    assert!(text.contains("line3"), "missing line3: {:?}", text);
}

#[test]
fn pty_mode_auto_exits_after_countdown() {
    // TTAIL_COUNTDOWN_SECS=1: the viewer ends after one quiet second.
    let (_, ticks) = pty_output(&[]);
    assert_eq!(ticks, 1);
}

#[test]
fn pty_mode_countdown_shows_in_output() {
    let (text, _) = pty_output(&[b"done-test\r\n"]);
    assert!(text.contains("exiting in"), "expected countdown in output: {:?}", text);
}

#[test]
fn lines_split_over_calls_match_one_call() {
    let mut once = Vec::new();
    let all = ttail::extract_lines(&mut once, b"ab\ncd\nef");
    let mut twice = Vec::new();
    let mut first = ttail::extract_lines(&mut twice, b"ab\nc");
    first.extend(ttail::extract_lines(&mut twice, b"d\nef"));
    assert_eq!(all, first);
    assert_eq!(once, twice);
}
