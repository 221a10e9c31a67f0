use ttail::display::{clear_lines, draw_collapsed, draw_expanded, write_line};
use ttail::event::{Event, KeyCode, KeyEvent, Mode};
use ttail::program::{child_exit_code, choose_launch, countdown_secs_from, size_or_default, Launch};
use ttail::session::{PlainTail, Session};
use ttail::text::trimmed;
use ttail::LineBuffer;

fn key(code: KeyCode) -> Event {
    Event::Key(KeyEvent { code, ctrl: false })
}

#[test]
fn write_line_raw_and_cooked() {
    let mut out = String::new();
    write_line(&mut out, "a", true);
    write_line(&mut out, "b", false);
    assert_eq!(out, "a\r\nb\n");
}

#[test]
fn clear_lines_text() {
    let mut out = String::new();
    clear_lines(&mut out, 2);
    assert_eq!(out, "\x1B[0m\x1B[1A\x1B[2K\x1B[1A\x1B[2K");
    let mut none = String::new();
    clear_lines(&mut none, 0);
    assert_eq!(none, "\x1B[0m");
}

#[test]
fn collapsed_frame_text() {
    let mut buf = LineBuffer::new(2);
    buf.push("one".to_string());
    buf.push("two".to_string());
    buf.push("three".to_string());
    let mut out = String::new();
    let n = draw_collapsed(&mut out, &buf, 3, false, true, false, None);
    assert_eq!(n, 3);
    assert_eq!(
        out,
        "\x1B[0m\x1B[1A\x1B[2K\x1B[1A\x1B[2K\x1B[1A\x1B[2Ktwo\r\nthree\r\n\x1B[0;2m[Tab: expand | 3 lines]\x1B[0m\r\n"
    );
    let mut done = String::new();
    draw_collapsed(&mut done, &buf, 0, true, false, true, None);
    assert!(done.ends_with("[Tab: expand | 3 lines | done]\x1B[0m\n"));
    let mut counting = String::new();
    draw_collapsed(&mut counting, &buf, 0, true, false, true, Some(4));
    assert!(counting.ends_with("[Tab: expand | 3 lines | done | exiting in 4s]\x1B[0m\n"));
}

#[test]
fn expanded_frame_text() {
    let mut buf = LineBuffer::new(10);
    for i in 0..10 {
        buf.push(format!("l{i}"));
    }
    let mut out = String::new();
    let n = draw_expanded(&mut out, &buf, 2, 3, false, false);
    assert_eq!(n, 4);
    assert_eq!(out, "l2\nl3\nl4\n\x1B[0;2m[Tab: collapse | 3-5 of 10 | 5 new \u{2193}]\x1B[0m\n");
    let mut end = String::new();
    let m = draw_expanded(&mut end, &buf, 8, 5, true, true);
    assert_eq!(m, 3);
    assert_eq!(end, "l8\r\nl9\r\n\x1B[0;2m[Tab: collapse | 9-10 of 10 | done]\x1B[0m\r\n");
}

#[test]
fn session_draws_each_line() {
    let mut s = Session::new(false, 5);
    let r = s.handle(Event::Line("  hello \t".to_string()), 24);
    assert!(!r.quit);
    assert_eq!(r.output, "hello\r\n\x1B[0;2m[Tab: expand | 1 lines]\x1B[0m\r\n");
    let r2 = s.handle(Event::Line("world".to_string()), 24);
    assert!(r2.output.starts_with("\x1B[0m\x1B[1A\x1B[2K\x1B[1A\x1B[2Khello\r\nworld\r\n"));
}

#[test]
fn session_pty_output_only_complete_lines() {
    let mut s = Session::new(true, 5);
    let r = s.handle(Event::PtyOutput(b"par".to_vec()), 24);
    assert_eq!(r.output, "");
    let r2 = s.handle(Event::PtyOutput(b"tial\r\nnext".to_vec()), 24);
    assert!(r2.output.starts_with("partial\r\n"));
    assert!(r2.output.contains("1 lines"));
}

#[test]
fn session_forwards_keys_to_child() {
    let mut s = Session::new(true, 5);
    let r = s.handle(key(KeyCode::Char('q')), 24);
    assert!(!r.quit);
    assert_eq!(r.to_pty, Some(b"q".to_vec()));
    let r2 = s.handle(Event::Key(KeyEvent { code: KeyCode::Char('c'), ctrl: true }), 24);
    assert_eq!(r2.to_pty, Some(vec![0x03]));
    assert!(!r2.quit);
}

#[test]
fn session_quits_on_q_without_child() {
    let mut s = Session::new(false, 5);
    assert!(s.handle(key(KeyCode::Char('q')), 24).quit);
    let mut t = Session::new(false, 5);
    assert!(t.handle(Event::Key(KeyEvent { code: KeyCode::Char('c'), ctrl: true }), 24).quit);
}

#[test]
fn session_tab_and_scroll() {
    let mut s = Session::new(false, 5);
    for i in 0..30 {
        s.handle(Event::Line(format!("line {i}")), 11);
    }
    let r = s.handle(key(KeyCode::Tab), 11);
    assert!(r.output.contains("\x1B[?1049h"));
    assert!(r.output.contains("[Tab: collapse | 21-30 of 30]"));
    let up = s.handle(key(KeyCode::Char('k')), 11);
    assert!(up.output.contains("20-29 of 30 | 1 new"));
    let home = s.handle(key(KeyCode::Home), 11);
    assert!(home.output.contains("1-10 of 30"));
    let again = s.handle(key(KeyCode::Char('g')), 11);
    assert_eq!(again.output, "");
    let end = s.handle(key(KeyCode::Char('G')), 11);
    assert!(end.output.contains("21-30 of 30]"));
    let pgup = s.handle(key(KeyCode::PageUp), 11);
    assert!(pgup.output.contains("11-20 of 30"));
    let pgdn = s.handle(key(KeyCode::PageDown), 11);
    assert!(pgdn.output.contains("21-30 of 30"));
    let down = s.handle(key(KeyCode::Down), 11);
    assert_eq!(down.output, "");
    let back = s.handle(key(KeyCode::Tab), 11);
    assert!(back.output.starts_with("\x1B[?1049l"));
    assert!(back.output.contains("[Tab: expand | 30 lines]"));
    assert_eq!(s.finish(), "\x1B[0m");
}

#[test]
fn session_expanded_follows_new_lines_at_bottom() {
    let mut s = Session::new(false, 5);
    for i in 0..5 {
        s.handle(Event::Line(format!("l{i}")), 4);
    }
    s.handle(key(KeyCode::Tab), 4);
    let r = s.handle(Event::Line("l5".to_string()), 4);
    assert!(r.output.contains("4-6 of 6]"));
    assert_eq!(s.finish(), "\x1B[?1049l\x1B[0m");
}

#[test]
fn session_countdown_runs_out() {
    let mut s = Session::new(false, 2);
    s.handle(Event::Line("x".to_string()), 24);
    let d = s.handle(Event::InputDone, 24);
    assert!(d.output.contains("exiting in 2s"));
    assert_eq!(s.countdown(), Some(2));
    let t1 = s.tick();
    assert!(!t1.quit);
    assert!(t1.output.contains("exiting in 1s"));
    let t2 = s.tick();
    assert!(t2.quit);
    assert!(s.expired());
}

#[test]
fn session_zero_countdown_expires_at_once() {
    let mut s = Session::new(false, 0);
    s.handle(Event::InputDone, 24);
    assert!(s.expired());
}

#[test]
fn plain_tail_stops_on_empty_line() {
    let mut t = PlainTail::new();
    let first = t.feed_line("alpha").unwrap();
    assert_eq!(first, "alpha\n");
    let second = t.feed_line(" beta ").unwrap();
    assert_eq!(second, "\x1B[0m\x1B[1A\x1B[2Kalpha\nbeta\n");
    assert!(t.feed_line("   ").is_none());
}

#[test]
fn plain_tail_keeps_last_ten() {
    let mut t = PlainTail::new();
    let mut last = String::new();
    for i in 0..20 {
        last = t.feed_line(&format!("line {}", i)).unwrap();
    }
    assert!(last.contains("line 19"));
    assert!(last.contains("line 10\n"));
    assert!(!last.contains("line 9\n"));
}

#[test]
fn trim_unicode_white_space() {
    assert_eq!(trimmed("\u{3000} hi there\u{a0}\t"), "hi there");
    assert_eq!(trimmed("   "), "");
}

#[test]
fn launch_choice() {
    assert_eq!(choose_launch(false, None), Launch::Pipe);
    assert_eq!(choose_launch(true, None), Launch::Usage);
    assert_eq!(choose_launch(true, Some("ls")), Launch::Pty);
    assert_eq!(choose_launch(false, Some("ls")), Launch::Pipe);
    assert_eq!(choose_launch(true, Some("-h")), Launch::Help);
    assert_eq!(choose_launch(false, Some("--help")), Launch::Help);
    assert_eq!(choose_launch(true, Some("--hel")), Launch::Pty);
}

#[test]
fn countdown_setting() {
    assert_eq!(countdown_secs_from(None), 5);
    assert_eq!(countdown_secs_from(Some("1")), 1);
    assert_eq!(countdown_secs_from(Some("+7")), 7);
    assert_eq!(countdown_secs_from(Some("255")), 255);
    assert_eq!(countdown_secs_from(Some("256")), 5);
    assert_eq!(countdown_secs_from(Some("")), 5);
    assert_eq!(countdown_secs_from(Some("x")), 5);
}

#[test]
fn terminal_size_fallback() {
    assert_eq!(size_or_default(true, 100, 40), (100, 40));
    assert_eq!(size_or_default(false, 100, 40), (80, 24));
    assert_eq!(size_or_default(true, 0, 40), (80, 24));
}

#[test]
fn exit_code_of_child() {
    assert_eq!(child_exit_code(42 << 8), 42);
    assert_eq!(child_exit_code(127 << 8), 127);
    assert_eq!(child_exit_code(0), 0);
    assert_eq!(child_exit_code(9), 1);
}

#[test]
fn mode_starts_collapsed() {
    assert_eq!(Mode::Collapsed, Mode::Collapsed);
    assert_ne!(Mode::Collapsed, Mode::Expanded);
}
