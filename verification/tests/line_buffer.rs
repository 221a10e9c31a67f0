use ttail::buffer::LineBuffer;
use ttail::sgr::{update_ansi_state, AnsiState, Color};

#[test]
fn buffer_stays_within_capacity() {
    let mut buf = LineBuffer::new(3);
    for i in 0..5 {
        buf.push(format!("line {i}"));
    }
    assert_eq!(buf.len(), 3);
    assert_eq!(buf.lines(), &["line 2", "line 3", "line 4"]);
}

#[test]
fn buffer_under_capacity() {
    let mut buf = LineBuffer::new(10);
    buf.push("a".to_string());
    buf.push("b".to_string());
    assert_eq!(buf.len(), 2);
    assert_eq!(buf.lines(), &["a", "b"]);
}

#[test]
fn buffer_exact_capacity() {
    let mut buf = LineBuffer::new(3);
    buf.push("a".to_string());
    buf.push("b".to_string());
    buf.push("c".to_string());
    assert_eq!(buf.len(), 3);
    assert_eq!(buf.lines(), &["a", "b", "c"]);
}

#[test]
fn buffer_drops_oldest() {
    let mut buf = LineBuffer::new(2);
    buf.push("first".to_string());
    buf.push("second".to_string());
    buf.push("third".to_string());
    assert_eq!(buf.lines(), &["second", "third"]);
}

#[test]
fn buffer_capacity_one() {
    let mut buf = LineBuffer::new(1);
    buf.push("a".to_string());
    buf.push("b".to_string());
    assert_eq!(buf.len(), 1);
    assert_eq!(buf.lines(), &["b"]);
}

#[test]
fn empty_buffer() {
    let buf = LineBuffer::new(10);
    assert_eq!(buf.len(), 0);
    assert!(buf.lines().is_empty());
}

#[test]
fn no_ansi_no_prefix() {
    let mut buf = LineBuffer::new(2);
    buf.push("plain line 1".to_string());
    buf.push("plain line 2".to_string());
    buf.push("plain line 3".to_string());
    let display = buf.display_lines();
    assert_eq!(display, &["plain line 2", "plain line 3"]);
}

#[test]
fn color_from_evicted_line_carries_forward() {
    let mut buf = LineBuffer::new(1);
    buf.push("\x1B[31mred text".to_string());
    buf.push("still red".to_string());
    let display = buf.display_lines();
    assert_eq!(display, &["\x1B[31mstill red"]);
}

#[test]
fn reset_in_evicted_line_clears_state() {
    let mut buf = LineBuffer::new(1);
    buf.push("\x1B[31mred\x1B[0m".to_string());
    buf.push("should be plain".to_string());
    let display = buf.display_lines();
    assert_eq!(display, &["should be plain"]);
}

#[test]
fn bold_carries_forward() {
    let mut buf = LineBuffer::new(1);
    buf.push("\x1B[1mbold text".to_string());
    buf.push("still bold".to_string());
    let display = buf.display_lines();
    assert_eq!(display, &["\x1B[1mstill bold"]);
}

#[test]
fn multiple_attributes_carry_forward() {
    let mut buf = LineBuffer::new(1);
    buf.push("\x1B[1;31mbold red".to_string());
    buf.push("still bold red".to_string());
    let display = buf.display_lines();
    let display_line = &display[0];
    assert!(display_line.contains("\x1B["));
    assert!(display_line.contains("1"));
    assert!(display_line.contains("31"));
    assert!(display_line.ends_with("still bold red"));
}

#[test]
fn color_within_buffer_no_prefix() {
    let mut buf = LineBuffer::new(3);
    buf.push("plain".to_string());
    buf.push("\x1B[32mgreen".to_string());
    let display = buf.display_lines();
    assert_eq!(display, &["plain", "\x1B[32mgreen"]);
}

#[test]
fn bg_color_carries_forward() {
    let mut buf = LineBuffer::new(1);
    buf.push("\x1B[44mblue bg".to_string());
    buf.push("still blue bg".to_string());
    let display = buf.display_lines();
    assert_eq!(display, &["\x1B[44mstill blue bg"]);
}

#[test]
fn palette_color_carries_forward() {
    let mut buf = LineBuffer::new(1);
    buf.push("\x1B[38;5;208morange".to_string());
    buf.push("still orange".to_string());
    let display = buf.display_lines();
    let line = &display[0];
    assert!(line.starts_with("\x1B["));
    assert!(line.ends_with("still orange"));
}

#[test]
fn display_lines_only_prefixes_first_line() {
    let mut buf = LineBuffer::new(3);
    buf.push("\x1B[31mred".to_string());
    buf.push("line 2".to_string());
    buf.push("line 3".to_string());
    buf.push("line 4".to_string());
    let display = buf.display_lines();
    assert!(display[0].starts_with("\x1B[31m"));
    assert_eq!(display[1], "line 3");
    assert_eq!(display[2], "line 4");
}

#[test]
fn update_ansi_state_basic_fg() {
    let mut state = AnsiState::default();
    update_ansi_state(&mut state, "\x1B[31mhello");
    assert_eq!(state.fg, Some(Color::Basic(31)));
}

#[test]
fn update_ansi_state_reset() {
    let mut state = AnsiState::default();
    update_ansi_state(&mut state, "\x1B[31mhello");
    update_ansi_state(&mut state, "\x1B[0mworld");
    assert!(state.is_empty());
}

// ---------------------------------------------------------------
// Further cases
// ---------------------------------------------------------------

#[test]
fn palette_prefix_selects_the_foreground() {
    let mut buf = LineBuffer::new(1);
    buf.push("\x1B[38;5;208morange".to_string());
    buf.push("still orange".to_string());
    assert_eq!(buf.display_lines(), &["\x1B[38;5;208mstill orange"]);
}

#[test]
fn rgb_background_prefix() {
    let mut buf = LineBuffer::new(1);
    buf.push("\x1B[48;2;10;20;30mtrue colour".to_string());
    buf.push("next".to_string());
    assert_eq!(buf.display_lines(), &["\x1B[48;2;10;20;30mnext"]);
}

#[test]
fn escape_of_every_attribute() {
    let mut state = AnsiState::default();
    update_ansi_state(&mut state, "\x1B[1;2;3;4;5;7;8;9;91;102m");
    assert_eq!(state.to_escape(), "\x1B[1;2;3;4;5;7;8;9;91;102m");
}

#[test]
fn escape_of_plain_state_is_empty() {
    assert_eq!(AnsiState::default().to_escape(), "");
    assert!(AnsiState::default().is_empty());
}

#[test]
fn escape_reparses_to_same_state() {
    let mut state = AnsiState::default();
    update_ansi_state(&mut state, "x\x1B[3;38;2;1;2;3;48;5;17my");
    let mut again = AnsiState::default();
    update_ansi_state(&mut again, &state.to_escape());
    assert_eq!(again, state);
    assert_eq!(state.fg, Some(Color::Rgb(1, 2, 3)));
    assert_eq!(state.bg, Some(Color::Palette(17)));
    assert!(state.italic);
}

#[test]
fn sgr_attribute_clears() {
    let mut state = AnsiState::default();
    update_ansi_state(&mut state, "\x1B[1;2;3;4;5;7;8;9m\x1B[22;23;24;25;27;28;29m");
    assert!(state.is_empty());
}

#[test]
fn sgr_default_colors() {
    let mut state = AnsiState::default();
    update_ansi_state(&mut state, "\x1B[31;42m");
    update_ansi_state(&mut state, "\x1B[39m");
    assert_eq!(state.fg, None);
    assert_eq!(state.bg, Some(Color::Basic(42)));
    update_ansi_state(&mut state, "\x1B[49m");
    assert!(state.is_empty());
}

#[test]
fn empty_sgr_resets() {
    let mut state = AnsiState::default();
    update_ansi_state(&mut state, "\x1B[1;31m\x1B[m");
    assert!(state.is_empty());
}

#[test]
fn incomplete_extended_color_reads_its_fields_as_codes() {
    let mut state = AnsiState::default();
    update_ansi_state(&mut state, "\x1B[38;5m");
    assert_eq!(state.fg, None);
    assert!(state.blink);
    let mut other = AnsiState::default();
    update_ansi_state(&mut other, "\x1B[48;2;1;2m");
    assert_eq!(other.bg, None);
    assert!(other.dim && other.bold && !other.blink);
}

#[test]
fn unparsable_fields_are_dropped() {
    let mut state = AnsiState::default();
    update_ansi_state(&mut state, "\x1B[#;+1;256;32m");
    assert!(state.bold);
    assert_eq!(state.fg, Some(Color::Basic(32)));
}

#[test]
fn control_sequence_ends_at_any_final_byte() {
    let mut state = AnsiState::default();
    update_ansi_state(&mut state, "\x1B[?25l\x1B[31mred");
    assert_eq!(state.fg, Some(Color::Basic(31)));
    let mut other = AnsiState::default();
    update_ansi_state(&mut other, "\x1B[abc;32m");
    assert!(other.is_empty());
}

#[test]
fn same_sgr_twice_is_same_as_once() {
    let line = "\x1B[1;38;5;200;44;4m";
    let mut once = AnsiState::default();
    update_ansi_state(&mut once, "\x1B[3;95m");
    let mut twice = once;
    update_ansi_state(&mut once, line);
    update_ansi_state(&mut twice, line);
    update_ansi_state(&mut twice, line);
    assert_eq!(once, twice);
}

#[test]
fn joined_parameter_list_is_same_as_parts() {
    let mut whole = AnsiState::default();
    update_ansi_state(&mut whole, "\x1B[1;31;0;4;48;2;1;2;3m");
    let mut parts = AnsiState::default();
    update_ansi_state(&mut parts, "\x1B[1;31m");
    update_ansi_state(&mut parts, "\x1B[0;4m");
    update_ansi_state(&mut parts, "\x1B[48;2;1;2;3m");
    assert_eq!(whole, parts);
    assert!(whole.underline && !whole.bold);
    assert_eq!(whole.bg, Some(Color::Rgb(1, 2, 3)));
}

#[test]
fn line_split_between_sequences_gives_same_state() {
    let a = "x\x1B[32mgreen\x1B[2K";
    let b = "\x1B[1mbold\x1B[39m";
    let mut whole = AnsiState::default();
    update_ansi_state(&mut whole, &format!("{a}{b}"));
    let mut split = AnsiState::default();
    update_ansi_state(&mut split, a);
    update_ansi_state(&mut split, b);
    assert_eq!(whole, split);
    assert!(whole.bold);
    assert_eq!(whole.fg, None);
}

#[test]
fn other_sequences_are_skipped() {
    let mut state = AnsiState::default();
    update_ansi_state(&mut state, "\x1B[2K\x1B[1A\x1B[31");
    assert!(state.is_empty());
    update_ansi_state(&mut state, "é\x1B[33mα");
    assert_eq!(state.fg, Some(Color::Basic(33)));
}

#[test]
fn total_count_keeps_every_line() {
    let mut buf = LineBuffer::new(2);
    for i in 0..7 {
        buf.push(format!("l{i}"));
    }
    assert_eq!(buf.total_count(), 7);
    assert_eq!(buf.len(), 2);
}

#[test]
fn display_range_middle() {
    let mut buf = LineBuffer::new(2);
    buf.push("\x1B[35ma".to_string());
    buf.push("b".to_string());
    buf.push("c".to_string());
    buf.push("d".to_string());
    assert_eq!(buf.display_range(1, 2), &["\x1B[35mb", "c"]);
    assert_eq!(buf.display_range(0, 2), &["\x1B[35ma", "b"]);
    assert_eq!(buf.display_range(3, 10), &["\x1B[35md"]);
    assert!(buf.display_range(4, 1).is_empty());
    assert!(buf.display_range(1, 0).is_empty());
}

#[test]
fn capacity_zero_window_is_empty() {
    let mut buf = LineBuffer::new(0);
    buf.push("\x1B[31mx".to_string());
    assert_eq!(buf.len(), 0);
    assert!(buf.display_lines().is_empty());
    buf.push("y".to_string());
    assert_eq!(buf.display_range(1, 1), &["\x1B[31my"]);
}
