use ttail::event::{KeyCode, KeyEvent};
use ttail::extract_lines;
use ttail::keys::{key_to_bytes, read_key, KeyReader, KeyStep};

fn parse(input: &[u8]) -> Option<KeyEvent> {
    read_key(input).map(|(k, _)| k)
}

#[test]
fn extract_lines_complete() {
    let mut remainder = Vec::new();
    let lines = extract_lines(&mut remainder, b"hello\nworld\n");
    assert_eq!(lines, &["hello", "world"]);
    assert!(remainder.is_empty());
}

#[test]
fn extract_lines_partial() {
    let mut remainder = Vec::new();
    let lines = extract_lines(&mut remainder, b"hel");
    assert!(lines.is_empty());
    assert_eq!(remainder, b"hel");

    let lines = extract_lines(&mut remainder, b"lo\nworld\npar");
    assert_eq!(lines, &["hello", "world"]);
    assert_eq!(remainder, b"par");
}

#[test]
fn extract_lines_strips_cr() {
    let mut remainder = Vec::new();
    let lines = extract_lines(&mut remainder, b"hello\r\nworld\r\n");
    assert_eq!(lines, &["hello", "world"]);
}

#[test]
fn extract_lines_empty_line() {
    let mut remainder = Vec::new();
    let lines = extract_lines(&mut remainder, b"\n\n");
    assert_eq!(lines, &["", ""]);
}

#[test]
fn extract_lines_no_newline() {
    let mut remainder = Vec::new();
    let lines = extract_lines(&mut remainder, b"no newline here");
    assert!(lines.is_empty());
    assert_eq!(remainder.len(), 15);
}

#[test]
fn extract_lines_replaces_invalid_utf8() {
    let mut remainder = Vec::new();
    let lines = extract_lines(&mut remainder, b"\xffA\r\r\n\xc3\xa9\n");
    assert_eq!(lines, &["\u{FFFD}A", "é"]);
}

#[test]
fn tab_key() {
    let k = parse(&[0x09]).unwrap();
    assert_eq!(k.code, KeyCode::Tab);
    assert!(!k.ctrl);
}

#[test]
fn char_q() {
    let k = parse(b"q").unwrap();
    assert_eq!(k.code, KeyCode::Char('q'));
    assert!(!k.ctrl);
}

#[test]
fn ctrl_c() {
    let k = parse(&[0x03]).unwrap();
    assert_eq!(k.code, KeyCode::Char('c'));
    assert!(k.ctrl);
}

#[test]
fn arrow_up() {
    let k = parse(b"\x1b[A").unwrap();
    assert_eq!(k.code, KeyCode::Up);
}

#[test]
fn arrow_down() {
    let k = parse(b"\x1b[B").unwrap();
    assert_eq!(k.code, KeyCode::Down);
}

#[test]
fn page_up() {
    let k = parse(b"\x1b[5~").unwrap();
    assert_eq!(k.code, KeyCode::PageUp);
}

#[test]
fn page_down() {
    let k = parse(b"\x1b[6~").unwrap();
    assert_eq!(k.code, KeyCode::PageDown);
}

#[test]
fn home_key() {
    let k = parse(b"\x1b[H").unwrap();
    assert_eq!(k.code, KeyCode::Home);
}

#[test]
fn end_key() {
    let k = parse(b"\x1b[F").unwrap();
    assert_eq!(k.code, KeyCode::End);
}

#[test]
fn enter_key() {
    let k = parse(&[0x0D]).unwrap();
    assert_eq!(k.code, KeyCode::Enter);
}

#[test]
fn backspace_key() {
    let k = parse(&[0x7F]).unwrap();
    assert_eq!(k.code, KeyCode::Backspace);
}

#[test]
fn delete_key() {
    let k = parse(b"\x1b[3~").unwrap();
    assert_eq!(k.code, KeyCode::Delete);
}

#[test]
fn char_j() {
    let k = parse(b"j").unwrap();
    assert_eq!(k.code, KeyCode::Char('j'));
}

#[test]
fn char_g_upper() {
    let k = parse(b"G").unwrap();
    assert_eq!(k.code, KeyCode::Char('G'));
}

#[test]
fn eof_returns_none() {
    assert!(read_key(&[]).is_none());
}

#[test]
fn escape_variants_and_lengths() {
    assert_eq!(read_key(b"\x1b").map(|(k, n)| (k.code, n)), Some((KeyCode::Esc, 1)));
    assert_eq!(read_key(b"\x1bx").map(|(k, n)| (k.code, n)), Some((KeyCode::Esc, 2)));
    assert_eq!(read_key(b"\x1b[").map(|(k, n)| (k.code, n)), Some((KeyCode::Esc, 2)));
    assert_eq!(read_key(b"\x1b[Z").map(|(k, n)| (k.code, n)), Some((KeyCode::Esc, 3)));
    assert_eq!(read_key(b"\x1b[5").map(|(k, n)| (k.code, n)), Some((KeyCode::PageUp, 3)));
    assert_eq!(read_key(b"\x1b[5~x").map(|(k, n)| (k.code, n)), Some((KeyCode::PageUp, 4)));
    assert_eq!(read_key(b"\x1b[Cz").map(|(k, n)| (k.code, n)), Some((KeyCode::Right, 3)));
    assert_eq!(read_key(b"\x1b[D").map(|(k, _)| k.code), Some(KeyCode::Left));
    assert_eq!(read_key(&[0xE9]).map(|(k, _)| k.code), Some(KeyCode::Char('\u{e9}')));
    assert_eq!(read_key(&[0x00]).map(|(k, _)| (k.code, k.ctrl)), Some((KeyCode::Char('\0'), false)));
}

#[test]
fn key_reader_steps() {
    let s1 = KeyReader::Start.feed(Some(0x1b));
    assert_eq!(s1, KeyStep::Pending(KeyReader::Escape));
    let s2 = KeyReader::Escape.feed(Some(b'['));
    assert_eq!(s2, KeyStep::Pending(KeyReader::Bracket));
    let s3 = KeyReader::Bracket.feed(Some(b'6'));
    assert_eq!(s3, KeyStep::Pending(KeyReader::Tilde(b'6')));
    let s4 = KeyReader::Tilde(b'6').feed(Some(b'~'));
    assert_eq!(s4, KeyStep::Done(Some(KeyEvent { code: KeyCode::PageDown, ctrl: false })));
    assert_eq!(KeyReader::Start.feed(None), KeyStep::Done(None));
    assert_eq!(
        KeyReader::Escape.feed(None),
        KeyStep::Done(Some(KeyEvent { code: KeyCode::Esc, ctrl: false }))
    );
    assert_eq!(
        KeyReader::Start.feed(Some(b'q')),
        KeyStep::Done(Some(KeyEvent { code: KeyCode::Char('q'), ctrl: false }))
    );
}

fn bytes_for(code: KeyCode, ctrl: bool) -> Option<Vec<u8>> {
    key_to_bytes(&KeyEvent { code, ctrl })
}

#[test]
fn key_bytes_for_pty() {
    assert_eq!(bytes_for(KeyCode::Char('a'), false), Some(b"a".to_vec()));
    assert_eq!(bytes_for(KeyCode::Char('c'), true), Some(vec![0x03]));
    assert_eq!(bytes_for(KeyCode::Char('C'), true), Some(vec![0x03]));
    assert_eq!(bytes_for(KeyCode::Char('1'), true), None);
    assert_eq!(bytes_for(KeyCode::Char('é'), false), Some("é".as_bytes().to_vec()));
    assert_eq!(bytes_for(KeyCode::Char('€'), false), Some("€".as_bytes().to_vec()));
    assert_eq!(bytes_for(KeyCode::Char('😀'), false), Some("😀".as_bytes().to_vec()));
    assert_eq!(bytes_for(KeyCode::Enter, false), Some(vec![b'\r']));
    assert_eq!(bytes_for(KeyCode::Backspace, false), Some(vec![0x7f]));
    assert_eq!(bytes_for(KeyCode::Esc, false), Some(vec![0x1b]));
    assert_eq!(bytes_for(KeyCode::Up, false), Some(b"\x1b[A".to_vec()));
    assert_eq!(bytes_for(KeyCode::Down, false), Some(b"\x1b[B".to_vec()));
    assert_eq!(bytes_for(KeyCode::Right, false), Some(b"\x1b[C".to_vec()));
    assert_eq!(bytes_for(KeyCode::Left, false), Some(b"\x1b[D".to_vec()));
    assert_eq!(bytes_for(KeyCode::Home, false), Some(b"\x1b[H".to_vec()));
    assert_eq!(bytes_for(KeyCode::End, false), Some(b"\x1b[F".to_vec()));
    assert_eq!(bytes_for(KeyCode::Delete, false), Some(b"\x1b[3~".to_vec()));
    assert_eq!(bytes_for(KeyCode::PageUp, false), Some(b"\x1b[5~".to_vec()));
    assert_eq!(bytes_for(KeyCode::PageDown, false), Some(b"\x1b[6~".to_vec()));
    assert_eq!(bytes_for(KeyCode::Tab, false), Some(vec![0x09]));
}

#[test]
fn forwarded_keys_read_back() {
    let keys = [
        KeyEvent { code: KeyCode::Char('x'), ctrl: false },
        KeyEvent { code: KeyCode::Char('x'), ctrl: true },
        KeyEvent { code: KeyCode::PageDown, ctrl: false },
        KeyEvent { code: KeyCode::End, ctrl: false },
        KeyEvent { code: KeyCode::Esc, ctrl: false },
    ];
    for k in keys {
        let b = key_to_bytes(&k).unwrap();
        assert_eq!(read_key(&b), Some((k, b.len())));
    }
}

// The bytes written to a pty for a key are the bytes the terminal sent.

#[test]
fn char_passes_through() {
    assert_eq!(bytes_for(KeyCode::Char('a'), false).unwrap(), b"a");
}

#[test]
fn ctrl_c_passes_through_raw() {
    assert_eq!(bytes_for(KeyCode::Char('c'), true).unwrap(), vec![0x03]);
}

#[test]
fn cr_passes_through_raw() {
    assert_eq!(bytes_for(KeyCode::Enter, false).unwrap(), vec![b'\r']);
}

#[test]
fn arrow_up_passes_through_raw() {
    assert_eq!(bytes_for(KeyCode::Up, false).unwrap(), b"\x1b[A");
}

#[test]
fn backspace_passes_through_raw() {
    assert_eq!(bytes_for(KeyCode::Backspace, false).unwrap(), vec![0x7f]);
}

#[test]
fn utf8_passes_through_raw() {
    let bytes = "é".as_bytes();
    assert_eq!(bytes_for(KeyCode::Char('é'), false).unwrap(), bytes);
}
