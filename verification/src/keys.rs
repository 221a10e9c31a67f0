//! Reading keys from the bytes a raw-mode terminal sends, and the bytes
//! that stand for a key when it is passed on to a pty.

use vstd::prelude::*;
use vstd::utf8::encode_scalar;
use crate::event::{KeyCode, KeyEvent};

verus! {

pub open spec fn key(code: KeyCode, ctrl: bool) -> KeyEvent {
    KeyEvent { code, ctrl }
}

/// The key of the bytes `ESC [ c` that follow an escape byte; `None` when
/// `c` stands for none.
pub open spec fn csi_key(c: u8) -> Option<KeyCode> {
    if c == 0x41 {
        Some(KeyCode::Up)
    } else if c == 0x42 {
        Some(KeyCode::Down)
    } else if c == 0x43 {
        Some(KeyCode::Right)
    } else if c == 0x44 {
        Some(KeyCode::Left)
    } else if c == 0x48 {
        Some(KeyCode::Home)
    } else if c == 0x46 {
        Some(KeyCode::End)
    } else if c == 0x35 {
        Some(KeyCode::PageUp)
    } else if c == 0x36 {
        Some(KeyCode::PageDown)
    } else if c == 0x33 {
        Some(KeyCode::Delete)
    } else {
        None
    }
}

/// Whether the key of `ESC [ c` is followed by a `~` that is read too.
pub open spec fn has_tilde(c: u8) -> bool {
    c == 0x35 || c == 0x36 || c == 0x33
}

/// The key at the start of `b`, and how many bytes reading it takes up;
/// `None` when `b` is empty. The end of `b` stands for the end of input.
pub open spec fn decode_key(b: Seq<u8>) -> Option<(KeyEvent, nat)> {
    if b.len() == 0 {
        None
    } else {
        let c = b[0];
        if c == 0x09 {
            Some((key(KeyCode::Tab, false), 1))
        } else if c == 0x0D {
            Some((key(KeyCode::Enter, false), 1))
        } else if c == 0x7F {
            Some((key(KeyCode::Backspace, false), 1))
        } else if c == 0x1B {
            if b.len() < 2 {
                Some((key(KeyCode::Esc, false), 1))
            } else if b[1] != 0x5B || b.len() < 3 {
                Some((key(KeyCode::Esc, false), 2))
            } else {
                match csi_key(b[2]) {
                    Some(k) => if has_tilde(b[2]) && b.len() >= 4 {
                        Some((key(k, false), 4))
                    } else {
                        Some((key(k, false), 3))
                    },
                    None => Some((key(KeyCode::Esc, false), 3)),
                }
            }
        } else if 1 <= c <= 26 {
            Some((key(KeyCode::Char(((c - 1 + 0x61) as u8) as char), true), 1))
        } else {
            Some((key(KeyCode::Char(c as char), false), 1))
        }
    }
}

/// Reads one key from the start of `input`, whose end stands for the end of
/// input. Returns the key and how many bytes it took up, or `None` when
/// `input` is empty.
pub fn read_key(input: &[u8]) -> (r: Option<(KeyEvent, usize)>)
    ensures
        match r {
            None => decode_key(input@) is None,
            Some((k, n)) => decode_key(input@) == Some((k, n as nat)),
        },
{
    let len = input.len();
    if len == 0 {
        return None;
    }
    let c = input[0];
    if c == 0x09 {
        Some((KeyEvent { code: KeyCode::Tab, ctrl: false }, 1))
    } else if c == 0x0D {
        Some((KeyEvent { code: KeyCode::Enter, ctrl: false }, 1))
    } else if c == 0x7F {
        Some((KeyEvent { code: KeyCode::Backspace, ctrl: false }, 1))
    } else if c == 0x1B {
        if len < 2 {
            return Some((KeyEvent { code: KeyCode::Esc, ctrl: false }, 1));
        }
        if input[1] != 0x5B || len < 3 {
            return Some((KeyEvent { code: KeyCode::Esc, ctrl: false }, 2));
        }
        let d = input[2];
        match csi_code(d) {
            Some(k) => {
                if (d == 0x35 || d == 0x36 || d == 0x33) && len >= 4 {
                    Some((KeyEvent { code: k, ctrl: false }, 4))
                } else {
                    Some((KeyEvent { code: k, ctrl: false }, 3))
                }
            },
            None => Some((KeyEvent { code: KeyCode::Esc, ctrl: false }, 3)),
        }
    } else if c >= 1 && c <= 26 {
        Some((KeyEvent { code: KeyCode::Char((c - 1 + 0x61) as char), ctrl: true }, 1))
    } else {
        Some((KeyEvent { code: KeyCode::Char(c as char), ctrl: false }, 1))
    }
}

fn csi_code(c: u8) -> (r: Option<KeyCode>)
    ensures
        r == csi_key(c),
{
    if c == 0x41 {
        Some(KeyCode::Up)
    } else if c == 0x42 {
        Some(KeyCode::Down)
    } else if c == 0x43 {
        Some(KeyCode::Right)
    } else if c == 0x44 {
        Some(KeyCode::Left)
    } else if c == 0x48 {
        Some(KeyCode::Home)
    } else if c == 0x46 {
        Some(KeyCode::End)
    } else if c == 0x35 {
        Some(KeyCode::PageUp)
    } else if c == 0x36 {
        Some(KeyCode::PageDown)
    } else if c == 0x33 {
        Some(KeyCode::Delete)
    } else {
        None
    }
}

/// Where a key reader stands between two bytes of one key.
#[derive(Debug, Clone, Copy, PartialEq, Eq, Structural)]
pub enum KeyReader {
    /// No byte of the key has been read.
    Start,
    /// An escape byte has been read.
    Escape,
    /// `ESC [` has been read.
    Bracket,
    /// `ESC [ c` has been read, and the `~` that follows is still to read.
    Tilde(u8),
}

/// What a key reader does with the next byte.
#[derive(Debug, Clone, Copy, PartialEq, Eq, Structural)]
pub enum KeyStep {
    /// The key needs another byte.
    Pending(KeyReader),
    /// The key is complete (or input ended before any byte).
    Done(Option<KeyEvent>),
}

impl KeyReader {
    /// The bytes of the key read so far.
    pub open spec fn seen(self) -> Seq<u8> {
        match self {
            KeyReader::Start => Seq::empty(),
            KeyReader::Escape => seq![0x1Bu8],
            KeyReader::Bracket => seq![0x1Bu8, 0x5Bu8],
            KeyReader::Tilde(c) => seq![0x1Bu8, 0x5Bu8, c],
        }
    }

    /// The states a reader can be in: after `ESC [`, only a byte whose key
    /// takes a `~` leaves one waiting for it.
    pub open spec fn wf(self) -> bool {
        match self {
            KeyReader::Tilde(c) => has_tilde(c),
            _ => true,
        }
    }

    /// Takes the next byte of input, or `None` at the end of input.
    ///
    /// When the key is complete, it is the key that `decode_key` reads from
    /// the bytes seen so far followed by any further input, and those bytes
    /// are exactly the ones it takes up; at the end of input it is the key
    /// that `decode_key` reads from the bytes seen. Otherwise the new reader
    /// has seen one byte more.
    pub fn feed(self, byte: Option<u8>) -> (r: KeyStep)
        requires
            self.wf(),
        ensures
            match (byte, r) {
                (Some(b), KeyStep::Pending(next)) => next.wf() && next.seen() == self.seen().push(b),
                (Some(b), KeyStep::Done(Some(k))) => forall|rest: Seq<u8>| #[trigger] decode_key(self.seen().push(b) + rest) == Some((k, self.seen().len() + 1)),
                (Some(_), KeyStep::Done(None)) => false,
                (None, KeyStep::Done(k)) => k == match decode_key(self.seen()) {
                    Some((e, _)) => Some(e),
                    None => None,
                },
                (None, KeyStep::Pending(_)) => false,
            },
    {
        let r = match (self, byte) {
            (KeyReader::Start, None) => KeyStep::Done(None),
            (KeyReader::Start, Some(c)) => {
                if c == 0x1B {
                    KeyStep::Pending(KeyReader::Escape)
                } else {
                    match read_key(&[c]) {
                        Some((k, _)) => KeyStep::Done(Some(k)),
                        None => KeyStep::Done(None),
                    }
                }
            },
            (KeyReader::Escape, Some(c)) => {
                if c == 0x5B {
                    KeyStep::Pending(KeyReader::Bracket)
                } else {
                    KeyStep::Done(Some(KeyEvent { code: KeyCode::Esc, ctrl: false }))
                }
            },
            (KeyReader::Escape, None) => KeyStep::Done(Some(KeyEvent { code: KeyCode::Esc, ctrl: false })),
            (KeyReader::Bracket, Some(c)) => {
                match csi_code(c) {
                    Some(k) => {
                        if c == 0x35 || c == 0x36 || c == 0x33 {
                            KeyStep::Pending(KeyReader::Tilde(c))
                        } else {
                            KeyStep::Done(Some(KeyEvent { code: k, ctrl: false }))
                        }
                    },
                    None => KeyStep::Done(Some(KeyEvent { code: KeyCode::Esc, ctrl: false })),
                }
            },
            (KeyReader::Bracket, None) => KeyStep::Done(Some(KeyEvent { code: KeyCode::Esc, ctrl: false })),
            (KeyReader::Tilde(c), _) => {
                match csi_code(c) {
                    Some(k) => KeyStep::Done(Some(KeyEvent { code: k, ctrl: false })),
                    None => KeyStep::Done(Some(KeyEvent { code: KeyCode::Esc, ctrl: false })),
                }
            },
        };
        proof {
            if let Some(b) = byte {
                let seen = self.seen().push(b);
                assert forall|rest: Seq<u8>| #![trigger decode_key(seen + rest)] true implies
                    (seen + rest)[0] == seen[0] && (seen.len() >= 2 ==> (seen + rest)[1] == seen[1])
                        && (seen.len() >= 3 ==> (seen + rest)[2] == seen[2]) && (seen.len() >= 4
                        ==> (seen + rest)[3] == seen[3]) by {}
            }
        }
        r
    }
}

// ---------------------------------------------------------------------
// Passing keys on to a pty
// ---------------------------------------------------------------------

pub open spec fn is_ascii_letter(c: char) -> bool {
    ('a' <= c <= 'z') || ('A' <= c <= 'Z')
}

/// The lower-case form of an ASCII letter.
pub open spec fn ascii_lower(c: char) -> char {
    if 'A' <= c <= 'Z' {
        ((c as u32) + 32) as char
    } else {
        c
    }
}

/// The bytes that stand for `k` on a terminal's input; `None` for a
/// Ctrl chord that has none (Ctrl with anything but an ASCII letter).
pub open spec fn key_bytes_spec(k: KeyEvent) -> Option<Seq<u8>> {
    match k.code {
        KeyCode::Char(c) => if k.ctrl {
            if is_ascii_letter(c) {
                Some(seq![((ascii_lower(c) as u32) - 0x61 + 1) as u8])
            } else {
                None
            }
        } else {
            Some(encode_scalar(c as u32))
        },
        KeyCode::Enter => Some(seq![0x0Du8]),
        KeyCode::Backspace => Some(seq![0x7Fu8]),
        KeyCode::Esc => Some(seq![0x1Bu8]),
        KeyCode::Up => Some(seq![0x1Bu8, 0x5Bu8, 0x41u8]),
        KeyCode::Down => Some(seq![0x1Bu8, 0x5Bu8, 0x42u8]),
        KeyCode::Right => Some(seq![0x1Bu8, 0x5Bu8, 0x43u8]),
        KeyCode::Left => Some(seq![0x1Bu8, 0x5Bu8, 0x44u8]),
        KeyCode::Home => Some(seq![0x1Bu8, 0x5Bu8, 0x48u8]),
        KeyCode::End => Some(seq![0x1Bu8, 0x5Bu8, 0x46u8]),
        KeyCode::Delete => Some(seq![0x1Bu8, 0x5Bu8, 0x33u8, 0x7Eu8]),
        KeyCode::PageUp => Some(seq![0x1Bu8, 0x5Bu8, 0x35u8, 0x7Eu8]),
        KeyCode::PageDown => Some(seq![0x1Bu8, 0x5Bu8, 0x36u8, 0x7Eu8]),
        KeyCode::Tab => Some(seq![0x09u8]),
    }
}

/// The UTF-8 encoding of `c`.
fn encode_char(c: char) -> (r: Vec<u8>)
    ensures
        r@ == encode_scalar(c as u32),
{
    let v = c as u32;
    let mut out: Vec<u8> = Vec::new();
    if v <= 0x7F {
        out.push((v & 0x7F) as u8);
    } else if v <= 0x7FF {
        out.push(0xC0 | ((v >> 6) & 0x1F) as u8);
        out.push(0x80 | (v & 0x3F) as u8);
    } else if v <= 0xFFFF {
        out.push(0xE0 | ((v >> 12) & 0x0F) as u8);
        out.push(0x80 | ((v >> 6) & 0x3F) as u8);
        out.push(0x80 | (v & 0x3F) as u8);
    } else {
        out.push(0xF0 | ((v >> 18) & 0x7) as u8);
        out.push(0x80 | ((v >> 12) & 0x3F) as u8);
        out.push(0x80 | ((v >> 6) & 0x3F) as u8);
        out.push(0x80 | (v & 0x3F) as u8);
    }
    assert(out@ =~= encode_scalar(c as u32));
    out
}

/// The bytes to write to a pty for `key`, or `None` when nothing is to be
/// written.
pub fn key_to_bytes(key: &KeyEvent) -> (r: Option<Vec<u8>>)
    ensures
        match r {
            Some(v) => key_bytes_spec(*key) == Some(v@),
            None => key_bytes_spec(*key) is None,
        },
{
    let bytes: Vec<u8> = match key.code {
        KeyCode::Char(c) => {
            if key.ctrl {
                if ('a' <= c && c <= 'z') || ('A' <= c && c <= 'Z') {
                    let lower: u32 = if 'A' <= c && c <= 'Z' {
                        (c as u32) + 32
                    } else {
                        c as u32
                    };
                    let ctrl = (lower - 0x61 + 1) as u8;
                    let v = vec![ctrl];
                    assert(v@ =~= seq![ctrl]);
                    v
                } else {
                    return None;
                }
            } else {
                encode_char(c)
            }
        },
        KeyCode::Enter => vec![0x0D],
        KeyCode::Backspace => vec![0x7F],
        KeyCode::Esc => vec![0x1B],
        KeyCode::Up => vec![0x1B, 0x5B, 0x41],
        KeyCode::Down => vec![0x1B, 0x5B, 0x42],
        KeyCode::Right => vec![0x1B, 0x5B, 0x43],
        KeyCode::Left => vec![0x1B, 0x5B, 0x44],
        KeyCode::Home => vec![0x1B, 0x5B, 0x48],
        KeyCode::End => vec![0x1B, 0x5B, 0x46],
        KeyCode::Delete => vec![0x1B, 0x5B, 0x33, 0x7E],
        KeyCode::PageUp => vec![0x1B, 0x5B, 0x35, 0x7E],
        KeyCode::PageDown => vec![0x1B, 0x5B, 0x36, 0x7E],
        KeyCode::Tab => vec![0x09],
    };
    Some(bytes)
}


/// The keys that come back unchanged when the bytes that stand for them are
/// read again: the special keys without Ctrl, printable ASCII characters,
/// and Ctrl with a lower-case letter other than `i` and `m` (whose bytes are
/// those of Tab and Enter).
pub open spec fn reads_back(k: KeyEvent) -> bool {
    match k.code {
        KeyCode::Char(c) => if k.ctrl {
            'a' <= c <= 'z' && c != 'i' && c != 'm'
        } else {
            ' ' <= c <= '~'
        },
        _ => !k.ctrl,
    }
}

/// A key passed on to a pty is read back as the same key, from exactly the
/// bytes written for it.
pub proof fn law_forwarded_key_reads_back(k: KeyEvent)
    requires
        reads_back(k),
    ensures
        key_bytes_spec(k) is Some,
        decode_key(key_bytes_spec(k)->0) == Some((k, key_bytes_spec(k)->0.len())),
{
    match k.code {
        KeyCode::Char(c) => {
            let v = c as u32;
            if k.ctrl {
                let b = ((v - 0x61 + 1) as u8);
                assert(1 <= b <= 26);
                assert(((b - 1 + 0x61) as u8) as char == c);
            } else {
                assert(0x20 <= v <= 0x7E);
                assert(v & 0x7F == v) by (bit_vector)
                    requires
                        v <= 0x7E,
                ;
                let b = (v & 0x7F) as u8;
                assert(b == v);
                assert(b as char == c);
            }
        },
        _ => {},
    }
}

} // verus!
