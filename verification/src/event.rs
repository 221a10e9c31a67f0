//! Keys, input events and display modes.

use vstd::prelude::*;

verus! {

/// A key read from the terminal.
#[derive(Debug, Clone, Copy, PartialEq, Eq, Structural)]
pub enum KeyCode {
    Char(char),
    Tab,
    Enter,
    Backspace,
    Esc,
    Up,
    Down,
    Left,
    Right,
    PageUp,
    PageDown,
    Home,
    End,
    Delete,
}

/// A key together with whether Ctrl was held.
#[derive(Debug, Clone, Copy, PartialEq, Eq, Structural)]
pub struct KeyEvent {
    pub code: KeyCode,
    pub ctrl: bool,
}

/// What the interactive loop reacts to.
pub enum Event {
    /// A complete line of text (pipe mode).
    Line(String),
    /// Raw bytes from the pty master (pty mode); the loop splits them into lines.
    PtyOutput(Vec<u8>),
    /// A key event from the real terminal.
    Key(KeyEvent),
    /// The input source has closed (pipe EOF or child exited).
    InputDone,
}

/// How the buffer is shown.
#[derive(Debug, PartialEq, Eq, Clone, Copy, Structural)]
pub enum Mode {
    /// The last lines, redrawn in place.
    Collapsed,
    /// A scrollable full-screen view of every line.
    Expanded,
}

} // verus!
