//! Rolling tail of a stream of lines, with the terminal's colour state kept
//! across lines that have left the visible window.

pub mod sgr;
pub mod text;
pub mod buffer;
pub mod event;
pub mod keys;
pub mod lines;
pub mod display;
pub mod session;
pub mod program;

pub use buffer::LineBuffer;
pub use lines::extract_lines;
pub use sgr::{update_ansi_state, AnsiState, Color};
