//! The decisions the program takes around the viewer: how to start, how
//! long to stay once input ends, what size the terminal has, and what exit
//! status to pass on from the child.

use vstd::prelude::*;
use vstd::utf8::encode_utf8;
use crate::sgr::parse_u8_spec;
use crate::text::str_chars;

verus! {

/// How the program runs.
#[derive(Debug, Clone, Copy, PartialEq, Eq, Structural)]
pub enum Launch {
    /// Standard input is a pipe: tail it.
    Pipe,
    /// Run the command given in a pty and tail its output.
    Pty,
    /// Print the usage text and exit with status 0.
    Help,
    /// Print the usage text and exit with status 1.
    Usage,
}

/// Whether `arg` asks for help.
pub open spec fn is_help_flag(arg: Seq<char>) -> bool {
    arg =~= seq!['-', 'h'] || arg =~= seq!['-', '-', 'h', 'e', 'l', 'p']
}

/// How the program runs, given whether standard input is a terminal and its
/// first argument: `-h` or `--help` asks for help; a pipe on standard input
/// is tailed; otherwise a command given is run in a pty, and without one
/// the usage is printed.
pub open spec fn launch_spec(stdin_is_tty: bool, first_arg: Option<Seq<char>>) -> Launch {
    match first_arg {
        Some(a) => if is_help_flag(a) {
            Launch::Help
        } else if !stdin_is_tty {
            Launch::Pipe
        } else {
            Launch::Pty
        },
        None => if !stdin_is_tty {
            Launch::Pipe
        } else {
            Launch::Usage
        },
    }
}

fn help_flag(arg: &str) -> (r: bool)
    ensures
        r == is_help_flag(arg@),
{
    let cs = str_chars(arg);
    if cs.len() == 2 {
        cs[0] == '-' && cs[1] == 'h'
    } else if cs.len() == 6 {
        cs[0] == '-' && cs[1] == '-' && cs[2] == 'h' && cs[3] == 'e' && cs[4] == 'l' && cs[5]
            == 'p'
    } else {
        false
    }
}

/// Chooses how the program runs.
pub fn choose_launch(stdin_is_tty: bool, first_arg: Option<&str>) -> (r: Launch)
    ensures
        r == launch_spec(
            stdin_is_tty,
            match first_arg {
                Some(a) => Some(a@),
                None => None,
            },
        ),
{
    match first_arg {
        Some(a) => {
            if help_flag(a) {
                Launch::Help
            } else if !stdin_is_tty {
                Launch::Pipe
            } else {
                Launch::Pty
            }
        },
        None => {
            if !stdin_is_tty {
                Launch::Pipe
            } else {
                Launch::Usage
            }
        },
    }
}

/// How many seconds the viewer stays once the input has closed when the
/// setting has no value that parses as a `u8`.
pub const DEFAULT_COUNTDOWN_SECS: u8 = 5;

/// The countdown length given the value of the `TTAIL_COUNTDOWN_SECS`
/// setting: its value when it parses as a `u8`, else 5.
pub fn countdown_secs_from(value: Option<&str>) -> (r: u8)
    ensures
        r == match value {
            Some(v) => match parse_u8_spec(encode_utf8(v@)) {
                Some(n) => n,
                None => DEFAULT_COUNTDOWN_SECS,
            },
            None => DEFAULT_COUNTDOWN_SECS,
        },
{
    match value {
        Some(v) => {
            let b = v.as_bytes();
            match crate::sgr::parse_u8_field(b, 0, b.len()) {
                Some(n) => {
                    assert(b@.subrange(0, b@.len() as int) =~= b@);
                    n
                },
                None => {
                    assert(b@.subrange(0, b@.len() as int) =~= b@);
                    DEFAULT_COUNTDOWN_SECS
                },
            }
        },
        None => DEFAULT_COUNTDOWN_SECS,
    }
}

/// The terminal size (columns, rows) to use: the one the terminal reports
/// when the query succeeded and both are positive, else 80 by 24.
pub fn size_or_default(query_ok: bool, cols: u16, rows: u16) -> (r: (u16, u16))
    ensures
        r == if query_ok && cols > 0 && rows > 0 {
            (cols, rows)
        } else {
            (80u16, 24u16)
        },
{
    if query_ok && cols > 0 && rows > 0 {
        (cols, rows)
    } else {
        (80, 24)
    }
}

/// `libc::WIFEXITED`: whether a wait status reports a normal exit. The
/// libc source (Linux and the BSDs) tests that the low seven bits are zero.
#[verifier::external_body]
fn exited_normally(status: i32) -> (r: bool)
    ensures
        r == (status & 0x7f == 0),
{
    libc::WIFEXITED(status)
}

/// `libc::WEXITSTATUS`: the exit code in a wait status. The libc source
/// (Linux and the BSDs) takes bits 8 to 15.
#[verifier::external_body]
fn exit_status_of(status: i32) -> (r: i32)
    ensures
        r == ((status >> 8) & 0xff),
{
    libc::WEXITSTATUS(status)
}

/// The exit code to pass on for a child whose wait status is `status`: its
/// own exit code when it exited normally, else 1.
pub fn child_exit_code(status: i32) -> (r: i32)
    ensures
        r == if status & 0x7f == 0 {
            (status >> 8) & 0xff
        } else {
            1
        },
{
    if exited_normally(status) {
        exit_status_of(status)
    } else {
        1
    }
}

} // verus!
