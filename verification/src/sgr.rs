//! Parsing of SGR ("select graphic rendition") escape sequences and the
//! terminal rendering state that they drive.

use vstd::prelude::*;
use vstd::utf8::*;
use crate::text::{dec, digit_char, push_char, push_dec};

verus! {

/// The escape byte that starts a control sequence.
pub const ESC_BYTE: u8 = 0x1B;

/// A colour set by an SGR sequence.
#[derive(Clone, Copy, PartialEq, Eq, Debug, Structural)]
pub enum Color {
    /// 30-37 or 90-97 (foreground), 40-47 or 100-107 (background)
    Basic(u8),
    /// 38;5;N or 48;5;N
    Palette(u8),
    /// 38;2;R;G;B or 48;2;R;G;B
    Rgb(u8, u8, u8),
}

/// The graphic rendition in effect after a run of text.
#[derive(Clone, Copy, PartialEq, Eq, Debug, Structural)]
pub struct AnsiState {
    /// No SGR sequence sets this flag; the escape sequence leaves it out.
    pub reset: bool,
    pub bold: bool,
    pub dim: bool,
    pub italic: bool,
    pub underline: bool,
    pub blink: bool,
    pub reverse: bool,
    pub hidden: bool,
    pub strikethrough: bool,
    pub fg: Option<Color>,
    pub bg: Option<Color>,
}

/// The rendition of a freshly reset terminal.
pub open spec fn plain() -> AnsiState {
    AnsiState {
        reset: false,
        bold: false,
        dim: false,
        italic: false,
        underline: false,
        blink: false,
        reverse: false,
        hidden: false,
        strikethrough: false,
        fg: None,
        bg: None,
    }
}

impl Default for AnsiState {
    fn default() -> (r: AnsiState)
        ensures
            r == plain(),
    {
        AnsiState {
            reset: false,
            bold: false,
            dim: false,
            italic: false,
            underline: false,
            blink: false,
            reverse: false,
            hidden: false,
            strikethrough: false,
            fg: None,
            bg: None,
        }
    }
}

// ---------------------------------------------------------------------
// Decimal fields
// ---------------------------------------------------------------------

pub open spec fn is_digit(b: u8) -> bool {
    0x30 <= b <= 0x39
}

pub open spec fn all_digits(d: Seq<u8>) -> bool {
    forall|i: int| 0 <= i < d.len() ==> #[trigger] is_digit(d[i])
}

/// The number that a run of decimal digits spells.
pub open spec fn digits_value(d: Seq<u8>) -> nat
    decreases d.len(),
{
    if d.len() == 0 {
        0
    } else {
        digits_value(d.drop_last()) * 10 + (d.last() - 0x30) as nat
    }
}

/// A field with its optional leading `+` removed.
pub open spec fn unsigned_digits(f: Seq<u8>) -> Seq<u8> {
    if f.len() > 0 && f[0] == 0x2B {
        f.skip(1)
    } else {
        f
    }
}

/// What parsing a field as a `u8` gives: an optional `+`, then at least one
/// decimal digit, and a value no greater than 255.
pub open spec fn parse_u8_spec(f: Seq<u8>) -> Option<u8> {
    let d = unsigned_digits(f);
    if d.len() > 0 && all_digits(d) && digits_value(d) <= 255 {
        Some(digits_value(d) as u8)
    } else {
        None
    }
}

/// Index of the first `t` in `b`, or `b.len()` when there is none.
pub open spec fn index_of(b: Seq<u8>, t: u8) -> nat
    decreases b.len(),
{
    if b.len() == 0 {
        0
    } else if b[0] == t {
        0
    } else {
        1 + index_of(b.skip(1), t)
    }
}

/// The values of the `;`-separated fields of `b` that parse as `u8`,
/// in order; the others are dropped.
pub open spec fn params_list(b: Seq<u8>) -> Seq<u8>
    decreases b.len(),
{
    let k = index_of(b, 0x3B);
    let head = match parse_u8_spec(b.take(k as int)) {
        Some(v) => seq![v],
        None => Seq::<u8>::empty(),
    };
    if k < b.len() {
        head + params_list(b.skip(k + 1 as int))
    } else {
        head
    }
}

/// The parameters of an SGR sequence whose parameter text is `b`: an empty
/// text stands for a single 0.
pub open spec fn sgr_params(b: Seq<u8>) -> Seq<u8> {
    if b.len() == 0 {
        seq![0u8]
    } else {
        params_list(b)
    }
}

pub proof fn lemma_index_of_bound(b: Seq<u8>, t: u8)
    ensures
        index_of(b, t) <= b.len(),
        index_of(b, t) < b.len() ==> b[index_of(b, t) as int] == t,
        forall|i: int| 0 <= i < index_of(b, t) ==> b[i] != t,
    decreases b.len(),
{
    if b.len() > 0 && b[0] != t {
        lemma_index_of_bound(b.skip(1), t);
        assert forall|i: int| 0 <= i < index_of(b, t) implies b[i] != t by {
            if i > 0 {
                assert(b[i] == b.skip(1)[i - 1]);
            }
        }
    }
}

proof fn lemma_digits_value_prefix(d: Seq<u8>, k: int)
    requires
        0 <= k <= d.len(),
    ensures
        digits_value(d.take(k)) <= digits_value(d),
    decreases d.len(),
{
    if k < d.len() {
        lemma_digits_value_prefix(d.drop_last(), k);
        assert(d.drop_last().take(k) =~= d.take(k));
    } else {
        assert(d.take(k) =~= d);
    }
}

/// Index of the first `t` in `b[from..to]`, or `to`.
pub fn find_byte(b: &[u8], from: usize, to: usize, t: u8) -> (r: usize)
    requires
        from <= to <= b@.len(),
    ensures
        r == from + index_of(b@.subrange(from as int, to as int), t),
        from <= r <= to,
{
    let mut i = from;
    while i < to && b[i] != t
        invariant
            from <= i <= to <= b@.len(),
            index_of(b@.subrange(from as int, to as int), t) == (i - from) + index_of(
                b@.subrange(i as int, to as int),
                t,
            ),
        decreases to - i,
    {
        assert(b@.subrange(i as int, to as int).skip(1) =~= b@.subrange(i + 1, to as int));
        i += 1;
    }
    proof {
        lemma_index_of_bound(b@.subrange(i as int, to as int), t);
    }
    i
}

/// Parses `b[start..end]` as a `u8` the way `str::parse::<u8>` does.
pub fn parse_u8_field(b: &[u8], start: usize, end: usize) -> (r: Option<u8>)
    requires
        start <= end <= b@.len(),
    ensures
        r == parse_u8_spec(b@.subrange(start as int, end as int)),
{
    let ghost f = b@.subrange(start as int, end as int);
    let mut i = start;
    if i < end && b[i] == 0x2B {
        i += 1;
    }
    let d0 = i;
    assert(unsigned_digits(f) =~= b@.subrange(d0 as int, end as int));
    if i == end {
        return None;
    }
    let mut v: u16 = 0;
    while i < end
        invariant
            start <= d0 <= i <= end <= b@.len(),
            f == b@.subrange(start as int, end as int),
            unsigned_digits(f) =~= b@.subrange(d0 as int, end as int),
            all_digits(b@.subrange(d0 as int, i as int)),
            v as nat == digits_value(b@.subrange(d0 as int, i as int)),
            v <= 255,
        decreases end - i,
    {
        let c = b[i];
        let ghost d = b@.subrange(d0 as int, end as int);
        if c < 0x30 || c > 0x39 {
            assert(!is_digit(d[i - d0]));
            return None;
        }
        let ghost pre = b@.subrange(d0 as int, i + 1);
        assert(pre.drop_last() =~= b@.subrange(d0 as int, i as int));
        v = v * 10 + (c - 0x30) as u16;
        assert(pre.last() == c);
        assert(v as nat == digits_value(pre));
        i += 1;
        if v > 255 {
            proof {
                if all_digits(d) {
                    assert(d.take(i - d0) =~= pre);
                    lemma_digits_value_prefix(d, i - d0);
                }
            }
            return None;
        }
    }
    Some(v as u8)
}

/// The parameters of the SGR sequence whose parameter text is `b[start..end]`.
fn parse_sgr_params(b: &[u8], start: usize, end: usize) -> (r: Vec<u8>)
    requires
        start <= end <= b@.len(),
    ensures
        r@ == sgr_params(b@.subrange(start as int, end as int)),
{
    let mut out: Vec<u8> = Vec::new();
    if start == end {
        out.push(0);
        return out;
    }
    let mut p = start;
    loop
        invariant
            start <= p <= end <= b@.len(),
            start < end,
            out@ + params_list(b@.subrange(p as int, end as int)) == params_list(
                b@.subrange(start as int, end as int),
            ),
        decreases end - p,
    {
        let k = find_byte(b, p, end, 0x3B);
        let ghost rest = b@.subrange(p as int, end as int);
        assert(rest.take(k - p) =~= b@.subrange(p as int, k as int));
        let field = parse_u8_field(b, p, k);
        let ghost old_out = out@;
        match field {
            Some(v) => {
                out.push(v);
            },
            None => {},
        }
        if k < end {
            assert(rest.skip(k - p + 1) =~= b@.subrange(k + 1, end as int));
            assert(out@ + params_list(b@.subrange(k + 1, end as int)) =~= old_out + params_list(
                rest,
            ));
            p = k + 1;
        } else {
            assert(out@ =~= old_out + params_list(rest));
            assert(out@ + params_list(b@.subrange(p as int, end as int)) == out@ + params_list(
                rest,
            ));
            assert(params_list(b@.subrange(start as int, end as int)) =~= out@);
            return out;
        }
    }
}


// ---------------------------------------------------------------------
// Applying SGR parameters
// ---------------------------------------------------------------------

/// The colour that an extended colour parameter list (`p[0]` being 38 or
/// 48) selects: `5;N` is a palette entry and `2;R;G;B` a true colour.
pub open spec fn extended_color(p: Seq<u8>) -> Option<Color> {
    if p.len() >= 3 && p[1] == 5 {
        Some(Color::Palette(p[2]))
    } else if p.len() >= 5 && p[1] == 2 {
        Some(Color::Rgb(p[2], p[3], p[4]))
    } else {
        None
    }
}

/// How many parameters the code at the head of `p` takes up.
pub open spec fn code_len(p: Seq<u8>) -> nat {
    if p[0] == 38 || p[0] == 48 {
        match extended_color(p) {
            Some(Color::Palette(_)) => 3,
            Some(Color::Rgb(_, _, _)) => 5,
            _ => 1,
        }
    } else {
        1
    }
}

pub open spec fn is_fg_basic(n: u8) -> bool {
    (30 <= n <= 37) || (90 <= n <= 97)
}

pub open spec fn is_bg_basic(n: u8) -> bool {
    (40 <= n <= 47) || (100 <= n <= 107)
}

/// The effect of the code at the head of a non-empty parameter list.
#[verifier::opaque]
pub open spec fn apply_code(s: AnsiState, p: Seq<u8>) -> AnsiState {
    let n = p[0];
    if n == 0 {
        plain()
    } else if n == 1 {
        AnsiState { bold: true, ..s }
    } else if n == 2 {
        AnsiState { dim: true, ..s }
    } else if n == 3 {
        AnsiState { italic: true, ..s }
    } else if n == 4 {
        AnsiState { underline: true, ..s }
    } else if n == 5 {
        AnsiState { blink: true, ..s }
    } else if n == 7 {
        AnsiState { reverse: true, ..s }
    } else if n == 8 {
        AnsiState { hidden: true, ..s }
    } else if n == 9 {
        AnsiState { strikethrough: true, ..s }
    } else if n == 22 {
        AnsiState { bold: false, dim: false, ..s }
    } else if n == 23 {
        AnsiState { italic: false, ..s }
    } else if n == 24 {
        AnsiState { underline: false, ..s }
    } else if n == 25 {
        AnsiState { blink: false, ..s }
    } else if n == 27 {
        AnsiState { reverse: false, ..s }
    } else if n == 28 {
        AnsiState { hidden: false, ..s }
    } else if n == 29 {
        AnsiState { strikethrough: false, ..s }
    } else if 30 <= n <= 37 || 90 <= n <= 97 {
        AnsiState { fg: Some(Color::Basic(n)), ..s }
    } else if 40 <= n <= 47 || 100 <= n <= 107 {
        AnsiState { bg: Some(Color::Basic(n)), ..s }
    } else if n == 38 {
        match extended_color(p) {
            Some(c) => AnsiState { fg: Some(c), ..s },
            None => s,
        }
    } else if n == 48 {
        match extended_color(p) {
            Some(c) => AnsiState { bg: Some(c), ..s },
            None => s,
        }
    } else if n == 39 {
        AnsiState { fg: None, ..s }
    } else if n == 49 {
        AnsiState { bg: None, ..s }
    } else {
        s
    }
}

/// Applies the codes of `p` from left to right.
#[verifier::opaque]
pub open spec fn sgr_run(s: AnsiState, p: Seq<u8>) -> AnsiState
    decreases p.len(),
{
    if p.len() == 0 {
        s
    } else {
        sgr_run(apply_code(s, p), p.skip(code_len(p) as int))
    }
}

/// The state after an SGR sequence with parameters `p`: no parameters at
/// all resets everything.
pub open spec fn apply_sgr_spec(s: AnsiState, p: Seq<u8>) -> AnsiState {
    if p.len() == 0 {
        plain()
    } else {
        sgr_run(s, p)
    }
}

impl AnsiState {
    /// Reads the extended colour at `params[i..]`.
    fn parse_extended(params: &[u8], i: usize) -> (r: Option<Color>)
        requires
            i < params@.len(),
        ensures
            r == extended_color(params@.skip(i as int)),
    {
        let len = params.len() - i;
        if len >= 3 && params[i + 1] == 5 {
            Some(Color::Palette(params[i + 2]))
        } else if len >= 5 && params[i + 1] == 2 {
            Some(Color::Rgb(params[i + 2], params[i + 3], params[i + 4]))
        } else {
            None
        }
    }

    /// Applies the code at `params[i]` (with the parameters of an extended
    /// colour that follow it) and returns how many parameters it took up.
    #[verifier::rlimit(40)]
    fn apply_code_at(&mut self, params: &[u8], i: usize) -> (step: usize)
        requires
            i < params@.len(),
        ensures
            *final(self) == apply_code(*old(self), params@.skip(i as int)),
            step == code_len(params@.skip(i as int)),
    {
        let ghost rest = params@.skip(i as int);
        assert(rest[0] == params@[i as int]);
        proof {
            reveal(apply_code);
        }
        let mut step: usize = 1;
        match params[i] {
            0 => *self = Self::default(),
            1 => self.bold = true,
            2 => self.dim = true,
            3 => self.italic = true,
            4 => self.underline = true,
            5 => self.blink = true,
            7 => self.reverse = true,
            8 => self.hidden = true,
            9 => self.strikethrough = true,
            22 => {
                self.bold = false;
                self.dim = false;
            },
            23 => self.italic = false,
            24 => self.underline = false,
            25 => self.blink = false,
            27 => self.reverse = false,
            28 => self.hidden = false,
            29 => self.strikethrough = false,
            n @ 30..=37 => self.fg = Some(Color::Basic(n)),
            38 => {
                if let Some(color) = Self::parse_extended(params, i) {
                    match color {
                        Color::Palette(_) => step = 3,
                        Color::Rgb(_, _, _) => step = 5,
                        _ => {},
                    }
                    self.fg = Some(color);
                }
            },
            39 => self.fg = None,
            n @ 40..=47 => self.bg = Some(Color::Basic(n)),
            48 => {
                if let Some(color) = Self::parse_extended(params, i) {
                    match color {
                        Color::Palette(_) => step = 3,
                        Color::Rgb(_, _, _) => step = 5,
                        _ => {},
                    }
                    self.bg = Some(color);
                }
            },
            49 => self.bg = None,
            n @ 90..=97 => self.fg = Some(Color::Basic(n)),
            n @ 100..=107 => self.bg = Some(Color::Basic(n)),
            _ => {},
        }
        step
    }

    fn apply_sgr(&mut self, params: &[u8])
        ensures
            *final(self) == apply_sgr_spec(*old(self), params@),
    {
        if params.len() == 0 {
            *self = Self::default();
            return;
        }
        assert(params@.skip(0) =~= params@);
        proof {
            reveal(sgr_run);
        }
        let mut i: usize = 0;
        while i < params.len()
            invariant
                i <= params@.len(),
                params@.len() > 0,
                sgr_run(*self, params@.skip(i as int)) == apply_sgr_spec(*old(self), params@),
            decreases params@.len() - i,
        {
            let ghost rest = params@.skip(i as int);
            proof {
                reveal(sgr_run);
            }
            let step = self.apply_code_at(params, i);
            assert(rest.skip(step as int) =~= params@.skip(i + step));
            i += step;
        }
        assert(params@.skip(i as int) =~= Seq::<u8>::empty());
    }
}

// ---------------------------------------------------------------------
// Scanning a line for SGR sequences
// ---------------------------------------------------------------------

/// The bytes that end a control sequence (`@` to `~`).
pub open spec fn is_final_byte(b: u8) -> bool {
    0x40 <= b <= 0x7E
}

/// Index of the first final byte in `b`, or `b.len()`.
pub open spec fn final_index(b: Seq<u8>) -> nat
    decreases b.len(),
{
    if b.len() == 0 {
        0
    } else if is_final_byte(b[0]) {
        0
    } else {
        1 + final_index(b.skip(1))
    }
}

/// The state after the bytes `b` have been written with state `s` in
/// effect: a control sequence runs from `ESC [` to the first final byte
/// (`@` to `~`); one that ends in `m` applies its parameters, any other is
/// skipped; an unfinished sequence at the end is ignored.
pub open spec fn scan_sgr(s: AnsiState, b: Seq<u8>) -> AnsiState
    decreases b.len(),
{
    if b.len() == 0 {
        s
    } else if b.len() >= 2 && b[0] == ESC_BYTE && b[1] == 0x5B {
        let body = b.skip(2);
        let j = final_index(body);
        if j < body.len() {
            let s2 = if body[j as int] == 0x6D {
                apply_sgr_spec(s, sgr_params(body.take(j as int)))
            } else {
                s
            };
            scan_sgr(s2, body.skip(j + 1 as int))
        } else {
            s
        }
    } else {
        scan_sgr(s, b.skip(1))
    }
}

/// The state after the text `line` has been written with state `s` in effect.
pub open spec fn line_effect(s: AnsiState, line: Seq<char>) -> AnsiState {
    scan_sgr(s, encode_utf8(line))
}

pub proof fn lemma_final_index_bound(b: Seq<u8>)
    ensures
        final_index(b) <= b.len(),
        final_index(b) < b.len() ==> is_final_byte(b[final_index(b) as int]),
    decreases b.len(),
{
    if b.len() > 0 && !is_final_byte(b[0]) {
        lemma_final_index_bound(b.skip(1));
    }
}

/// Index of the first final byte in `b[from..]`, or `b.len()`.
fn find_final_byte(b: &[u8], from: usize) -> (r: usize)
    requires
        from <= b@.len(),
    ensures
        r == from + final_index(b@.skip(from as int)),
        from <= r <= b@.len(),
{
    let mut i = from;
    while i < b.len() && (b[i] < 0x40 || b[i] > 0x7E)
        invariant
            from <= i <= b@.len(),
            final_index(b@.skip(from as int)) == (i - from) + final_index(b@.skip(i as int)),
        decreases b@.len() - i,
    {
        assert(b@.skip(i as int).skip(1) =~= b@.skip(i + 1));
        i += 1;
    }
    proof {
        lemma_final_index_bound(b@.skip(i as int));
    }
    i
}

/// Updates `state` with every SGR sequence found in `line`.
pub fn update_ansi_state(state: &mut AnsiState, line: &str)
    ensures
        *final(state) == line_effect(*old(state), line@),
{
    let bytes = line.as_bytes();
    let len = bytes.len();
    let mut i: usize = 0;
    assert(bytes@.skip(0) =~= bytes@);
    while i < len
        invariant
            len == bytes@.len(),
            bytes@ == encode_utf8(line@),
            i <= len,
            scan_sgr(*state, bytes@.skip(i as int)) == line_effect(*old(state), line@),
        decreases len - i,
    {
        let ghost rest = bytes@.skip(i as int);
        if bytes[i] == ESC_BYTE && i + 1 < len && bytes[i + 1] == 0x5B {
            let start = i + 2;
            assert(rest.skip(2) =~= bytes@.skip(start as int));
            let j = find_final_byte(bytes, start);
            if j < len {
                if bytes[j] == 0x6D {
                    let params = parse_sgr_params(bytes, start, j);
                    assert(rest.skip(2).take(j - start) =~= bytes@.subrange(start as int, j as int));
                    state.apply_sgr(params.as_slice());
                }
                assert(rest.skip(2).skip(j - start + 1) =~= bytes@.skip(j + 1));
                i = j + 1;
            } else {
                assert(scan_sgr(*state, rest) == *state);
                i = len;
            }
        } else {
            assert(rest.skip(1) =~= bytes@.skip(i + 1));
            i += 1;
        }
    }
    assert(i >= len ==> bytes@.skip(i as int) =~= Seq::<u8>::empty());
}


// ---------------------------------------------------------------------
// Writing a state back out as an SGR sequence
// ---------------------------------------------------------------------

pub open spec fn flag_code(on: bool, n: u8) -> Seq<u8> {
    if on {
        seq![n]
    } else {
        Seq::<u8>::empty()
    }
}

/// The codes that select colour `c`; `lead` is 38 for the foreground and 48
/// for the background.
pub open spec fn color_codes(c: Option<Color>, lead: u8) -> Seq<u8> {
    match c {
        None => Seq::<u8>::empty(),
        Some(Color::Basic(n)) => seq![n],
        Some(Color::Palette(n)) => seq![lead, 5u8, n],
        Some(Color::Rgb(r, g, b)) => seq![lead, 2u8, r, g, b],
    }
}

/// The SGR codes that re-establish `s` on a reset terminal.
pub open spec fn sgr_codes(s: AnsiState) -> Seq<u8> {
    flag_code(s.bold, 1) + (flag_code(s.dim, 2) + (flag_code(s.italic, 3) + (flag_code(
        s.underline,
        4,
    ) + (flag_code(s.blink, 5) + (flag_code(s.reverse, 7) + (flag_code(s.hidden, 8) + (flag_code(
        s.strikethrough,
        9,
    ) + (color_codes(s.fg, 38) + color_codes(s.bg, 48)))))))))
}

/// Decimal codes separated by `;`.
pub open spec fn join_codes(ns: Seq<u8>) -> Seq<char>
    decreases ns.len(),
{
    if ns.len() == 0 {
        Seq::<char>::empty()
    } else if ns.len() == 1 {
        dec(ns[0] as nat)
    } else {
        dec(ns[0] as nat) + seq![';'] + join_codes(ns.skip(1))
    }
}

/// The escape sequence that re-establishes `s`, empty when there is nothing
/// to set.
pub open spec fn escape_text(s: AnsiState) -> Seq<char> {
    let codes = sgr_codes(s);
    if codes.len() == 0 {
        Seq::<char>::empty()
    } else {
        seq!['\x1B', '['] + join_codes(codes) + seq!['m']
    }
}

proof fn lemma_join_codes_push(ns: Seq<u8>, n: u8)
    ensures
        join_codes(ns.push(n)) == if ns.len() == 0 {
            dec(n as nat)
        } else {
            join_codes(ns) + seq![';'] + dec(n as nat)
        },
    decreases ns.len(),
{
    if ns.len() == 0 {
    } else if ns.len() == 1 {
        assert(ns.push(n).skip(1) =~= seq![n]);
        assert(join_codes(ns.push(n).skip(1)) == join_codes(seq![n]));
        assert(join_codes(seq![n]) == dec(n as nat));
        assert(ns.push(n)[0] == ns[0]);
        assert(join_codes(ns.push(n)) =~= join_codes(ns) + seq![';'] + dec(n as nat));
    } else {
        lemma_join_codes_push(ns.skip(1), n);
        assert(ns.push(n).skip(1) =~= ns.skip(1).push(n));
        assert(join_codes(ns.push(n).skip(1)) == join_codes(ns.skip(1).push(n)));
        assert(ns.push(n)[0] == ns[0]);
        assert(join_codes(ns.push(n)) =~= join_codes(ns) + seq![';'] + dec(n as nat));
    }
}

impl AnsiState {
    fn push_flag(on: bool, n: u8, codes: &mut Vec<u8>)
        ensures
            final(codes)@ == old(codes)@ + flag_code(on, n),
    {
        if on {
            codes.push(n);
        }
        assert(codes@ =~= old(codes)@ + flag_code(on, n));
    }

    fn color_to_codes(color: &Color, lead: u8, codes: &mut Vec<u8>)
        ensures
            final(codes)@ == old(codes)@ + color_codes(Some(*color), lead),
    {
        match color {
            Color::Basic(n) => codes.push(*n),
            Color::Palette(n) => {
                codes.push(lead);
                codes.push(5);
                codes.push(*n);
            },
            Color::Rgb(r, g, b) => {
                codes.push(lead);
                codes.push(2);
                codes.push(*r);
                codes.push(*g);
                codes.push(*b);
            },
        }
        assert(codes@ =~= old(codes)@ + color_codes(Some(*color), lead));
    }

    fn codes(&self) -> (r: Vec<u8>)
        ensures
            r@ == sgr_codes(*self),
    {
        let ghost a = *self;
        let ghost t9 = color_codes(a.fg, 38) + color_codes(a.bg, 48);
        let ghost t8 = flag_code(a.strikethrough, 9) + t9;
        let ghost t7 = flag_code(a.hidden, 8) + t8;
        let ghost t6 = flag_code(a.reverse, 7) + t7;
        let ghost t5 = flag_code(a.blink, 5) + t6;
        let ghost t4 = flag_code(a.underline, 4) + t5;
        let ghost t3 = flag_code(a.italic, 3) + t4;
        let ghost t2 = flag_code(a.dim, 2) + t3;
        let mut codes: Vec<u8> = Vec::new();
        assert(codes@ + sgr_codes(a) =~= sgr_codes(a));
        let ghost before = codes@;
        let ghost piece = flag_code(a.bold, 1);
        Self::push_flag(self.bold, 1, &mut codes);
        proof {
            vstd::seq_lib::lemma_concat_associative(before, piece, t2);
        }
        assert(codes@ + t2 == sgr_codes(a));
        let ghost before = codes@;
        let ghost piece = flag_code(a.dim, 2);
        Self::push_flag(self.dim, 2, &mut codes);
        proof {
            vstd::seq_lib::lemma_concat_associative(before, piece, t3);
        }
        assert(codes@ + t3 == sgr_codes(a));
        let ghost before = codes@;
        let ghost piece = flag_code(a.italic, 3);
        Self::push_flag(self.italic, 3, &mut codes);
        proof {
            vstd::seq_lib::lemma_concat_associative(before, piece, t4);
        }
        assert(codes@ + t4 == sgr_codes(a));
        let ghost before = codes@;
        let ghost piece = flag_code(a.underline, 4);
        Self::push_flag(self.underline, 4, &mut codes);
        proof {
            vstd::seq_lib::lemma_concat_associative(before, piece, t5);
        }
        assert(codes@ + t5 == sgr_codes(a));
        let ghost before = codes@;
        let ghost piece = flag_code(a.blink, 5);
        Self::push_flag(self.blink, 5, &mut codes);
        proof {
            vstd::seq_lib::lemma_concat_associative(before, piece, t6);
        }
        assert(codes@ + t6 == sgr_codes(a));
        let ghost before = codes@;
        let ghost piece = flag_code(a.reverse, 7);
        Self::push_flag(self.reverse, 7, &mut codes);
        proof {
            vstd::seq_lib::lemma_concat_associative(before, piece, t7);
        }
        assert(codes@ + t7 == sgr_codes(a));
        let ghost before = codes@;
        let ghost piece = flag_code(a.hidden, 8);
        Self::push_flag(self.hidden, 8, &mut codes);
        proof {
            vstd::seq_lib::lemma_concat_associative(before, piece, t8);
        }
        assert(codes@ + t8 == sgr_codes(a));
        let ghost before = codes@;
        let ghost piece = flag_code(a.strikethrough, 9);
        Self::push_flag(self.strikethrough, 9, &mut codes);
        proof {
            vstd::seq_lib::lemma_concat_associative(before, piece, t9);
        }
        assert(codes@ + t9 == sgr_codes(a));
        let ghost before_fg = codes@;
        if let Some(c) = &self.fg {
            Self::color_to_codes(c, 38, &mut codes);
        }
        assert(codes@ =~= before_fg + color_codes(a.fg, 38));
        proof {
            vstd::seq_lib::lemma_concat_associative(before_fg, color_codes(a.fg, 38), color_codes(a.bg, 48));
        }
        assert(codes@ + color_codes(a.bg, 48) == sgr_codes(a));
        let ghost before_bg = codes@;
        if let Some(c) = &self.bg {
            Self::color_to_codes(c, 48, &mut codes);
        }
        assert(codes@ =~= before_bg + color_codes(a.bg, 48));
        codes
    }

    /// The escape sequence that re-establishes this state on a reset
    /// terminal; empty when there is nothing to set.
    pub fn to_escape(&self) -> (r: String)
        ensures
            r@ == escape_text(*self),
    {
        let codes = self.codes();
        let mut out = String::new();
        if codes.len() == 0 {
            return out;
        }
        push_char(&mut out, '\x1B');
        push_char(&mut out, '[');
        let mut k: usize = 0;
        while k < codes.len()
            invariant
                k <= codes@.len(),
                codes@ == sgr_codes(*self),
                out@ == seq!['\x1B', '['] + join_codes(codes@.take(k as int)),
            decreases codes@.len() - k,
        {
            proof {
                lemma_join_codes_push(codes@.take(k as int), codes@[k as int]);
                assert(codes@.take(k as int).push(codes@[k as int]) =~= codes@.take(k + 1));
            }
            if k > 0 {
                push_char(&mut out, ';');
            }
            push_dec(&mut out, codes[k] as u128);
            k += 1;
            assert(out@ =~= seq!['\x1B', '['] + join_codes(codes@.take(k as int)));
        }
        push_char(&mut out, 'm');
        assert(codes@.take(k as int) =~= codes@);
        assert(out@ =~= escape_text(*self));
        out
    }

    /// Whether this is the state of a reset terminal.
    pub fn is_empty(&self) -> (r: bool)
        ensures
            r == (*self == plain()),
    {
        *self == Self::default()
    }
}


// ---------------------------------------------------------------------
// Escape sequences give back the state they were made from
// ---------------------------------------------------------------------

/// The states that SGR sequences can produce from a reset terminal: the
/// `reset` flag is never set, and a basic colour sits on the side (foreground
/// or background) that its code selects.
pub open spec fn wf_state(s: AnsiState) -> bool {
    &&& !s.reset
    &&& match s.fg {
        Some(Color::Basic(n)) => is_fg_basic(n),
        _ => true,
    }
    &&& match s.bg {
        Some(Color::Basic(n)) => is_bg_basic(n),
        _ => true,
    }
}

proof fn lemma_apply_code_wf(s: AnsiState, p: Seq<u8>)
    requires
        wf_state(s),
        p.len() > 0,
    ensures
        wf_state(apply_code(s, p)),
{
    reveal(apply_code);
}

proof fn lemma_sgr_run_wf(s: AnsiState, p: Seq<u8>)
    requires
        wf_state(s),
    ensures
        wf_state(sgr_run(s, p)),
    decreases p.len(),
{
    reveal(sgr_run);
    if p.len() > 0 {
        lemma_apply_code_wf(s, p);
        lemma_sgr_run_wf(apply_code(s, p), p.skip(code_len(p) as int));
    }
}

/// Scanning text never leaves the well-formed states.
pub proof fn lemma_scan_wf(s: AnsiState, b: Seq<u8>)
    requires
        wf_state(s),
    ensures
        wf_state(scan_sgr(s, b)),
    decreases b.len(),
{
    if b.len() == 0 {
    } else if b.len() >= 2 && b[0] == ESC_BYTE && b[1] == 0x5B {
        let body = b.skip(2);
        let j = final_index(body);
        if j < body.len() {
            if body[j as int] == 0x6D {
                let q = sgr_params(body.take(j as int));
                if q.len() > 0 {
                    lemma_sgr_run_wf(s, q);
                }
                lemma_scan_wf(apply_sgr_spec(s, q), body.skip(j + 1 as int));
            } else {
                lemma_scan_wf(s, body.skip(j + 1 as int));
            }
        }
    } else {
        lemma_scan_wf(s, b.skip(1));
    }
}

/// The bytes of text made of ASCII characters only.
pub open spec fn ascii_bytes(s: Seq<char>) -> Seq<u8> {
    s.map_values(|c: char| c as u8)
}

pub proof fn lemma_encode_concat(a: Seq<char>, b: Seq<char>)
    ensures
        encode_utf8(a + b) == encode_utf8(a) + encode_utf8(b),
    decreases a.len(),
{
    if a.len() > 0 {
        assert((a + b).drop_first() =~= a.drop_first() + b);
        assert((a + b)[0] == a[0]);
        lemma_encode_concat(a.drop_first(), b);
        assert(encode_utf8(a + b) =~= encode_utf8(a) + encode_utf8(b));
    } else {
        assert(a + b =~= b);
        assert(encode_utf8(a) =~= Seq::<u8>::empty());
        assert(encode_utf8(a) + encode_utf8(b) =~= encode_utf8(b));
    }
}

proof fn lemma_encode_ascii(s: Seq<char>)
    requires
        is_ascii_chars(s),
    ensures
        encode_utf8(s) == ascii_bytes(s),
{
    is_ascii_chars_encode_utf8(s);
    assert(encode_utf8(s) =~= ascii_bytes(s));
}

/// Digits and `;`, the characters of a run of SGR parameters.
pub open spec fn is_param_char(c: char) -> bool {
    ('0' <= c <= '9') || c == ';'
}

proof fn lemma_dec_digits(n: nat)
    ensures
        dec(n).len() > 0,
        forall|i: int| 0 <= i < dec(n).len() ==> '0' <= #[trigger] dec(n)[i] <= '9',
        all_digits(ascii_bytes(dec(n))),
        digits_value(ascii_bytes(dec(n))) == n,
    decreases n,
{
    if n >= 10 {
        lemma_dec_digits(n / 10);
        let d = ascii_bytes(dec(n));
        assert(d.drop_last() =~= ascii_bytes(dec(n / 10)));
        assert(d.last() == digit_char(n % 10) as u8);
        assert(d.last() - 0x30 == n % 10);
        assert(digits_value(d) == digits_value(d.drop_last()) * 10 + (d.last() - 0x30) as nat);
        assert((n / 10) * 10 + n % 10 == n);
        assert forall|i: int| 0 <= i < d.len() implies #[trigger] is_digit(d[i]) by {
            if i < d.len() - 1 {
                assert(d[i] == d.drop_last()[i]);
            }
        }
    } else {
        let d = ascii_bytes(dec(n));
        assert(d.drop_last() =~= Seq::<u8>::empty());
        assert(d.last() == digit_char(n) as u8);
        assert(digits_value(d) == digits_value(d.drop_last()) * 10 + (d.last() - 0x30) as nat);
    }
}

proof fn lemma_join_codes_chars(ns: Seq<u8>)
    ensures
        forall|i: int| 0 <= i < join_codes(ns).len() ==> is_param_char(#[trigger] join_codes(ns)[i]),
        ns.len() > 0 ==> join_codes(ns).len() > 0,
    decreases ns.len(),
{
    lemma_dec_digits(ns[0] as nat);
    if ns.len() > 1 {
        lemma_join_codes_chars(ns.skip(1));
        let a = dec(ns[0] as nat);
        let j = join_codes(ns);
        assert forall|i: int| 0 <= i < j.len() implies is_param_char(#[trigger] j[i]) by {
            if i < a.len() {
                assert(j[i] == a[i]);
            } else if i > a.len() {
                assert(j[i] == join_codes(ns.skip(1))[i - a.len() - 1]);
            }
        }
    }
}

pub proof fn lemma_index_of_append(a: Seq<u8>, b: Seq<u8>, t: u8)
    requires
        forall|i: int| 0 <= i < a.len() ==> a[i] != t,
    ensures
        index_of(a + b, t) == a.len() + index_of(b, t),
    decreases a.len(),
{
    if a.len() == 0 {
        assert(a + b =~= b);
    } else {
        assert((a + b).skip(1) =~= a.skip(1) + b);
        lemma_index_of_append(a.skip(1), b, t);
    }
}

proof fn lemma_final_index_append(a: Seq<u8>, b: Seq<u8>)
    requires
        forall|i: int| 0 <= i < a.len() ==> !is_final_byte(a[i]),
    ensures
        final_index(a + b) == a.len() + final_index(b),
    decreases a.len(),
{
    if a.len() == 0 {
        assert(a + b =~= b);
    } else {
        assert((a + b).skip(1) =~= a.skip(1) + b);
        lemma_final_index_append(a.skip(1), b);
    }
}

/// The parameter text of a run of codes parses back to those codes.
proof fn lemma_params_of_join(ns: Seq<u8>)
    requires
        ns.len() > 0,
    ensures
        params_list(ascii_bytes(join_codes(ns))) == ns,
    decreases ns.len(),
{
    let d = ascii_bytes(dec(ns[0] as nat));
    lemma_dec_digits(ns[0] as nat);
    assert forall|i: int| 0 <= i < d.len() implies d[i] != 0x3B by {
        assert(d[i] == dec(ns[0] as nat)[i] as u8);
    }
    assert(unsigned_digits(d) == d) by {
        assert(d[0] == dec(ns[0] as nat)[0] as u8);
    }
    assert(parse_u8_spec(d) == Some(ns[0]));
    if ns.len() == 1 {
        let b = ascii_bytes(join_codes(ns));
        assert(b == d);
        lemma_index_of_append(d, Seq::<u8>::empty(), 0x3B);
        assert(d + Seq::<u8>::empty() =~= d);
        assert(b.take(d.len() as int) =~= d);
        assert(params_list(b) =~= ns);
    } else {
        let rest = ascii_bytes(join_codes(ns.skip(1)));
        let b = ascii_bytes(join_codes(ns));
        assert(b =~= d + (seq![0x3Bu8] + rest));
        lemma_index_of_append(d, seq![0x3Bu8] + rest, 0x3B);
        assert(index_of(b, 0x3B) == d.len());
        assert(b.take(d.len() as int) =~= d);
        assert(b.skip(d.len() + 1 as int) =~= rest);
        lemma_params_of_join(ns.skip(1));
        assert(params_list(b) =~= seq![ns[0]] + ns.skip(1));
        assert(seq![ns[0]] + ns.skip(1) =~= ns);
    }
}

/// A code that stands alone, or an extended colour with its parameters.
pub open spec fn is_code_group(g: Seq<u8>) -> bool {
    ||| (g.len() == 1 && g[0] != 38 && g[0] != 48)
    ||| (g.len() == 3 && (g[0] == 38 || g[0] == 48) && g[1] == 5)
    ||| (g.len() == 5 && (g[0] == 38 || g[0] == 48) && g[1] == 2)
}

pub open spec fn piece_effect(s: AnsiState, g: Seq<u8>) -> AnsiState {
    if g.len() == 0 {
        s
    } else {
        apply_code(s, g)
    }
}

proof fn lemma_run_piece(s: AnsiState, g: Seq<u8>, rest: Seq<u8>)
    requires
        g.len() == 0 || is_code_group(g),
    ensures
        sgr_run(s, g + rest) == sgr_run(piece_effect(s, g), rest),
{
    if g.len() == 0 {
        assert(g + rest =~= rest);
        assert(piece_effect(s, g) == s);
    } else {
        let p = g + rest;
        reveal(apply_code);
        reveal(sgr_run);
        assert(p[0] == g[0]);
        if g.len() == 5 {
            assert(p[1] == g[1] && p[2] == g[2] && p[3] == g[3] && p[4] == g[4]);
        }
        if g.len() == 3 {
            assert(p[1] == g[1] && p[2] == g[2]);
        }
        assert(apply_code(s, p) == apply_code(s, g));
        assert(code_len(p) == g.len());
        assert(p.skip(g.len() as int) =~= rest);
    }
}

proof fn lemma_color_piece(c: Option<Color>, lead: u8)
    requires
        lead == 38 || lead == 48,
        match c {
            Some(Color::Basic(n)) => n != 38 && n != 48,
            _ => true,
        },
    ensures
        color_codes(c, lead).len() == 0 || is_code_group(color_codes(c, lead)),
{
}

/// `s` with the attribute flag of code `n` set to `v`.
pub open spec fn with_flag(s: AnsiState, n: u8, v: bool) -> AnsiState {
    if n == 1 {
        AnsiState { bold: v, ..s }
    } else if n == 2 {
        AnsiState { dim: v, ..s }
    } else if n == 3 {
        AnsiState { italic: v, ..s }
    } else if n == 4 {
        AnsiState { underline: v, ..s }
    } else if n == 5 {
        AnsiState { blink: v, ..s }
    } else if n == 7 {
        AnsiState { reverse: v, ..s }
    } else if n == 8 {
        AnsiState { hidden: v, ..s }
    } else {
        AnsiState { strikethrough: v, ..s }
    }
}

proof fn lemma_flag_step(s: AnsiState, on: bool, n: u8)
    requires
        n == 1 || n == 2 || n == 3 || n == 4 || n == 5 || n == 7 || n == 8 || n == 9,
    ensures
        piece_effect(s, flag_code(on, n)) == if on {
            with_flag(s, n, true)
        } else {
            s
        },
{
    reveal(apply_code);
    if on {
        assert(flag_code(on, n)[0] == n);
    }
}

/// `p` without its colours.
pub open spec fn flags_only(p: AnsiState) -> AnsiState {
    AnsiState { reset: false, fg: None, bg: None, ..p }
}

#[verifier::rlimit(30)]
proof fn lemma_flags_restore(p: AnsiState, rest: Seq<u8>)
    ensures
        sgr_run(
            plain(),
            flag_code(p.bold, 1) + (flag_code(p.dim, 2) + (flag_code(p.italic, 3) + (flag_code(
                p.underline,
                4,
            ) + (flag_code(p.blink, 5) + (flag_code(p.reverse, 7) + (flag_code(p.hidden, 8) + (
            flag_code(p.strikethrough, 9) + rest))))))),
        ) == sgr_run(flags_only(p), rest),
{
    let a1 = flag_code(p.bold, 1);
    let a2 = flag_code(p.dim, 2);
    let a3 = flag_code(p.italic, 3);
    let a4 = flag_code(p.underline, 4);
    let a5 = flag_code(p.blink, 5);
    let a6 = flag_code(p.reverse, 7);
    let a7 = flag_code(p.hidden, 8);
    let a8 = flag_code(p.strikethrough, 9);
    let t9 = rest;
    let t8 = a8 + t9;
    let t7 = a7 + t8;
    let t6 = a6 + t7;
    let t5 = a5 + t6;
    let t4 = a4 + t5;
    let t3 = a3 + t4;
    let t2 = a2 + t3;
    let e0 = plain();
    lemma_run_piece(e0, a1, t2);
    lemma_flag_step(e0, p.bold, 1);
    let e1 = AnsiState { bold: p.bold, ..e0 };
    assert(piece_effect(e0, a1) == e1);
    lemma_run_piece(e1, a2, t3);
    lemma_flag_step(e1, p.dim, 2);
    let e2 = AnsiState { dim: p.dim, ..e1 };
    assert(piece_effect(e1, a2) == e2);
    lemma_run_piece(e2, a3, t4);
    lemma_flag_step(e2, p.italic, 3);
    let e3 = AnsiState { italic: p.italic, ..e2 };
    assert(piece_effect(e2, a3) == e3);
    lemma_run_piece(e3, a4, t5);
    lemma_flag_step(e3, p.underline, 4);
    let e4 = AnsiState { underline: p.underline, ..e3 };
    assert(piece_effect(e3, a4) == e4);
    lemma_run_piece(e4, a5, t6);
    lemma_flag_step(e4, p.blink, 5);
    let e5 = AnsiState { blink: p.blink, ..e4 };
    assert(piece_effect(e4, a5) == e5);
    lemma_run_piece(e5, a6, t7);
    lemma_flag_step(e5, p.reverse, 7);
    let e6 = AnsiState { reverse: p.reverse, ..e5 };
    assert(piece_effect(e5, a6) == e6);
    lemma_run_piece(e6, a7, t8);
    lemma_flag_step(e6, p.hidden, 8);
    let e7 = AnsiState { hidden: p.hidden, ..e6 };
    assert(piece_effect(e6, a7) == e7);
    lemma_run_piece(e7, a8, t9);
    lemma_flag_step(e7, p.strikethrough, 9);
    let e8 = AnsiState { strikethrough: p.strikethrough, ..e7 };
    assert(piece_effect(e7, a8) == e8);
    assert(e8 == flags_only(p));
}

/// The codes of a well-formed state re-establish it on a reset terminal.
proof fn lemma_codes_restore(p: AnsiState)
    requires
        wf_state(p),
    ensures
        sgr_run(plain(), sgr_codes(p)) == p,
{
    let a9 = color_codes(p.fg, 38);
    let a10 = color_codes(p.bg, 48);
    lemma_flags_restore(p, a9 + a10);
    let e8 = flags_only(p);
    lemma_color_piece(p.fg, 38);
    lemma_run_piece(e8, a9, a10);
    let e9 = piece_effect(e8, a9);
    assert(e9 == AnsiState { fg: p.fg, ..e8 }) by {
        reveal(apply_code);
    }
    lemma_color_piece(p.bg, 48);
    assert(a10 + Seq::<u8>::empty() =~= a10);
    lemma_run_piece(e9, a10, Seq::<u8>::empty());
    let e10 = piece_effect(e9, a10);
    assert(e10 == AnsiState { bg: p.bg, ..e9 }) by {
        reveal(apply_code);
    }
    assert(sgr_run(e10, Seq::<u8>::empty()) == e10) by {
        reveal(sgr_run);
    }
    assert(e10 == p);
}

/// Writing the escape sequence of a well-formed state `p` and then `line` on
/// a reset terminal leaves the same state as writing `line` with `p` in
/// effect.
pub proof fn lemma_escape_then_line(p: AnsiState, line: Seq<char>)
    requires
        wf_state(p),
    ensures
        line_effect(plain(), escape_text(p) + line) == line_effect(p, line),
{
    let codes = sgr_codes(p);
    if codes.len() == 0 {
        assert(p == plain());
        assert(escape_text(p) + line =~= line);
    } else {
        let j = join_codes(codes);
        let e = escape_text(p);
        lemma_join_codes_chars(codes);
        assert(is_ascii_chars(e)) by {
            assert forall|i: int| 0 <= i < e.len() implies '\0' <= #[trigger] e[i] <= '\u{7f}' by {
                if 2 <= i < e.len() - 1 {
                    assert(e[i] == j[i - 2]);
                    assert(is_param_char(j[i - 2]));
                }
            }
        }
        lemma_encode_concat(e, line);
        lemma_encode_ascii(e);
        let jb = ascii_bytes(j);
        let lb = encode_utf8(line);
        let b = encode_utf8(e + line);
        assert(ascii_bytes(e) =~= seq![ESC_BYTE, 0x5Bu8] + jb + seq![0x6Du8]);
        assert(b =~= seq![ESC_BYTE, 0x5Bu8] + (jb + (seq![0x6Du8] + lb)));
        let body = b.skip(2);
        assert(body =~= jb + (seq![0x6Du8] + lb));
        assert forall|i: int| 0 <= i < jb.len() implies !is_final_byte(#[trigger] jb[i]) by {
            assert(is_param_char(j[i]));
            assert(jb[i] == j[i] as u8);
        }
        lemma_final_index_append(jb, seq![0x6Du8] + lb);
        assert(final_index(seq![0x6Du8] + lb) == 0);
        assert(final_index(body) == jb.len());
        assert(body[jb.len() as int] == 0x6D);
        assert(body.take(jb.len() as int) =~= jb);
        assert(body.skip(jb.len() + 1 as int) =~= lb);
        lemma_params_of_join(codes);
        assert(jb.len() > 0);
        assert(sgr_params(jb) == codes);
        lemma_codes_restore(p);
        assert(apply_sgr_spec(plain(), codes) == p);
    }
}


// ---------------------------------------------------------------------
// Laws of applying SGR parameters
// ---------------------------------------------------------------------

/// For each field of a state, the value a run of codes sets it to, if any.
struct Overwrite {
    reset: Option<bool>,
    bold: Option<bool>,
    dim: Option<bool>,
    italic: Option<bool>,
    underline: Option<bool>,
    blink: Option<bool>,
    reverse: Option<bool>,
    hidden: Option<bool>,
    strikethrough: Option<bool>,
    fg: Option<Option<Color>>,
    bg: Option<Option<Color>>,
}

spec fn keep() -> Overwrite {
    Overwrite {
        reset: None,
        bold: None,
        dim: None,
        italic: None,
        underline: None,
        blink: None,
        reverse: None,
        hidden: None,
        strikethrough: None,
        fg: None,
        bg: None,
    }
}

spec fn pick<T>(o: Option<T>, v: T) -> T {
    match o {
        Some(x) => x,
        None => v,
    }
}

spec fn later<T>(first: Option<T>, second: Option<T>) -> Option<T> {
    match second {
        Some(x) => Some(x),
        None => first,
    }
}

spec fn overwrite(o: Overwrite, s: AnsiState) -> AnsiState {
    AnsiState {
        reset: pick(o.reset, s.reset),
        bold: pick(o.bold, s.bold),
        dim: pick(o.dim, s.dim),
        italic: pick(o.italic, s.italic),
        underline: pick(o.underline, s.underline),
        blink: pick(o.blink, s.blink),
        reverse: pick(o.reverse, s.reverse),
        hidden: pick(o.hidden, s.hidden),
        strikethrough: pick(o.strikethrough, s.strikethrough),
        fg: pick(o.fg, s.fg),
        bg: pick(o.bg, s.bg),
    }
}

/// `a`, then `b`.
spec fn then(a: Overwrite, b: Overwrite) -> Overwrite {
    Overwrite {
        reset: later(a.reset, b.reset),
        bold: later(a.bold, b.bold),
        dim: later(a.dim, b.dim),
        italic: later(a.italic, b.italic),
        underline: later(a.underline, b.underline),
        blink: later(a.blink, b.blink),
        reverse: later(a.reverse, b.reverse),
        hidden: later(a.hidden, b.hidden),
        strikethrough: later(a.strikethrough, b.strikethrough),
        fg: later(a.fg, b.fg),
        bg: later(a.bg, b.bg),
    }
}

spec fn all_set() -> Overwrite {
    Overwrite {
        reset: Some(false),
        bold: Some(false),
        dim: Some(false),
        italic: Some(false),
        underline: Some(false),
        blink: Some(false),
        reverse: Some(false),
        hidden: Some(false),
        strikethrough: Some(false),
        fg: Some(None),
        bg: Some(None),
    }
}

/// What the code at the head of `p` sets.
spec fn code_overwrite(p: Seq<u8>) -> Overwrite {
    let n = p[0];
    if n == 0 {
        all_set()
    } else if n == 1 {
        Overwrite { bold: Some(true), ..keep() }
    } else if n == 2 {
        Overwrite { dim: Some(true), ..keep() }
    } else if n == 3 {
        Overwrite { italic: Some(true), ..keep() }
    } else if n == 4 {
        Overwrite { underline: Some(true), ..keep() }
    } else if n == 5 {
        Overwrite { blink: Some(true), ..keep() }
    } else if n == 7 {
        Overwrite { reverse: Some(true), ..keep() }
    } else if n == 8 {
        Overwrite { hidden: Some(true), ..keep() }
    } else if n == 9 {
        Overwrite { strikethrough: Some(true), ..keep() }
    } else if n == 22 {
        Overwrite { bold: Some(false), dim: Some(false), ..keep() }
    } else if n == 23 {
        Overwrite { italic: Some(false), ..keep() }
    } else if n == 24 {
        Overwrite { underline: Some(false), ..keep() }
    } else if n == 25 {
        Overwrite { blink: Some(false), ..keep() }
    } else if n == 27 {
        Overwrite { reverse: Some(false), ..keep() }
    } else if n == 28 {
        Overwrite { hidden: Some(false), ..keep() }
    } else if n == 29 {
        Overwrite { strikethrough: Some(false), ..keep() }
    } else if 30 <= n <= 37 || 90 <= n <= 97 {
        Overwrite { fg: Some(Some(Color::Basic(n))), ..keep() }
    } else if 40 <= n <= 47 || 100 <= n <= 107 {
        Overwrite { bg: Some(Some(Color::Basic(n))), ..keep() }
    } else if n == 38 {
        match extended_color(p) {
            Some(c) => Overwrite { fg: Some(Some(c)), ..keep() },
            None => keep(),
        }
    } else if n == 48 {
        match extended_color(p) {
            Some(c) => Overwrite { bg: Some(Some(c)), ..keep() },
            None => keep(),
        }
    } else if n == 39 {
        Overwrite { fg: Some(None), ..keep() }
    } else if n == 49 {
        Overwrite { bg: Some(None), ..keep() }
    } else {
        keep()
    }
}

/// What the codes of `p` set, taken together.
spec fn run_overwrite(p: Seq<u8>) -> Overwrite
    decreases p.len(),
{
    if p.len() == 0 {
        keep()
    } else {
        then(code_overwrite(p), run_overwrite(p.skip(code_len(p) as int)))
    }
}

#[verifier::rlimit(40)]
proof fn lemma_code_is_overwrite(s: AnsiState, p: Seq<u8>)
    requires
        p.len() > 0,
    ensures
        apply_code(s, p) == overwrite(code_overwrite(p), s),
{
    reveal(apply_code);
    let n = p[0];
    let r = overwrite(code_overwrite(p), s);
    if n == 0 {
        assert(r == plain());
    } else if n <= 9 {
    } else if n <= 29 {
    } else if 30 <= n <= 37 || 90 <= n <= 97 {
        assert(r == AnsiState { fg: Some(Color::Basic(n)), ..s });
    } else if 40 <= n <= 47 || 100 <= n <= 107 {
        assert(r == AnsiState { bg: Some(Color::Basic(n)), ..s });
    } else if n == 38 || n == 48 {
    } else {
    }
}

proof fn lemma_run_is_overwrite(s: AnsiState, p: Seq<u8>)
    ensures
        sgr_run(s, p) == overwrite(run_overwrite(p), s),
    decreases p.len(),
{
    reveal(sgr_run);
    if p.len() > 0 {
        let rest = p.skip(code_len(p) as int);
        lemma_code_is_overwrite(s, p);
        lemma_run_is_overwrite(apply_code(s, p), rest);
        let a = code_overwrite(p);
        let b = run_overwrite(rest);
        assert(overwrite(b, overwrite(a, s)) == overwrite(then(a, b), s));
    } else {
        assert(overwrite(keep(), s) == s);
    }
}

/// Applying one parameter list twice leaves the same state as applying it
/// once.
pub proof fn law_sgr_idempotent(s: AnsiState, p: Seq<u8>)
    ensures
        apply_sgr_spec(apply_sgr_spec(s, p), p) == apply_sgr_spec(s, p),
{
    if p.len() > 0 {
        let o = run_overwrite(p);
        lemma_run_is_overwrite(s, p);
        lemma_run_is_overwrite(overwrite(o, s), p);
        assert(overwrite(o, overwrite(o, s)) == overwrite(o, s));
    }
}

/// Whether no extended colour code (38 or 48) is among the last four
/// parameters of `p`, so that no code of `p` takes parameters from what
/// follows it.
pub open spec fn ends_whole(p: Seq<u8>) -> bool {
    forall|i: int| p.len() - 4 <= i < p.len() && 0 <= i ==> #[trigger] p[i] != 38 && p[i] != 48
}

proof fn lemma_run_concat(s: AnsiState, p: Seq<u8>, q: Seq<u8>)
    requires
        ends_whole(p),
    ensures
        sgr_run(s, p + q) == sgr_run(sgr_run(s, p), q),
    decreases p.len(),
{
    reveal(sgr_run);
    if p.len() == 0 {
        assert(p + q =~= q);
    } else {
        let pq = p + q;
        assert(pq[0] == p[0]);
        if p[0] == 38 || p[0] == 48 {
            assert(p.len() >= 5);
            assert(pq[1] == p[1] && pq[2] == p[2] && pq[3] == p[3] && pq[4] == p[4]);
        }
        assert(extended_color(pq) == extended_color(p) || (p[0] != 38 && p[0] != 48));
        assert(code_len(pq) == code_len(p));
        assert(apply_code(s, pq) == apply_code(s, p)) by {
            reveal(apply_code);
        }
        let c = code_len(p) as int;
        assert(c <= p.len());
        assert(pq.skip(c) =~= p.skip(c) + q);
        let rest = p.skip(c);
        assert(ends_whole(rest)) by {
            assert forall|i: int| rest.len() - 4 <= i < rest.len() && 0 <= i implies #[trigger] rest[i]
                != 38 && rest[i] != 48 by {
                assert(rest[i] == p[i + c]);
            }
        }
        lemma_run_concat(apply_code(s, p), rest, q);
    }
}

/// Applying the concatenation of two parameter lists, when no extended
/// colour code of the first takes parameters from the second, leaves the
/// same state as applying the first and then the second.
pub proof fn law_sgr_concat(s: AnsiState, p: Seq<u8>, q: Seq<u8>)
    requires
        p.len() > 0,
        q.len() > 0,
        ends_whole(p),
    ensures
        apply_sgr_spec(s, p + q) == apply_sgr_spec(apply_sgr_spec(s, p), q),
{
    lemma_run_concat(s, p, q);
}

/// Whether scanning `b` never needs a byte after its end: every control
/// sequence that starts in `b` ends in it, and `b` does not end with an
/// escape byte.
pub open spec fn scan_complete(b: Seq<u8>) -> bool
    decreases b.len(),
{
    if b.len() == 0 {
        true
    } else if b.len() == 1 && b[0] == ESC_BYTE {
        false
    } else if b.len() >= 2 && b[0] == ESC_BYTE && b[1] == 0x5B {
        let body = b.skip(2);
        let j = final_index(body);
        j < body.len() && scan_complete(body.skip(j + 1 as int))
    } else {
        scan_complete(b.skip(1))
    }
}

proof fn lemma_final_index_prefix(a: Seq<u8>, b: Seq<u8>)
    requires
        final_index(a) < a.len(),
    ensures
        final_index(a + b) == final_index(a),
    decreases a.len(),
{
    if !is_final_byte(a[0]) {
        assert((a + b).skip(1) =~= a.skip(1) + b);
        lemma_final_index_prefix(a.skip(1), b);
    }
}

proof fn lemma_scan_concat(s: AnsiState, x: Seq<u8>, y: Seq<u8>)
    requires
        scan_complete(x),
    ensures
        scan_sgr(s, x + y) == scan_sgr(scan_sgr(s, x), y),
    decreases x.len(),
{
    let xy = x + y;
    if x.len() == 0 {
        assert(xy =~= y);
    } else if x.len() >= 2 && x[0] == ESC_BYTE && x[1] == 0x5B {
        assert(xy[0] == x[0] && xy[1] == x[1]);
        let body = x.skip(2);
        assert(xy.skip(2) =~= body + y);
        let j = final_index(body);
        lemma_final_index_prefix(body, y);
        assert((body + y)[j as int] == body[j as int]);
        assert((body + y).take(j as int) =~= body.take(j as int));
        assert((body + y).skip(j + 1 as int) =~= body.skip(j + 1 as int) + y);
        let s2 = if body[j as int] == 0x6D {
            apply_sgr_spec(s, sgr_params(body.take(j as int)))
        } else {
            s
        };
        lemma_scan_concat(s2, body.skip(j + 1 as int), y);
    } else {
        assert(xy[0] == x[0]);
        if x.len() >= 2 {
            assert(xy[1] == x[1]);
        }
        assert(xy.skip(1) =~= x.skip(1) + y);
        lemma_scan_concat(s, x.skip(1), y);
    }
}

/// Writing `a` and then `b` leaves the same state as writing their
/// concatenation, when no control sequence of `a` runs on into `b`.
pub proof fn law_line_effect_concat(s: AnsiState, a: Seq<char>, b: Seq<char>)
    requires
        scan_complete(encode_utf8(a)),
    ensures
        line_effect(s, a + b) == line_effect(line_effect(s, a), b),
{
    lemma_encode_concat(a, b);
    lemma_scan_concat(s, encode_utf8(a), encode_utf8(b));
}

/// An SGR sequence with the single code `n` changes only what `n` names:
/// 0 resets everything; 1-9 set one attribute and 22-29 clear it (22 both
/// bold and dim); 30-37 and 90-97 set the foreground and 39 clears it;
/// 40-47 and 100-107 set the background and 49 clears it. Every other field
/// keeps its value, and any other code changes nothing.
pub proof fn law_single_code_changes_only_what_it_names(s: AnsiState, n: u8)
    ensures
        ({
            let t = apply_sgr_spec(s, seq![n]);
            &&& n == 0 ==> t == plain()
            &&& n != 0 ==> t.reset == s.reset
            &&& n == 1 ==> t.bold
            &&& n == 22 ==> !t.bold && !t.dim
            &&& (n != 0 && n != 1 && n != 22) ==> t.bold == s.bold
            &&& n == 2 ==> t.dim
            &&& (n != 0 && n != 2 && n != 22) ==> t.dim == s.dim
            &&& n == 3 ==> t.italic
            &&& n == 23 ==> !t.italic
            &&& (n != 0 && n != 3 && n != 23) ==> t.italic == s.italic
            &&& n == 4 ==> t.underline
            &&& n == 24 ==> !t.underline
            &&& (n != 0 && n != 4 && n != 24) ==> t.underline == s.underline
            &&& n == 5 ==> t.blink
            &&& n == 25 ==> !t.blink
            &&& (n != 0 && n != 5 && n != 25) ==> t.blink == s.blink
            &&& n == 7 ==> t.reverse
            &&& n == 27 ==> !t.reverse
            &&& (n != 0 && n != 7 && n != 27) ==> t.reverse == s.reverse
            &&& n == 8 ==> t.hidden
            &&& n == 28 ==> !t.hidden
            &&& (n != 0 && n != 8 && n != 28) ==> t.hidden == s.hidden
            &&& n == 9 ==> t.strikethrough
            &&& n == 29 ==> !t.strikethrough
            &&& (n != 0 && n != 9 && n != 29) ==> t.strikethrough == s.strikethrough
            &&& ((30 <= n <= 37) || (90 <= n <= 97)) ==> t.fg == Some(Color::Basic(n))
            &&& n == 39 ==> t.fg is None
            &&& (n != 0 && n != 39 && !(30 <= n <= 37) && !(90 <= n <= 97)) ==> t.fg == s.fg
            &&& ((40 <= n <= 47) || (100 <= n <= 107)) ==> t.bg == Some(Color::Basic(n))
            &&& n == 49 ==> t.bg is None
            &&& (n != 0 && n != 49 && !(40 <= n <= 47) && !(100 <= n <= 107)) ==> t.bg == s.bg
        }),
{
    let p = seq![n];
    reveal(sgr_run);
    reveal(apply_code);
    assert(code_len(p) == 1);
    assert(p.skip(1) =~= Seq::<u8>::empty());
    assert(sgr_run(apply_code(s, p), p.skip(1)) == apply_code(s, p));
}

/// An extended colour sequence (`38;5;N`, `38;2;R;G;B` and their `48`
/// forms) sets the foreground (or background) to that colour and changes
/// nothing else.
pub proof fn law_extended_color_changes_only_its_layer(s: AnsiState, k: u8, r: u8, g: u8, b: u8)
    ensures
        apply_sgr_spec(s, seq![38u8, 5, k]) == (AnsiState { fg: Some(Color::Palette(k)), ..s }),
        apply_sgr_spec(s, seq![48u8, 5, k]) == (AnsiState { bg: Some(Color::Palette(k)), ..s }),
        apply_sgr_spec(s, seq![38u8, 2, r, g, b]) == (AnsiState { fg: Some(Color::Rgb(r, g, b)), ..s }),
        apply_sgr_spec(s, seq![48u8, 2, r, g, b]) == (AnsiState { bg: Some(Color::Rgb(r, g, b)), ..s }),
{
    reveal(sgr_run);
    reveal(apply_code);
    let p1 = seq![38u8, 5, k];
    let p2 = seq![48u8, 5, k];
    let p3 = seq![38u8, 2, r, g, b];
    let p4 = seq![48u8, 2, r, g, b];
    assert(code_len(p1) == 3 && code_len(p2) == 3);
    assert(code_len(p3) == 5 && code_len(p4) == 5);
    assert(p1.skip(3) =~= Seq::<u8>::empty());
    assert(p2.skip(3) =~= Seq::<u8>::empty());
    assert(p3.skip(5) =~= Seq::<u8>::empty());
    assert(p4.skip(5) =~= Seq::<u8>::empty());
    assert(sgr_run(apply_code(s, p1), p1.skip(3)) == apply_code(s, p1));
    assert(sgr_run(apply_code(s, p2), p2.skip(3)) == apply_code(s, p2));
    assert(sgr_run(apply_code(s, p3), p3.skip(5)) == apply_code(s, p3));
    assert(sgr_run(apply_code(s, p4), p4.skip(5)) == apply_code(s, p4));
}

} // verus!
