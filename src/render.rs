//! Rendering one line of up to sixteen bytes in each display mode.
use vstd::prelude::*;

use crate::ascii::{ascii_of, push_ascii, string_from_chars};
use crate::digits::{
    is_digit, lemma_padded_reads_back, padded, push_padded, push_repeat, repeat_char, value_of,
};
use crate::error::HdError;

verus! {

/// Number of bytes on one full line.
pub const READ_LEN: usize = 16;

/// The textual layout applied to every line of a dump.
#[derive(Clone, Copy, Debug, PartialEq, Eq, Structural)]
pub enum DisplayMode {
    /// Two-byte hexadecimal groups separated by one space.
    Default,
    /// Hex bytes beside a printable-ASCII column.
    Canonical,
    /// One three-digit octal group per byte.
    OneByteOctal,
    /// One character field per byte, with C-style escapes.
    OneByteChar,
    /// Two-byte little-endian values in five-digit decimal.
    TwoByteDec,
    /// Two-byte little-endian values in six-digit octal.
    TwoByteOctal,
    /// Two-byte hexadecimal groups separated by four spaces.
    TwoByteHex,
}

/// The options of one dump: one flag per display mode, and whether
/// repeated lines are printed rather than collapsed.
#[derive(Clone, Copy, Debug, PartialEq, Eq, Structural)]
pub struct HdOptions {
    pub canonical: bool,
    pub one_byte_char: bool,
    pub one_byte_octal: bool,
    pub no_squeezing: bool,
    pub two_bytes_dec: bool,
    pub two_bytes_octal: bool,
    pub two_bytes_hex: bool,
}

impl HdOptions {
    /// The mode that the flags select; where several are set, the first of
    /// canonical, two-byte hex, one-byte octal, two-byte octal, two-byte
    /// decimal and one-byte character wins.
    pub open spec fn spec_mode(&self) -> DisplayMode {
        if self.canonical {
            DisplayMode::Canonical
        } else if self.two_bytes_hex {
            DisplayMode::TwoByteHex
        } else if self.one_byte_octal {
            DisplayMode::OneByteOctal
        } else if self.two_bytes_octal {
            DisplayMode::TwoByteOctal
        } else if self.two_bytes_dec {
            DisplayMode::TwoByteDec
        } else if self.one_byte_char {
            DisplayMode::OneByteChar
        } else {
            DisplayMode::Default
        }
    }

    pub fn mode(&self) -> (m: DisplayMode)
        ensures
            m == self.spec_mode(),
    {
        if self.canonical {
            DisplayMode::Canonical
        } else if self.two_bytes_hex {
            DisplayMode::TwoByteHex
        } else if self.one_byte_octal {
            DisplayMode::OneByteOctal
        } else if self.two_bytes_octal {
            DisplayMode::TwoByteOctal
        } else if self.two_bytes_dec {
            DisplayMode::TwoByteDec
        } else if self.one_byte_char {
            DisplayMode::OneByteChar
        } else {
            DisplayMode::Default
        }
    }
}

pub open spec fn spaces(n: nat) -> Seq<char> {
    repeat_char(' ', n)
}

/// Whether the mode groups bytes in little-endian pairs.
pub open spec fn is_pair_mode(mode: DisplayMode) -> bool {
    match mode {
        DisplayMode::Default | DisplayMode::TwoByteDec | DisplayMode::TwoByteOctal
        | DisplayMode::TwoByteHex => true,
        _ => false,
    }
}

/// The number of column slots on a line: one per pair or one per byte.
pub open spec fn n_cells(mode: DisplayMode) -> nat {
    if is_pair_mode(mode) {
        8
    } else {
        16
    }
}

/// The letter of the C escape for `b`, where it has one.
pub open spec fn escape_letter(b: u8) -> Option<char> {
    if b == 0 {
        Some('0')
    } else if b == 7 {
        Some('a')
    } else if b == 8 {
        Some('b')
    } else if b == 9 {
        Some('t')
    } else if b == 10 {
        Some('n')
    } else if b == 11 {
        Some('v')
    } else if b == 12 {
        Some('f')
    } else if b == 13 {
        Some('r')
    } else {
        None
    }
}

/// The four-character field of the one-byte character display: a C escape,
/// the printable character itself, or three octal digits.
pub open spec fn char_field(b: u8) -> Seq<char> {
    if escape_letter(b) is Some {
        spaces(2) + seq!['\\', escape_letter(b)->0]
    } else if 0x20 <= b <= 0x7e {
        spaces(3) + seq![b as char]
    } else {
        spaces(1) + padded(b as nat, 8, 3)
    }
}

/// The 16-bit value of a pair whose lower-addressed byte is `lo`.
pub open spec fn pair_value(lo: u8, hi: u8) -> nat {
    hi as nat * 256 + lo as nat
}

/// The text of a present pair, its separator included.
pub open spec fn pair_cell(mode: DisplayMode, lo: u8, hi: u8) -> Seq<char> {
    match mode {
        DisplayMode::TwoByteHex => spaces(4) + padded(hi as nat, 16, 2) + padded(lo as nat, 16, 2),
        DisplayMode::TwoByteOctal => spaces(2) + padded(pair_value(lo, hi), 8, 6),
        DisplayMode::TwoByteDec => spaces(3) + padded(pair_value(lo, hi), 10, 5),
        _ => spaces(1) + padded(hi as nat, 16, 2) + padded(lo as nat, 16, 2),
    }
}

/// The width of a present pair's text.
pub open spec fn pair_width(mode: DisplayMode) -> nat {
    match mode {
        DisplayMode::Default => 5,
        _ => 8,
    }
}

/// Column slot `k` of the line `c`. An absent byte or pair is blank of the
/// width it would have had, one wider at byte slot 8; the character display
/// leaves absent bytes out.
pub open spec fn cell(c: Seq<u8>, mode: DisplayMode, k: int) -> Seq<char> {
    match mode {
        DisplayMode::Canonical => if k < c.len() {
            spaces(if k == 8 { 2 } else { 1 }) + padded(c[k] as nat, 16, 2)
        } else {
            spaces(if k == 8 { 4 } else { 3 })
        },
        DisplayMode::OneByteOctal => if k < c.len() {
            spaces(1) + padded(c[k] as nat, 8, 3)
        } else {
            spaces(if k == 8 { 5 } else { 4 })
        },
        DisplayMode::OneByteChar => if k < c.len() {
            char_field(c[k])
        } else {
            Seq::empty()
        },
        _ => if 2 * k + 1 < c.len() {
            pair_cell(mode, c[2 * k], c[2 * k + 1])
        } else {
            spaces(pair_width(mode) + if k == 4 { 1nat } else { 0nat })
        },
    }
}

/// The first `k` column slots of the line `c`.
pub open spec fn cells(c: Seq<u8>, mode: DisplayMode, k: nat) -> Seq<char>
    decreases k,
{
    if k == 0 {
        Seq::empty()
    } else {
        cells(c, mode, (k - 1) as nat) + cell(c, mode, k - 1)
    }
}

/// The least number of digits in the address column.
pub open spec fn address_width(mode: DisplayMode) -> nat {
    if mode == DisplayMode::Canonical {
        8
    } else {
        7
    }
}

/// The address column: the address in hexadecimal, zero-padded to eight
/// digits in the canonical display and to seven in the others.
pub open spec fn address_field(address: nat, mode: DisplayMode) -> Seq<char> {
    padded(address, 16, address_width(mode))
}

/// The text of the line `c` that starts at `address`. An empty line shows
/// the address alone (followed by one space in the canonical display).
pub open spec fn render(c: Seq<u8>, address: nat, mode: DisplayMode) -> Seq<char> {
    if mode == DisplayMode::Canonical {
        address_field(address, mode) + spaces(1) + if c.len() == 0 {
            Seq::empty()
        } else {
            cells(c, mode, 16) + seq![' ', ' ', '|'] + ascii_of(c) + seq!['|']
        }
    } else {
        address_field(address, mode) + if c.len() == 0 {
            Seq::empty()
        } else {
            cells(c, mode, n_cells(mode))
        }
    }
}

fn escape_of(b: u8) -> (r: Option<char>)
    ensures
        r == escape_letter(b),
{
    if b == 0 {
        Some('0')
    } else if b == 7 {
        Some('a')
    } else if b == 8 {
        Some('b')
    } else if b == 9 {
        Some('t')
    } else if b == 10 {
        Some('n')
    } else if b == 11 {
        Some('v')
    } else if b == 12 {
        Some('f')
    } else if b == 13 {
        Some('r')
    } else {
        None
    }
}

fn push_char_field(out: &mut Vec<char>, b: u8)
    ensures
        final(out)@ == old(out)@ + char_field(b),
{
    let ghost start = out@;
    match escape_of(b) {
        Some(letter) => {
            push_repeat(out, ' ', 2);
            out.push('\\');
            out.push(letter);
        },
        None => {
            if 0x20 <= b && b <= 0x7e {
                push_repeat(out, ' ', 3);
                out.push(b as char);
            } else {
                push_repeat(out, ' ', 1);
                push_padded(out, b as usize, 8, 3);
            }
        },
    }
    assert(out@ =~= start + char_field(b));
}

/// Returns `new_line` followed by the one-byte character field of
/// `line[i]`: two spaces and a C escape for 0 and 7 through 13, three
/// spaces and the character for printable bytes, otherwise one space and
/// three octal digits.
pub fn format_one_byte_char(new_line: &String, line: &[u8], i: usize) -> (fmt_line: String)
    requires
        i < line@.len(),
    ensures
        fmt_line@ == new_line@ + char_field(line@[i as int]),
{
    let mut field: Vec<char> = Vec::new();
    push_char_field(&mut field, line[i]);
    assert(field@ =~= char_field(line@[i as int]));
    let field = string_from_chars(&field);
    let mut fmt_line = new_line.clone();
    fmt_line.append(field.as_str());
    fmt_line
}

fn push_pair_cell(out: &mut Vec<char>, mode: DisplayMode, lo: u8, hi: u8)
    requires
        is_pair_mode(mode),
    ensures
        final(out)@ == old(out)@ + pair_cell(mode, lo, hi),
{
    let ghost start = out@;
    let value = (hi as usize) * 256 + lo as usize;
    match mode {
        DisplayMode::TwoByteHex => {
            push_repeat(out, ' ', 4);
            push_padded(out, hi as usize, 16, 2);
            push_padded(out, lo as usize, 16, 2);
        },
        DisplayMode::TwoByteOctal => {
            push_repeat(out, ' ', 2);
            push_padded(out, value, 8, 6);
        },
        DisplayMode::TwoByteDec => {
            push_repeat(out, ' ', 3);
            push_padded(out, value, 10, 5);
        },
        _ => {
            push_repeat(out, ' ', 1);
            push_padded(out, hi as usize, 16, 2);
            push_padded(out, lo as usize, 16, 2);
        },
    }
    assert(out@ =~= start + pair_cell(mode, lo, hi));
}

fn push_cell(out: &mut Vec<char>, line: &[u8], mode: DisplayMode, k: usize)
    requires
        k < n_cells(mode),
    ensures
        final(out)@ == old(out)@ + cell(line@, mode, k as int),
{
    let ghost start = out@;
    match mode {
        DisplayMode::Canonical => {
            if k < line.len() {
                push_repeat(out, ' ', if k == 8 { 2 } else { 1 });
                push_padded(out, line[k] as usize, 16, 2);
            } else {
                push_repeat(out, ' ', if k == 8 { 4 } else { 3 });
            }
        },
        DisplayMode::OneByteOctal => {
            if k < line.len() {
                push_repeat(out, ' ', 1);
                push_padded(out, line[k] as usize, 8, 3);
            } else {
                push_repeat(out, ' ', if k == 8 { 5 } else { 4 });
            }
        },
        DisplayMode::OneByteChar => {
            if k < line.len() {
                push_char_field(out, line[k]);
            }
        },
        _ => {
            if 2 * k + 1 < line.len() {
                push_pair_cell(out, mode, line[2 * k], line[2 * k + 1]);
            } else {
                let width: usize = if mode == DisplayMode::Default { 5 } else { 8 };
                push_repeat(out, ' ', if k == 4 { width + 1 } else { width });
            }
        },
    }
    assert(out@ =~= start + cell(line@, mode, k as int));
}

/// Appends the column slots of `line` in `mode`.
fn push_cells(out: &mut Vec<char>, line: &[u8], mode: DisplayMode)
    ensures
        final(out)@ == old(out)@ + cells(line@, mode, n_cells(mode)),
{
    let ghost start = out@;
    let n: usize = match mode {
        DisplayMode::Canonical | DisplayMode::OneByteOctal | DisplayMode::OneByteChar => 16,
        _ => 8,
    };
    let mut k: usize = 0;
    while k < n
        invariant
            n == n_cells(mode),
            k <= n,
            out@ =~= start + cells(line@, mode, k as nat),
        decreases n - k,
    {
        push_cell(out, line, mode, k);
        k += 1;
    }
}

/// Renders `line`, which starts at `address`, in `mode`. A line longer
/// than sixteen bytes is refused with `FormatError`.
pub fn render_line(line: &[u8], address: usize, mode: DisplayMode) -> (r: Result<String, HdError>)
    ensures
        line@.len() <= READ_LEN ==> (r matches Ok(s) && s@ == render(line@, address as nat, mode)),
        line@.len() > READ_LEN ==> r == Err::<String, HdError>(HdError::FormatError),
{
    if line.len() > READ_LEN {
        return Err(HdError::FormatError);
    }
    let mut out: Vec<char> = Vec::new();
    if mode == DisplayMode::Canonical {
        push_padded(&mut out, address, 16, 8);
        out.push(' ');
        if line.len() > 0 {
            push_cells(&mut out, line, mode);
            push_repeat(&mut out, ' ', 2);
            out.push('|');
            push_ascii(&mut out, line);
            out.push('|');
        }
    } else {
        push_padded(&mut out, address, 16, 7);
        if line.len() > 0 {
            push_cells(&mut out, line, mode);
        }
    }
    assert(out@ =~= render(line@, address as nat, mode));
    Ok(string_from_chars(&out))
}

proof fn lemma_first_cell_blank_led(c: Seq<u8>, mode: DisplayMode)
    requires
        c.len() > 0,
    ensures
        cell(c, mode, 0).len() > 0,
        cell(c, mode, 0)[0] == ' ',
{
    match mode {
        DisplayMode::Canonical => {
            assert(cell(c, mode, 0)[0] == spaces(1)[0]);
        },
        DisplayMode::OneByteOctal => {
            assert(cell(c, mode, 0)[0] == spaces(1)[0]);
        },
        DisplayMode::OneByteChar => {
            let b = c[0];
            if escape_letter(b) is Some {
                assert(char_field(b)[0] == spaces(2)[0]);
            } else if 0x20 <= b <= 0x7e {
                assert(char_field(b)[0] == spaces(3)[0]);
            } else {
                assert(char_field(b)[0] == spaces(1)[0]);
            }
        },
        _ => {
            if 1 < c.len() {
                let p = pair_cell(mode, c[0], c[1]);
                match mode {
                    DisplayMode::TwoByteHex => assert(p[0] == spaces(4)[0]),
                    DisplayMode::TwoByteOctal => assert(p[0] == spaces(2)[0]),
                    DisplayMode::TwoByteDec => assert(p[0] == spaces(3)[0]),
                    _ => assert(p[0] == spaces(1)[0]),
                }
            }
        },
    }
}

proof fn lemma_cells_start(c: Seq<u8>, mode: DisplayMode, k: nat)
    requires
        k >= 1,
        cell(c, mode, 0).len() > 0,
    ensures
        cells(c, mode, k).len() > 0,
        cells(c, mode, k)[0] == cell(c, mode, 0)[0],
    decreases k,
{
    if k == 1 {
        assert(cells(c, mode, 0) == Seq::<char>::empty());
        assert(cells(c, mode, 1) =~= cell(c, mode, 0));
    } else {
        lemma_cells_start(c, mode, (k - 1) as nat);
    }
}

/// Every rendered line starts with its address in hexadecimal: zero-padded
/// to at least eight digits in the canonical display and seven in the
/// others, reading back as `address`, and followed by a space or by nothing.
pub proof fn law_address_column(c: Seq<u8>, address: nat, mode: DisplayMode)
    ensures
        address_field(address, mode).len() >= address_width(mode),
        render(c, address, mode).len() >= address_field(address, mode).len(),
        render(c, address, mode).subrange(0, address_field(address, mode).len() as int)
            == address_field(address, mode),
        forall|i: int| 0 <= i < address_field(address, mode).len()
            ==> is_digit(#[trigger] address_field(address, mode)[i], 16),
        value_of(address_field(address, mode), 16) == address,
        render(c, address, mode).len() == address_field(address, mode).len()
            || render(c, address, mode)[address_field(address, mode).len() as int] == ' ',
{
    lemma_padded_reads_back(address, 16, address_width(mode));
    let field = address_field(address, mode);
    let line = render(c, address, mode);
    let rest = line.subrange(field.len() as int, line.len() as int);
    assert(line =~= field + rest);
    if c.len() > 0 {
        lemma_first_cell_blank_led(c, mode);
        lemma_cells_start(c, mode, n_cells(mode));
        assert(rest[0] == ' ');
    } else if mode == DisplayMode::Canonical {
        assert(rest =~= spaces(1));
    }
}

/// Rendering is a function of the line, its address and the mode alone:
/// two renderings of the same three give the same text.
pub proof fn law_render_repeatable(c: Seq<u8>, address: nat, mode: DisplayMode, first: Seq<char>, second: Seq<char>)
    requires
        first == render(c, address, mode),
        second == render(c, address, mode),
    ensures
        first == second,
{
}

} // verus!
