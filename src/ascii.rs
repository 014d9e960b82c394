//! The printable-ASCII column of the canonical display.
use vstd::prelude::*;

verus! {

/// How one byte shows in the ASCII column: itself when printable
/// (0x20 through 0x7E), `'.'` otherwise.
pub open spec fn ascii_char(b: u8) -> char {
    if 0x20 <= b <= 0x7e {
        b as char
    } else {
        '.'
    }
}

/// The ASCII column for `bytes`: one character per byte.
pub open spec fn ascii_of(bytes: Seq<u8>) -> Seq<char> {
    Seq::new(bytes.len(), |i: int| ascii_char(bytes[i]))
}

/// Relies on `FromIterator<char> for String` (`collect`): the string holds
/// the given characters, in order.
#[verifier::external_body]
pub(crate) fn string_from_chars(chars: &Vec<char>) -> (s: String)
    ensures
        s@ == chars@,
{
    chars.iter().collect()
}

/// Appends the ASCII column for `raw_line` to `out`.
pub(crate) fn push_ascii(out: &mut Vec<char>, raw_line: &[u8])
    ensures
        final(out)@ == old(out)@ + ascii_of(raw_line@),
{
    let ghost start = out@;
    let mut i: usize = 0;
    while i < raw_line.len()
        invariant
            i <= raw_line@.len(),
            out@ =~= start + ascii_of(raw_line@.take(i as int)),
        decreases raw_line@.len() - i,
    {
        let b = raw_line[i];
        if 0x20 <= b && b <= 0x7e {
            out.push(b as char);
        } else {
            out.push('.');
        }
        i += 1;
        assert(raw_line@.take(i as int) =~= raw_line@.take(i - 1).push(b));
    }
    assert(raw_line@.take(i as int) =~= raw_line@);
}

/// Renders a line of bytes as printable ASCII, one character per byte:
/// printable bytes (0x20 through 0x7E) as themselves, all others as `'.'`.
pub fn convert_to_string(raw_line: &[u8]) -> (conv_line: String)
    ensures
        conv_line@ == ascii_of(raw_line@),
{
    let mut chars: Vec<char> = Vec::new();
    push_ascii(&mut chars, raw_line);
    assert(chars@ =~= ascii_of(raw_line@));
    string_from_chars(&chars)
}

} // verus!
