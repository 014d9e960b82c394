//! Fixed-radix number rendering with zero padding, as used for addresses
//! and byte groups.
use vstd::arithmetic::div_mod::{
    lemma_div_is_ordered_by_denominator, lemma_div_is_strictly_smaller, lemma_fundamental_div_mod,
};
use vstd::prelude::*;

verus! {

/// The character that stands for digit `d` (0..16), lower-case for 10..16.
pub open spec fn digit_char(d: nat) -> char {
    if d < 10 {
        ((48 + d) as u8) as char
    } else {
        ((87 + d) as u8) as char
    }
}

/// The digits of `v` in base `radix`, most significant first, without
/// leading zeros; zero is written as one digit.
pub open spec fn digits(v: nat, radix: nat) -> Seq<char>
    recommends
        2 <= radix <= 16,
    decreases v
    via digits_decreases
{
    if radix < 2 || v < radix {
        seq![digit_char(v)]
    } else {
        digits(v / radix, radix).push(digit_char(v % radix))
    }
}

#[via_fn]
proof fn digits_decreases(v: nat, radix: nat) {
    if !(radix < 2 || v < radix) {
        lemma_div_is_strictly_smaller(v as int, radix as int);
    }
}

/// `v` in base `radix`, left-padded with `'0'` to at least `width` characters.
pub open spec fn padded(v: nat, radix: nat, width: nat) -> Seq<char> {
    let d = digits(v, radix);
    if d.len() >= width {
        d
    } else {
        Seq::new((width - d.len()) as nat, |_i: int| '0') + d
    }
}

/// `n` copies of `c`.
pub open spec fn repeat_char(c: char, n: nat) -> Seq<char> {
    Seq::new(n, |_i: int| c)
}

fn digit_of(d: usize) -> (c: char)
    requires
        d < 16,
    ensures
        c == digit_char(d as nat),
{
    if d < 10 {
        ((48 + d) as u8) as char
    } else {
        ((87 + d) as u8) as char
    }
}

fn count_digits(v: usize, radix: usize) -> (n: usize)
    requires
        2 <= radix <= 16,
    ensures
        n as nat == digits(v as nat, radix as nat).len(),
        n == 1 || n <= v,
    decreases v,
{
    if v < radix {
        1
    } else {
        proof {
            lemma_div_is_strictly_smaller(v as int, radix as int);
            lemma_div_is_ordered_by_denominator(v as int, 2, radix as int);
        }
        let m = count_digits(v / radix, radix);
        m + 1
    }
}

/// Appends the digits of `v` in base `radix`.
fn push_digits(out: &mut Vec<char>, v: usize, radix: usize)
    requires
        2 <= radix <= 16,
    ensures
        final(out)@ == old(out)@ + digits(v as nat, radix as nat),
    decreases v,
{
    if v < radix {
        out.push(digit_of(v));
    } else {
        proof {
            lemma_div_is_strictly_smaller(v as int, radix as int);
        }
        push_digits(out, v / radix, radix);
        out.push(digit_of(v % radix));
        assert(final(out)@ =~= old(out)@ + digits(v as nat, radix as nat));
    }
}

/// Appends `n` copies of `c`.
pub fn push_repeat(out: &mut Vec<char>, c: char, n: usize)
    ensures
        final(out)@ == old(out)@ + repeat_char(c, n as nat),
{
    let ghost start = out@;
    let mut i: usize = 0;
    while i < n
        invariant
            i <= n,
            out@ =~= start + repeat_char(c, i as nat),
        decreases n - i,
    {
        out.push(c);
        i += 1;
    }
}

/// Appends `v` in base `radix`, zero-padded to at least `width` characters.
pub fn push_padded(out: &mut Vec<char>, v: usize, radix: usize, width: usize)
    requires
        2 <= radix <= 16,
    ensures
        final(out)@ == old(out)@ + padded(v as nat, radix as nat, width as nat),
{
    let n = count_digits(v, radix);
    if n < width {
        push_repeat(out, '0', width - n);
    }
    push_digits(out, v, radix);
    assert(final(out)@ =~= old(out)@ + padded(v as nat, radix as nat, width as nat));
}

/// The value of the digit character `c`; zero for a character that is no
/// digit.
pub open spec fn digit_value(c: char) -> nat {
    if '0' <= c <= '9' {
        (c as u32 - 48) as nat
    } else if 'a' <= c <= 'f' {
        (c as u32 - 87) as nat
    } else {
        0
    }
}

/// Whether `c` is one of the digit characters of base `radix`.
pub open spec fn is_digit(c: char, radix: nat) -> bool {
    exists|d: nat| d < radix && c == digit_char(d)
}

/// The number that the digits `s` stand for in base `radix`.
pub open spec fn value_of(s: Seq<char>, radix: nat) -> nat
    decreases s.len(),
{
    if s.len() == 0 {
        0
    } else {
        value_of(s.drop_last(), radix) * radix + digit_value(s.last())
    }
}

proof fn lemma_digit_round_trip(d: nat)
    requires
        d < 16,
    ensures
        digit_value(digit_char(d)) == d,
{
}

proof fn lemma_digits_value(v: nat, radix: nat)
    requires
        2 <= radix <= 16,
    ensures
        value_of(digits(v, radix), radix) == v,
        forall|i: int| 0 <= i < digits(v, radix).len() ==> is_digit(#[trigger] digits(v, radix)[i], radix),
    decreases v,
{
    if v < radix {
        lemma_digit_round_trip(v);
        assert(digits(v, radix).drop_last() =~= Seq::empty());
        assert(is_digit(digits(v, radix)[0], radix));
        assert(value_of(Seq::empty(), radix) == 0);
        assert(value_of(digits(v, radix), radix) == 0 * radix + v);
    } else {
        lemma_div_is_strictly_smaller(v as int, radix as int);
        lemma_digits_value(v / radix, radix);
        let r = v % radix;
        lemma_digit_round_trip(r);
        assert(digits(v, radix).drop_last() =~= digits(v / radix, radix));
        assert(v == (v / radix) * radix + r) by {
            lemma_fundamental_div_mod(v as int, radix as int);
        }
        assert(value_of(digits(v, radix), radix) == value_of(digits(v / radix, radix), radix) * radix + r);
        assert forall|i: int| 0 <= i < digits(v, radix).len() implies is_digit(
            #[trigger] digits(v, radix)[i],
            radix,
        ) by {
            if i < digits(v, radix).len() - 1 {
                assert(digits(v, radix)[i] == digits(v / radix, radix)[i]);
            } else {
                assert(digits(v, radix)[i] == digit_char(r));
            }
        }
    }
}

proof fn lemma_zeros_value(n: nat, radix: nat)
    ensures
        value_of(repeat_char('0', n), radix) == 0,
    decreases n,
{
    assert(digit_value('0') == 0);
    if n > 0 {
        assert(repeat_char('0', n).drop_last() =~= repeat_char('0', (n - 1) as nat));
        lemma_zeros_value((n - 1) as nat, radix);
        assert(repeat_char('0', n).last() == '0');
        assert(0 * radix == 0);
    }
}

proof fn lemma_leading_zeros_value(n: nat, s: Seq<char>, radix: nat)
    ensures
        value_of(repeat_char('0', n) + s, radix) == value_of(s, radix),
    decreases s.len(),
{
    if s.len() == 0 {
        assert(repeat_char('0', n) + s =~= repeat_char('0', n));
        lemma_zeros_value(n, radix);
    } else {
        assert((repeat_char('0', n) + s).drop_last() =~= repeat_char('0', n) + s.drop_last());
        lemma_leading_zeros_value(n, s.drop_last(), radix);
    }
}

/// `padded(v, radix, width)` is at least `width` digits of base `radix`
/// long and reads back as `v`.
pub proof fn lemma_padded_reads_back(v: nat, radix: nat, width: nat)
    requires
        2 <= radix <= 16,
    ensures
        padded(v, radix, width).len() >= width,
        padded(v, radix, width).len() >= 1,
        forall|i: int| 0 <= i < padded(v, radix, width).len() ==> is_digit(#[trigger] padded(v, radix, width)[i], radix),
        value_of(padded(v, radix, width), radix) == v,
{
    lemma_digits_value(v, radix);
    let d = digits(v, radix);
    if d.len() < width {
        lemma_leading_zeros_value((width - d.len()) as nat, d, radix);
        assert(padded(v, radix, width) == repeat_char('0', (width - d.len()) as nat) + d);
        assert forall|i: int| 0 <= i < padded(v, radix, width).len() implies is_digit(
            #[trigger] padded(v, radix, width)[i],
            radix,
        ) by {
            if i < width - d.len() {
                assert(padded(v, radix, width)[i] == digit_char(0));
            } else {
                assert(padded(v, radix, width)[i] == d[i - (width - d.len())]);
            }
        }
    }
}

} // verus!
