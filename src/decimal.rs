//! Decimal text for machine integers, with zero padding to a width.
use crate::base_change::int_string;
use crate::digits::val_to_digit;
use crate::text::{push_char, push_chars};
use vstd::prelude::*;

verus! {

/// `n` in decimal.
pub open spec fn decimal(n: nat) -> Seq<char> {
    int_string(n, 10)
}

/// `s` with `fill` in front up to `width` characters.
pub open spec fn pad_with(s: Seq<char>, width: nat, fill: char) -> Seq<char> {
    if s.len() >= width {
        s
    } else {
        Seq::new((width - s.len()) as nat, |_i: int| fill) + s
    }
}

/// `s` with `0`s in front up to `width` characters.
pub open spec fn zero_pad(s: Seq<char>, width: nat) -> Seq<char> {
    pad_with(s, width, '0')
}

/// `n` in decimal, zero padded to `width` with the sign counted in the width.
pub open spec fn signed_decimal(n: int, width: nat) -> Seq<char> {
    if n < 0 {
        seq!['-'] + zero_pad(decimal((-n) as nat), if width > 0 {
            (width - 1) as nat
        } else {
            0
        })
    } else {
        zero_pad(decimal(n as nat), width)
    }
}

/// The decimal digits of `n`, most significant first.
fn decimal_chars(n: u64) -> (r: Vec<char>)
    ensures
        r@ == decimal(n as nat),
{
    let mut digits: Vec<char> = Vec::new();
    if n == 0 {
        digits.push('0');
        assert(digits@ =~= seq!['0']);
        return digits;
    }
    let mut m = n;
    assert(crate::base_change::radix_digits(m as nat, 10) + digits@ =~= crate::base_change::radix_digits(n as nat, 10));
    while m > 0
        invariant
            crate::base_change::radix_digits(m as nat, 10) + digits@
                == crate::base_change::radix_digits(n as nat, 10),
        decreases m,
    {
        let d = m % 10;
        let ghost before = m as nat;
        m = m / 10;
        let ghost tail = digits@;
        digits.insert(0, val_to_digit(d as u8));
        assert(crate::base_change::radix_digits(m as nat, 10) + digits@ =~= crate::base_change::radix_digits(before, 10) + tail);
    }
    assert(crate::base_change::radix_digits(0, 10) =~= Seq::<char>::empty());
    assert(digits@ =~= crate::base_change::radix_digits(n as nat, 10));
    digits
}

/// Appends `n` in decimal, zero padded to `width`.
pub(crate) fn push_decimal(out: &mut String, n: u64, width: usize)
    ensures
        final(out)@ == old(out)@ + zero_pad(decimal(n as nat), width as nat),
{
    push_padded(out, n, width, '0');
}

/// Appends `n` in decimal, padded with `fill` in front to `width`.
pub(crate) fn push_padded(out: &mut String, n: u64, width: usize, fill: char)
    ensures
        final(out)@ == old(out)@ + pad_with(decimal(n as nat), width as nat, fill),
{
    let digits = decimal_chars(n);
    let mut k: usize = digits.len();
    let ghost start = out@;
    while k < width
        invariant
            digits@.len() <= k <= width || (k == digits@.len() && k >= width),
            out@ == start + Seq::new((k - digits@.len()) as nat, |_i: int| fill),
        decreases width - k,
    {
        push_char(out, fill);
        assert(out@ =~= start + Seq::new((k + 1 - digits@.len()) as nat, |_i: int| fill));
        k += 1;
    }
    push_chars(out, &digits);
    if digits.len() >= width {
        assert(out@ =~= start + pad_with(decimal(n as nat), width as nat, fill));
    } else {
        assert(out@ =~= start + pad_with(decimal(n as nat), width as nat, fill));
    }
}

/// Appends `n` in decimal, zero padded to `width` with the sign counted in it.
pub(crate) fn push_signed(out: &mut String, n: i64, width: usize)
    ensures
        final(out)@ == old(out)@ + signed_decimal(n as int, width as nat),
{
    if n < 0 {
        let ghost start = out@;
        push_char(out, '-');
        let magnitude: u64 = if n == i64::MIN {
            9223372036854775808u64
        } else {
            (-n) as u64
        };
        push_decimal(out, magnitude, if width > 0 { width - 1 } else { 0 });
        assert(out@ =~= start + signed_decimal(n as int, width as nat));
    } else {
        push_decimal(out, n as u64, width);
    }
}

} // verus!
