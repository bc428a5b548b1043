//! The digit alphabet `0-9`, `A-Z`, `a-z`, which gives the values 0 to 61.
use crate::base_change::BaseConversionError;
use vstd::prelude::*;

verus! {

/// Whether `c` belongs to the digit alphabet.
pub open spec fn is_digit_char(c: char) -> bool {
    ('0' <= c && c <= '9') || ('A' <= c && c <= 'Z') || ('a' <= c && c <= 'z')
}

/// The value of a character of the alphabet.
pub open spec fn char_value(c: char) -> nat
    recommends
        is_digit_char(c),
{
    if '0' <= c && c <= '9' {
        (c as nat - '0' as nat) as nat
    } else if 'A' <= c && c <= 'Z' {
        (c as nat - 'A' as nat + 10) as nat
    } else {
        (c as nat - 'a' as nat + 36) as nat
    }
}

/// The character of the alphabet that stands for `v`.
pub open spec fn value_char(v: nat) -> char
    recommends
        v < 62,
{
    if v < 10 {
        (v + '0' as nat) as char
    } else if v < 36 {
        (v - 10 + 'A' as nat) as char
    } else {
        (v - 36 + 'a' as nat) as char
    }
}

/// Whether `c` is a digit of the alphabet whose value is below `radix`.
pub open spec fn is_digit_below(c: char, radix: nat) -> bool {
    is_digit_char(c) && char_value(c) < radix
}

pub proof fn lemma_value_char_round_trip(v: nat)
    requires
        v < 62,
    ensures
        is_digit_char(value_char(v)),
        char_value(value_char(v)) == v,
{
}

pub proof fn lemma_char_value_round_trip(c: char)
    requires
        is_digit_char(c),
    ensures
        char_value(c) < 62,
        value_char(char_value(c)) == c,
{
}

/// Maps a byte of the alphabet to its value; any other byte is an invalid digit.
/// Bytes 48, 65 and 97 are `0`, `A` and `a`.
pub fn digit_to_val(c: u8) -> (r: Result<u8, BaseConversionError>)
    ensures
        match r {
            Ok(v) => is_digit_char(c as char) && v as nat == char_value(c as char),
            Err(e) => !is_digit_char(c as char) && e == BaseConversionError::InvalidDigit,
        },
{
    if 48 <= c && c <= 57 {
        Ok(c - 48)
    } else if 65 <= c && c <= 90 {
        Ok(c - 65 + 10)
    } else if 97 <= c && c <= 122 {
        Ok(c - 97 + 36)
    } else {
        Err(BaseConversionError::InvalidDigit)
    }
}

/// The character of the alphabet for a value below 62.
pub fn val_to_digit(v: u8) -> (r: char)
    requires
        v < 62,
    ensures
        r == value_char(v as nat),
{
    if v < 10 {
        (v + 48) as char
    } else if v < 36 {
        (v - 10 + 65) as char
    } else {
        (v - 36 + 97) as char
    }
}

} // verus!
