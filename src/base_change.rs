//! Conversion of digit strings between radices 2 to 62.
//!
//! A string `digits ('.' digits)?` is read in the source radix as one integer,
//! with the count of digits after the `.` kept as its scale, and that pair is
//! written out again in the destination radix.
use crate::biguint::BigUint;
use crate::digits::{
    char_value, digit_to_val, is_digit_below, lemma_char_value_round_trip,
    lemma_value_char_round_trip, val_to_digit, value_char,
};
use crate::text::{chars_of, push_char, push_chars};
use vstd::prelude::*;

verus! {

/// Why a conversion failed.
#[derive(Debug, Clone, Copy, PartialEq, Eq, Structural)]
pub enum BaseConversionError {
    /// A radix outside 2 to 62.
    InvalidBase,
    /// A character outside the alphabet, or a digit not below the radix.
    InvalidDigit,
    /// More than one `.` separator.
    InvalidInput,
}

/// How many `.` separators `s` holds.
pub open spec fn dot_count(s: Seq<char>) -> nat
    decreases s.len(),
{
    if s.len() == 0 {
        0
    } else {
        dot_count(s.drop_last()) + if s.last() == '.' {
            1nat
        } else {
            0nat
        }
    }
}

/// Every character but `.` is a digit below `radix`.
pub open spec fn digits_valid(s: Seq<char>, radix: nat) -> bool {
    forall|i: int| 0 <= i < s.len() && s[i] != '.' ==> is_digit_below(#[trigger] s[i], radix)
}

/// The digits of `s`, `.` skipped, read as one integer in `radix`.
pub open spec fn digits_value(s: Seq<char>, radix: nat) -> nat
    decreases s.len(),
{
    if s.len() == 0 {
        0
    } else if s.last() == '.' {
        digits_value(s.drop_last(), radix)
    } else {
        digits_value(s.drop_last(), radix) * radix + char_value(s.last())
    }
}

/// How many digits follow the `.`; zero without one.
pub open spec fn fraction_len(s: Seq<char>) -> nat
    decreases s.len(),
{
    if s.len() == 0 || s.last() == '.' || dot_count(s.drop_last()) == 0 {
        0
    } else {
        fraction_len(s.drop_last()) + 1
    }
}

/// What reading `s` in `radix` gives: the integer of all its digits and the scale.
pub open spec fn parse_spec(s: Seq<char>, radix: nat) -> Result<(nat, nat), BaseConversionError> {
    if dot_count(s) > 1 {
        Err(BaseConversionError::InvalidInput)
    } else if !digits_valid(s, radix) {
        Err(BaseConversionError::InvalidDigit)
    } else {
        Ok((digits_value(s, radix), fraction_len(s)))
    }
}

/// The digits of `n` in `radix`, most significant first; empty for zero.
pub open spec fn radix_digits(n: nat, radix: nat) -> Seq<char>
    decreases n
        via radix_digits_decreases
{
    if n == 0 || radix < 2 {
        Seq::empty()
    } else {
        radix_digits(n / radix, radix).push(value_char(n % radix))
    }
}

#[via_fn]
proof fn radix_digits_decreases(n: nat, radix: nat) {
    if !(n == 0 || radix < 2) {
        assert(n / radix < n) by (nonlinear_arith)
            requires
                n > 0,
                radix >= 2,
        ;
    }
}

/// `n` written in `radix`, with `0` for zero.
pub open spec fn int_string(n: nat, radix: nat) -> Seq<char> {
    if n == 0 {
        seq!['0']
    } else {
        radix_digits(n, radix)
    }
}

/// `k` rounds of splitting off the lowest digit of `v` in `radix`, each gathered
/// into a second number by Horner's rule: the pair (what is left, what was gathered).
pub open spec fn split_parts(v: nat, radix: nat, k: nat) -> (nat, nat)
    decreases k,
{
    if k == 0 {
        (v, 0)
    } else {
        let (ip, f) = split_parts(v, radix, (k - 1) as nat);
        (ip / radix, f * radix + ip % radix)
    }
}

/// The `k` digits written after the `.`: each round multiplies `f` by `radix` and
/// takes its lowest base-256 limb off as the next digit.
pub open spec fn fraction_chars(f: nat, radix: nat, k: nat) -> Seq<char>
    decreases k,
{
    if k == 0 {
        Seq::empty()
    } else {
        let g = f * radix;
        seq![value_char(g % 256)] + fraction_chars(g / 256, radix, (k - 1) as nat)
    }
}

/// Every limb that `fraction_chars` takes off has a character in the alphabet.
pub open spec fn fraction_fits(f: nat, radix: nat, k: nat) -> bool
    decreases k,
{
    k == 0 || ((f * radix) % 256 < 62 && fraction_fits((f * radix) / 256, radix, (k - 1) as nat))
}

/// The text that value `v` with scale `k` renders to in `radix`.
pub open spec fn render_spec(v: nat, k: nat, radix: nat) -> Seq<char> {
    if v == 0 {
        seq!['0']
    } else {
        let (ip, f) = split_parts(v, radix, k);
        int_string(ip, radix) + if f == 0 {
            Seq::empty()
        } else {
            seq!['.'] + fraction_chars(f, radix, k)
        }
    }
}

/// Whether `v` with scale `k` can be rendered in `radix`: each fraction digit has a character.
pub open spec fn renders(v: nat, k: nat, radix: nat) -> bool {
    v == 0 || split_parts(v, radix, k).1 == 0 || fraction_fits(split_parts(v, radix, k).1, radix, k)
}

pub open spec fn valid_radix(b: nat) -> bool {
    2 <= b <= 62
}

/// What `convert_base` gives for `s` from radix `from` to radix `to`.
pub open spec fn convert_spec(s: Seq<char>, from: nat, to: nat) -> Result<
    Seq<char>,
    BaseConversionError,
> {
    if !valid_radix(from) || !valid_radix(to) {
        Err(BaseConversionError::InvalidBase)
    } else {
        match parse_spec(s, from) {
            Ok((v, k)) => Ok(render_spec(v, k, to)),
            Err(e) => Err(e),
        }
    }
}

/// The conversion of `s` reaches no fraction digit outside the alphabet.
pub open spec fn conversion_renders(s: Seq<char>, from: nat, to: nat) -> bool {
    valid_radix(from) && valid_radix(to) ==> match parse_spec(s, from) {
        Ok((v, k)) => renders(v, k, to),
        Err(_) => true,
    }
}

pub proof fn lemma_dot_count_prefix(s: Seq<char>, i: int)
    requires
        0 <= i <= s.len(),
    ensures
        dot_count(s.take(i)) <= dot_count(s),
    decreases s.len(),
{
    if i == s.len() {
        assert(s.take(i) =~= s);
    } else {
        lemma_dot_count_prefix(s.drop_last(), i);
        assert(s.drop_last().take(i) =~= s.take(i));
    }
}

/// A number held as an integer and the count of digits of it after the `.`.
#[derive(Debug)]
pub struct FixedDecimal {
    pub value: BigUint,
    pub scale: u32,
}

impl PartialEq for FixedDecimal {
    /// Same limbs and same scale.
    fn eq(&self, other: &FixedDecimal) -> (r: bool)
        ensures
            r == (self.value.digits@ == other.value.digits@ && self.scale == other.scale),
    {
        self.value == other.value && self.scale == other.scale
    }
}

impl vstd::std_specs::cmp::PartialEqSpecImpl for FixedDecimal {
    open spec fn obeys_eq_spec() -> bool {
        true
    }

    open spec fn eq_spec(&self, other: &FixedDecimal) -> bool {
        self.value.digits@ == other.value.digits@ && self.scale == other.scale
    }
}

impl Clone for FixedDecimal {
    fn clone(&self) -> (r: Self)
        ensures
            r.value.digits@ == self.value.digits@,
            r.scale == self.scale,
    {
        FixedDecimal { value: self.value.clone(), scale: self.scale }
    }
}

impl FixedDecimal {
    pub open spec fn wf(&self) -> bool {
        self.value.wf()
    }

    /// Pairs an integer with its scale.
    pub fn new(value: BigUint, scale: u32) -> (r: Self)
        ensures
            r.value == value,
            r.scale == scale,
    {
        FixedDecimal { value, scale }
    }

    /// Reads `s` in `radix`: every digit, integer part then fraction, goes into
    /// one integer by Horner's rule, and the digits after the `.` are counted.
    pub fn from_str_radix(s: &str, radix: u32) -> (r: Result<Self, BaseConversionError>)
        requires
            valid_radix(radix as nat),
            s@.len() <= u32::MAX,
        ensures
            match r {
                Ok(d) => d.wf() && parse_spec(s@, radix as nat) == Ok::<(nat, nat), BaseConversionError>(
                    (d.value@, d.scale as nat),
                ),
                Err(e) => parse_spec(s@, radix as nat) == Err::<(nat, nat), BaseConversionError>(e),
            },
    {
        let chars = chars_of(s);
        let n = chars.len();
        let mut dots: usize = 0;
        let mut i: usize = 0;
        assert(chars@.take(0) =~= Seq::<char>::empty());
        while i < n
            invariant
                n == chars@.len(),
                i <= n,
                dots == dot_count(chars@.take(i as int)),
                dots <= i,
            decreases n - i,
        {
            assert(chars@.take(i + 1).drop_last() =~= chars@.take(i as int));
            if chars[i] == '.' {
                dots += 1;
            }
            i += 1;
        }
        assert(chars@.take(n as int) =~= chars@);
        if dots > 1 {
            return Err(BaseConversionError::InvalidInput);
        }
        let mut value = BigUint::new();
        let mut scale: u32 = 0;
        let mut seen_dot = false;
        i = 0;
        while i < n
            invariant
                n == chars@.len(),
                chars@ == s@,
                n <= u32::MAX,
                i <= n,
                valid_radix(radix as nat),
                dot_count(chars@) <= 1,
                value.wf(),
                value@ == digits_value(chars@.take(i as int), radix as nat),
                digits_valid(chars@.take(i as int), radix as nat),
                seen_dot == (dot_count(chars@.take(i as int)) > 0),
                scale as nat == fraction_len(chars@.take(i as int)),
                scale <= i,
            decreases n - i,
        {
            let ghost pre = chars@.take(i as int);
            let ghost next = chars@.take(i + 1);
            assert(next.drop_last() =~= pre);
            assert(next.last() == chars@[i as int]);
            proof {
                lemma_dot_count_prefix(chars@, i + 1);
            }
            let c = chars[i];
            if c == '.' {
                seen_dot = true;
            } else {
                let code = c as u32;
                let digit = if code < 128 {
                    digit_to_val(code as u8)
                } else {
                    Err(BaseConversionError::InvalidDigit)
                };
                match digit {
                    Err(e) => {
                        assert(!is_digit_below(chars@[i as int], radix as nat));
                        return Err(e);
                    },
                    Ok(d) => {
                        proof {
                            vstd::utf8::char_u32_cast(c, code);
                        }
                        assert((code as u8) as char == c);
                        if d as u32 >= radix {
                            assert(!is_digit_below(chars@[i as int], radix as nat));
                            return Err(BaseConversionError::InvalidDigit);
                        }
                        value.mul_small(radix as u8);
                        value.add_small(d);
                        if seen_dot {
                            scale += 1;
                        }
                        assert(is_digit_below(chars@[i as int], radix as nat));
                    },
                }
            }
            assert forall|j: int| 0 <= j < next.len() && next[j] != '.' implies is_digit_below(
                #[trigger] next[j],
                radix as nat,
            ) by {
                if j < i {
                    assert(next[j] == pre[j]);
                }
            }
            i += 1;
        }
        assert(chars@.take(n as int) =~= chars@);
        Ok(FixedDecimal { value, scale })
    }

    /// Splits `scale` lowest digits in `radix` off the integer, gathering them
    /// into a fraction by Horner's rule, lowest first: (what is left, the fraction).
    pub fn split_fraction(&self, radix: u32) -> (r: (BigUint, BigUint))
        requires
            self.wf(),
            valid_radix(radix as nat),
        ensures
            r.0.wf(),
            r.1.wf(),
            (r.0@, r.1@) == split_parts(self.value@, radix as nat, self.scale as nat),
    {
        let ghost v = self.value@;
        let ghost rad = radix as nat;
        let mut int_part = self.value.clone();
        let mut frac_part = BigUint::new();
        let mut j: u32 = 0;
        while j < self.scale
            invariant
                valid_radix(rad),
                rad == radix as nat,
                j <= self.scale,
                int_part.wf(),
                frac_part.wf(),
                (int_part@, frac_part@) == split_parts(v, rad, j as nat),
            decreases self.scale - j,
        {
            let ghost ip = int_part@;
            let remainder = int_part.div_mod_small(radix as u16);
            frac_part.mul_small(radix as u8);
            frac_part.add_small(remainder);
            proof {
                lemma_div_mod_unique(ip, rad, int_part@, remainder as nat);
            }
            j += 1;
        }
        (int_part, frac_part)
    }

    /// Writes the number in `radix`. Zero is `0` whatever the scale. Otherwise
    /// `scale` lowest digits in `radix` are split off the integer and gathered into
    /// a fraction; the rest is written as an integer, and a nonzero fraction
    /// follows a `.` as `scale` digits, each the lowest base-256 limb taken off
    /// after a multiplication by `radix`.
    pub fn to_string_radix(&self, radix: u32) -> (r: String)
        requires
            self.wf(),
            valid_radix(radix as nat),
            renders(self.value@, self.scale as nat, radix as nat),
        ensures
            r@ == render_spec(self.value@, self.scale as nat, radix as nat),
    {
        if self.value.is_zero() {
            let mut zero = String::new();
            push_char(&mut zero, '0');
            assert(zero@ =~= seq!['0']);
            return zero;
        }
        let ghost v = self.value@;
        let ghost rad = radix as nat;
        let (int_part, mut frac_part) = self.split_fraction(radix);
        let ghost f0 = frac_part@;
        let mut result = int_part_to_string_radix(&int_part, radix);
        if !frac_part.is_zero() {
            let ghost head = result@.push('.');
            push_char(&mut result, '.');
            let mut j: u32 = 0;
            assert(result@ + fraction_chars(f0, rad, self.scale as nat) =~= head + fraction_chars(
                f0,
                rad,
                self.scale as nat,
            ));
            while j < self.scale
                invariant
                    valid_radix(rad),
                    rad == radix as nat,
                    j <= self.scale,
                    frac_part.wf(),
                    fraction_fits(frac_part@, rad, (self.scale - j) as nat),
                    result@ + fraction_chars(frac_part@, rad, (self.scale - j) as nat) == head
                        + fraction_chars(f0, rad, self.scale as nat),
                decreases self.scale - j,
            {
                let ghost f = frac_part@;
                let ghost k = (self.scale - j) as nat;
                frac_part.mul_small(radix as u8);
                let ghost g = frac_part@;
                let digit = frac_part.div_mod_small(256);
                proof {
                    lemma_div_mod_unique(g, 256, frac_part@, digit as nat);
                    assert((k - 1) as nat == (self.scale - (j + 1)) as nat);
                }
                let ghost before = result@;
                push_char(&mut result, val_to_digit(digit));
                assert(result@ + fraction_chars(frac_part@, rad, (k - 1) as nat) =~= before
                    + fraction_chars(f, rad, k));
                j += 1;
            }
            assert(fraction_chars(frac_part@, rad, 0) =~= Seq::<char>::empty());
            assert(result@ =~= render_spec(v, self.scale as nat, rad));
        } else {
            assert(result@ =~= render_spec(v, self.scale as nat, rad));
        }
        result
    }
}

impl FixedDecimal {
    /// Whether `to_string_radix` can write this number in `radix`: it runs the
    /// same rounds and checks that every fraction digit has a character.
    pub fn renders_in(&self, radix: u32) -> (r: bool)
        requires
            self.wf(),
            valid_radix(radix as nat),
        ensures
            r == renders(self.value@, self.scale as nat, radix as nat),
    {
        if self.value.is_zero() {
            return true;
        }
        let ghost v = self.value@;
        let ghost rad = radix as nat;
        let (_, mut frac_part) = self.split_fraction(radix);
        if frac_part.is_zero() {
            return true;
        }
        let ghost f0 = frac_part@;
        let mut j: u32 = 0;
        while j < self.scale
            invariant
                valid_radix(rad),
                rad == radix as nat,
                j <= self.scale,
                frac_part.wf(),
                fraction_fits(f0, rad, self.scale as nat) == fraction_fits(
                    frac_part@,
                    rad,
                    (self.scale - j) as nat,
                ),
                v == self.value@,
                v != 0,
                f0 != 0,
                split_parts(v, rad, self.scale as nat).1 == f0,
            decreases self.scale - j,
        {
            let ghost k = (self.scale - j) as nat;
            let ghost f = frac_part@;
            frac_part.mul_small(radix as u8);
            let ghost g = frac_part@;
            let digit = frac_part.div_mod_small(256);
            proof {
                lemma_div_mod_unique(g, 256, frac_part@, digit as nat);
                assert((k - 1) as nat == (self.scale - (j + 1)) as nat);
                assert(g == f * rad);
                assert(fraction_fits(f, rad, k) == ((f * rad) % 256 < 62 && fraction_fits(
                    (f * rad) / 256,
                    rad,
                    (k - 1) as nat,
                )));
            }
            if digit >= 62 {
                return false;
            }
            j += 1;
        }
        true
    }
}

/// Whether `convert_base` can be called on these arguments: the conversion
/// reaches no fraction digit outside the alphabet.
pub fn can_convert(number: &str, from_base: u32, to_base: u32) -> (r: bool)
    requires
        number@.len() <= u32::MAX,
    ensures
        r == conversion_renders(number@, from_base as nat, to_base as nat),
{
    if !(2 <= from_base && from_base <= 62) || !(2 <= to_base && to_base <= 62) {
        return true;
    }
    match FixedDecimal::from_str_radix(number, from_base) {
        Ok(value) => value.renders_in(to_base),
        Err(_) => true,
    }
}

/// Division with remainder has one answer: `a == q * b + r` with `r < b` gives
/// the quotient and remainder.
pub proof fn lemma_div_mod_unique(a: nat, b: nat, q: nat, r: nat)
    requires
        b > 0,
        a == q * b + r,
        r < b,
    ensures
        q == a / b,
        r == a % b,
{
    vstd::arithmetic::div_mod::lemma_fundamental_div_mod_converse(a as int, b as int, q as int, r as int);
}

/// Writes the integer `n` in `radix`, most significant digit first.
pub fn int_part_to_string_radix(n: &BigUint, radix: u32) -> (r: String)
    requires
        n.wf(),
        valid_radix(radix as nat),
    ensures
        r@ == int_string(n@, radix as nat),
{
    if n.is_zero() {
        let mut zero = String::new();
        push_char(&mut zero, '0');
        assert(zero@ =~= seq!['0']);
        return zero;
    }
    let ghost rad = radix as nat;
    let mut digits: Vec<char> = Vec::new();
    let mut m = n.clone();
    assert(radix_digits(m@, rad) + digits@ =~= radix_digits(n@, rad));
    while !m.is_zero()
        invariant
            valid_radix(rad),
            rad == radix as nat,
            m.wf(),
            radix_digits(m@, rad) + digits@ == radix_digits(n@, rad),
        decreases m@,
    {
        let ghost before = m@;
        let d = m.div_mod_small(radix as u16);
        proof {
            lemma_div_mod_unique(before, rad, m@, d as nat);
            assert(m@ < before) by (nonlinear_arith)
                requires
                    before == m@ * rad + d as nat,
                    before > 0,
                    rad >= 2,
            ;
        }
        let ghost tail = digits@;
        digits.insert(0, val_to_digit(d));
        assert(radix_digits(m@, rad) + digits@ =~= radix_digits(before, rad) + tail);
    }
    assert(radix_digits(0, rad) =~= Seq::<char>::empty());
    let mut s = String::new();
    push_chars(&mut s, &digits);
    assert(s@ =~= digits@);
    s
}

/// Converts `number`, written in radix `from_base`, to radix `to_base`.
pub fn convert_base(number: &str, from_base: u32, to_base: u32) -> (r: Result<
    String,
    BaseConversionError,
>)
    requires
        number@.len() <= u32::MAX,
        conversion_renders(number@, from_base as nat, to_base as nat),
    ensures
        match r {
            Ok(t) => convert_spec(number@, from_base as nat, to_base as nat) == Ok::<
                Seq<char>,
                BaseConversionError,
            >(t@),
            Err(e) => convert_spec(number@, from_base as nat, to_base as nat) == Err::<
                Seq<char>,
                BaseConversionError,
            >(e),
        },
{
    if !(2 <= from_base && from_base <= 62) || !(2 <= to_base && to_base <= 62) {
        return Err(BaseConversionError::InvalidBase);
    }
    let value = FixedDecimal::from_str_radix(number, from_base)?;
    Ok(value.to_string_radix(to_base))
}

/// The digits that `radix_digits` writes read back as the same number, with no
/// `.` and no fraction.
pub proof fn lemma_radix_digits_parse(n: nat, radix: nat)
    requires
        valid_radix(radix),
    ensures
        dot_count(radix_digits(n, radix)) == 0,
        digits_valid(radix_digits(n, radix), radix),
        digits_value(radix_digits(n, radix), radix) == n,
        fraction_len(radix_digits(n, radix)) == 0,
    decreases n,
{
    let t = radix_digits(n, radix);
    if n == 0 {
        assert(t =~= Seq::<char>::empty());
    } else {
        let q = n / radix;
        let d = n % radix;
        assert(q < n) by (nonlinear_arith)
            requires
                q == n / radix,
                n > 0,
                radix >= 2,
        ;
        lemma_radix_digits_parse(q, radix);
        let pre = radix_digits(q, radix);
        let c = value_char(d);
        lemma_value_char_round_trip(d);
        assert(t == pre.push(c));
        assert(t.drop_last() =~= pre);
        assert(t.last() == c);
        vstd::arithmetic::div_mod::lemma_fundamental_div_mod(n as int, radix as int);
        assert(digits_value(t, radix) == digits_value(pre, radix) * radix + char_value(c));
        assert(digits_value(t, radix) == q * radix + d);
        assert(n == q * radix + d);
        assert forall|i: int| 0 <= i < t.len() && t[i] != '.' implies is_digit_below(
            #[trigger] t[i],
            radix,
        ) by {
            if i < pre.len() {
                assert(t[i] == pre[i]);
            }
        }
    }
}

/// `int_string` reads back as the same number, with no `.` and no fraction.
pub proof fn lemma_int_string_parse(n: nat, radix: nat)
    requires
        valid_radix(radix),
    ensures
        parse_spec(int_string(n, radix), radix) == Ok::<(nat, nat), BaseConversionError>((n, 0)),
{
    if n == 0 {
        let t = int_string(n, radix);
        assert(t.drop_last() =~= Seq::<char>::empty());
        assert(dot_count(Seq::<char>::empty()) == 0);
        assert(digits_value(Seq::<char>::empty(), radix) == 0);
        assert(t.last() == '0');
        assert(dot_count(t) == 0);
        assert(char_value('0') == 0);
        assert(digits_value(t, radix) == 0 * radix + char_value('0'));
        assert(digits_value(t, radix) == 0);
        assert(fraction_len(t) == 0);
        assert(digits_valid(t, radix));
    } else {
        lemma_radix_digits_parse(n, radix);
        assert(int_string(n, radix) == radix_digits(n, radix));
    }
}

/// Round trip for integers: the canonical digits of `n` in radix `b1`, converted
/// to radix `b2`, are the canonical digits of `n` in `b2`; converted back, they
/// are the string that was started from.
pub proof fn lemma_integer_round_trip(n: nat, b1: nat, b2: nat)
    requires
        valid_radix(b1),
        valid_radix(b2),
    ensures
        conversion_renders(int_string(n, b1), b1, b2),
        convert_spec(int_string(n, b1), b1, b2) == Ok::<Seq<char>, BaseConversionError>(
            int_string(n, b2),
        ),
        conversion_renders(int_string(n, b2), b2, b1),
        convert_spec(int_string(n, b2), b2, b1) == Ok::<Seq<char>, BaseConversionError>(
            int_string(n, b1),
        ),
{
    lemma_int_string_parse(n, b1);
    lemma_int_string_parse(n, b2);
    if n != 0 {
        assert(int_string(n, b2) + Seq::<char>::empty() =~= int_string(n, b2));
        assert(int_string(n, b1) + Seq::<char>::empty() =~= int_string(n, b1));
    }
}

/// A digit string without `.` whose first digit is not `0` holds the canonical
/// digits of its value.
pub proof fn lemma_canonical_digits(s: Seq<char>, radix: nat)
    requires
        valid_radix(radix),
        s.len() > 0,
        s[0] != '0',
        dot_count(s) == 0,
        digits_valid(s, radix),
    ensures
        digits_value(s, radix) > 0,
        radix_digits(digits_value(s, radix), radix) == s,
    decreases s.len(),
{
    let pre = s.drop_last();
    let c = s.last();
    assert(c != '.') by {
        if c == '.' {
            assert(dot_count(s) >= 1);
        }
    }
    assert(is_digit_below(s[s.len() - 1], radix));
    lemma_char_value_round_trip(c);
    let d = char_value(c);
    let v = digits_value(s, radix);
    if s.len() == 1 {
        assert(pre =~= Seq::<char>::empty());
        assert(digits_value(pre, radix) == 0);
        assert(c == s[0]);
        assert(v == digits_value(pre, radix) * radix + d);
        assert(0 * radix == 0);
        assert(v == d);
        lemma_div_mod_unique(v, radix, 0, d);
        assert(radix_digits(0, radix) =~= Seq::<char>::empty());
        assert(radix_digits(v, radix) =~= s);
    } else {
        assert(pre[0] == s[0]);
        assert forall|i: int| 0 <= i < pre.len() && pre[i] != '.' implies is_digit_below(
            #[trigger] pre[i],
            radix,
        ) by {
            assert(pre[i] == s[i]);
        }
        lemma_canonical_digits(pre, radix);
        let w = digits_value(pre, radix);
        assert(v == w * radix + d);
        lemma_div_mod_unique(v, radix, w, d);
        assert(v > 0) by (nonlinear_arith)
            requires
                v == w * radix + d,
                w > 0,
                radix >= 2,
        ;
        assert(radix_digits(v, radix) =~= pre.push(c));
        assert(pre.push(c) =~= s);
    }
}

/// Identity conversion: in one radix, a digit string without `.` converts to
/// the canonical digits of its value, which is the string itself unless it
/// starts with a redundant `0`.
pub proof fn lemma_identity_conversion(s: Seq<char>, radix: nat)
    requires
        valid_radix(radix),
        dot_count(s) == 0,
        digits_valid(s, radix),
    ensures
        conversion_renders(s, radix, radix),
        convert_spec(s, radix, radix) == Ok::<Seq<char>, BaseConversionError>(
            int_string(digits_value(s, radix), radix),
        ),
        s.len() > 0 && (s[0] != '0' || s.len() == 1) ==> convert_spec(s, radix, radix) == Ok::<
            Seq<char>,
            BaseConversionError,
        >(s),
    decreases s.len(),
{
    let v = digits_value(s, radix);
    assert(fraction_len(s) == 0) by {
        if s.len() > 0 {
            if s.last() == '.' {
                assert(dot_count(s) >= 1);
            }
            lemma_dot_count_prefix(s, s.len() - 1);
            assert(s.take(s.len() - 1) =~= s.drop_last());
        }
    }
    if v != 0 {
        assert(int_string(v, radix) + Seq::<char>::empty() =~= int_string(v, radix));
    }
    if s.len() > 0 && (s[0] != '0' || s.len() == 1) {
        if s[0] != '0' {
            lemma_canonical_digits(s, radix);
        } else {
            assert(s.drop_last() =~= Seq::<char>::empty());
            assert(digits_value(Seq::<char>::empty(), radix) == 0);
            assert(s.last() == s[0]);
            assert(s =~= seq!['0']);
            assert(char_value('0') == 0);
            assert(v == digits_value(s.drop_last(), radix) * radix + char_value(s.last()));
            assert(v == 0);
        }
    }
}

} // verus!
