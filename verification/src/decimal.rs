//! Reading and writing decimal digit sequences: the digit characters of an
//! unsigned integer, the digits after the point of a fraction, and the value
//! of a run of digit characters.

use crate::strutil::push_char;
use crate::utils::spec_is_digit;
use vstd::prelude::*;

verus! {

/// The digit character for a value below ten.
pub open spec fn sp_digit_char(d: int) -> char {
    if d == 0 {
        '0'
    } else if d == 1 {
        '1'
    } else if d == 2 {
        '2'
    } else if d == 3 {
        '3'
    } else if d == 4 {
        '4'
    } else if d == 5 {
        '5'
    } else if d == 6 {
        '6'
    } else if d == 7 {
        '7'
    } else if d == 8 {
        '8'
    } else {
        '9'
    }
}

/// The value of a digit character.
pub open spec fn sp_char_digit(c: char) -> int {
    if c == '0' {
        0
    } else if c == '1' {
        1
    } else if c == '2' {
        2
    } else if c == '3' {
        3
    } else if c == '4' {
        4
    } else if c == '5' {
        5
    } else if c == '6' {
        6
    } else if c == '7' {
        7
    } else if c == '8' {
        8
    } else {
        9
    }
}

/// Every character of `s` is a decimal digit.
pub open spec fn sp_all_digits(s: Seq<char>) -> bool {
    forall|i: int| 0 <= i < s.len() ==> spec_is_digit(#[trigger] s[i])
}

/// Ten to the `k`.
pub open spec fn sp_pow10(k: nat) -> nat
    decreases k,
{
    if k == 0 {
        1
    } else {
        10 * sp_pow10((k - 1) as nat)
    }
}

/// The value of a run of digit characters, most significant first.
pub open spec fn sp_digits_val(s: Seq<char>) -> nat
    decreases s.len(),
{
    if s.len() == 0 {
        0
    } else {
        sp_digits_val(s.drop_last()) * 10 + sp_char_digit(s.last()) as nat
    }
}

/// The decimal digit characters of `n`, most significant first.
pub open spec fn sp_uint_digits(n: nat) -> Seq<char>
    decreases n,
{
    if n < 10 {
        seq![sp_digit_char(n as int)]
    } else {
        sp_uint_digits(n / 10).push(sp_digit_char((n % 10) as int))
    }
}

/// Up to `fuel` digits after the point of the fraction `r / den`, stopping
/// early when the remainder runs out.
pub open spec fn sp_frac_digits(r: nat, den: nat, fuel: nat) -> Seq<char>
    recommends
        1 <= den,
        r < den,
    decreases fuel,
{
    if fuel == 0 || r == 0 {
        Seq::empty()
    } else {
        seq![sp_digit_char(((r * 10) / den) as int)] + sp_frac_digits(
            (r * 10) % den,
            den,
            (fuel - 1) as nat,
        )
    }
}

/// A run of digits is worth less than ten to its length.
pub proof fn lemma_digits_val_bound(s: Seq<char>)
    ensures
        sp_digits_val(s) < sp_pow10(s.len()),
    decreases s.len(),
{
    if s.len() > 0 {
        lemma_digits_val_bound(s.drop_last());
    }
}

/// Ten to the `k` never shrinks as `k` grows.
pub proof fn lemma_pow10_le(a: nat, b: nat)
    requires
        a <= b,
    ensures
        sp_pow10(a) <= sp_pow10(b),
        1 <= sp_pow10(a),
    decreases b,
{
    if a == b {
        if a > 0 {
            lemma_pow10_le((a - 1) as nat, (a - 1) as nat);
        }
    } else {
        lemma_pow10_le(a, (b - 1) as nat);
    }
}

/// Ten to the thirty-eighth, written out.
pub proof fn lemma_pow10_38()
    ensures
        sp_pow10(38) == 100_000_000_000_000_000_000_000_000_000_000_000_000,
{
    reveal_with_fuel(sp_pow10, 40);
}

pub fn digit_char(d: u64) -> (r: char)
    requires
        d < 10,
    ensures
        r == sp_digit_char(d as int),
{
    if d == 0 {
        '0'
    } else if d == 1 {
        '1'
    } else if d == 2 {
        '2'
    } else if d == 3 {
        '3'
    } else if d == 4 {
        '4'
    } else if d == 5 {
        '5'
    } else if d == 6 {
        '6'
    } else if d == 7 {
        '7'
    } else if d == 8 {
        '8'
    } else {
        '9'
    }
}

pub fn char_digit(c: char) -> (r: u64)
    requires
        spec_is_digit(c),
    ensures
        r == sp_char_digit(c),
        r < 10,
{
    if c == '0' {
        0
    } else if c == '1' {
        1
    } else if c == '2' {
        2
    } else if c == '3' {
        3
    } else if c == '4' {
        4
    } else if c == '5' {
        5
    } else if c == '6' {
        6
    } else if c == '7' {
        7
    } else if c == '8' {
        8
    } else {
        9
    }
}

/// Appends the decimal digits of `n` to `out`.
pub fn push_uint_digits(out: &mut String, n: u128)
    ensures
        final(out)@ == old(out)@ + sp_uint_digits(n as nat),
    decreases n,
{
    if n < 10 {
        push_char(out, digit_char(n as u64));
        proof {
            assert(old(out)@.push(sp_digit_char(n as int)) =~= old(out)@ + sp_uint_digits(
                n as nat,
            ));
        }
    } else {
        push_uint_digits(out, n / 10);
        push_char(out, digit_char((n % 10) as u64));
        proof {
            assert((old(out)@ + sp_uint_digits((n as nat) / 10)).push(
                sp_digit_char(((n as nat) % 10) as int),
            ) =~= old(out)@ + sp_uint_digits(n as nat));
        }
    }
}

/// Appends up to `fuel` digits of the fraction `r / den` to `out`.
pub fn push_frac_digits(out: &mut String, r: u128, den: u128, fuel: u64)
    requires
        1 <= den <= i64::MAX,
        r < den,
    ensures
        final(out)@ == old(out)@ + sp_frac_digits(r as nat, den as nat, fuel as nat),
    decreases fuel,
{
    if fuel == 0 || r == 0 {
        proof {
            assert(old(out)@ + Seq::<char>::empty() =~= old(out)@);
        }
    } else {
        let t: u128 = r * 10;
        proof {
            vstd::arithmetic::div_mod::lemma_multiply_divide_lt(t as int, den as int, 10);
        }
        let d: u128 = t / den;
        let r2: u128 = t % den;
        push_char(out, digit_char(d as u64));
        push_frac_digits(out, r2, den, fuel - 1);
        proof {
            assert(old(out)@.push(sp_digit_char(d as int)) + sp_frac_digits(
                r2 as nat,
                den as nat,
                (fuel - 1) as nat,
            ) =~= old(out)@ + sp_frac_digits(r as nat, den as nat, fuel as nat));
        }
    }
}

} // verus!
