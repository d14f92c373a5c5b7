//! The numeric value model: an exact rational held as a signed numerator and
//! a positive denominator, always reduced by their greatest common divisor.
//! Arithmetic is exact; a result whose reduced form does not fit the machine
//! words is reported as `None` rather than rounded.

use vstd::arithmetic::div_mod::{
    lemma_div_multiples_vanish, lemma_div_nonincreasing, lemma_fundamental_div_mod,
};
use vstd::prelude::*;

verus! {

/// A rational number `num / den` with `den >= 1`.
#[derive(Clone, Copy, PartialEq, Eq, Structural, Debug)]
pub struct NumberValue {
    pub num: i64,
    pub den: i64,
}

/// `g` divides `n` exactly.
pub open spec fn divides(g: int, n: int) -> bool {
    exists|k: int| n == #[trigger] (g * k)
}

/// The magnitude of `s`.
pub open spec fn sp_abs(s: int) -> nat {
    if s < 0 {
        (-s) as nat
    } else {
        s as nat
    }
}

/// Euclid's greatest common divisor.
pub open spec fn sp_gcd(a: nat, b: nat) -> nat
    decreases b,
{
    if b == 0 {
        a
    } else {
        sp_gcd(b, a % b)
    }
}

/// `sp_gcd` yields a positive common divisor of its arguments whenever one
/// of them is positive.
pub proof fn lemma_gcd(a: nat, b: nat)
    ensures
        a > 0 || b > 0 ==> sp_gcd(a, b) >= 1,
        divides(sp_gcd(a, b) as int, a as int),
        divides(sp_gcd(a, b) as int, b as int),
    decreases b,
{
    if b == 0 {
        assert(a == (a as int) * 1);
        assert(0 == (a as int) * 0);
    } else {
        lemma_gcd(b, a % b);
        let g = sp_gcd(b, a % b) as int;
        let q: int = a as int / b as int;
        let r: int = a as int % b as int;
        lemma_fundamental_div_mod(a as int, b as int);
        let k1 = choose|k: int| b as int == #[trigger] (g * k);
        let k2 = choose|k: int| r == #[trigger] (g * k);
        assert(a as int == g * (k1 * q + k2)) by (nonlinear_arith)
            requires
                a as int == b as int * q + r,
                b as int == g * k1,
                r == g * k2,
        ;
    }
}

/// A positive divisor of a positive number is no larger than it.
proof fn lemma_divisor_le(g: int, d: int)
    requires
        1 <= g,
        1 <= d,
        divides(g, d),
    ensures
        g <= d,
{
    let k = choose|k: int| d == #[trigger] (g * k);
    assert(g <= d) by (nonlinear_arith)
        requires
            1 <= g,
            1 <= d,
            d == g * k,
    ;
}

/// Exact division: when `g` divides `n`, the quotient recovers `n`.
proof fn lemma_exact_div(g: int, n: int)
    requires
        1 <= g,
        0 <= n,
        divides(g, n),
    ensures
        g * (n / g) == n,
{
    let k = choose|k: int| n == #[trigger] (g * k);
    lemma_div_multiples_vanish(k, g);
}

/// The reduced form of the exact rational `s / d`: both parts are divided by
/// their greatest common divisor, and the result is `None` when the reduced
/// numerator or denominator does not fit an `i64`.
pub open spec fn sp_norm(s: int, d: int) -> Option<NumberValue> {
    if d < 1 {
        None
    } else {
        let g = sp_gcd(sp_abs(s), d as nat) as int;
        if g < 1 {
            None
        } else {
            let n2 = sp_abs(s) as int / g;
            let d2 = d / g;
            if 1 <= d2 && d2 <= i64::MAX && ((s >= 0 && n2 <= i64::MAX) || (s < 0 && n2
                <= 0x8000_0000_0000_0000)) {
                Some(
                    NumberValue {
                        num: if s < 0 {
                            (-n2) as i64
                        } else {
                            n2 as i64
                        },
                        den: d2 as i64,
                    },
                )
            } else {
                None
            }
        }
    }
}

/// Reduction never changes the value: a reduced result stands in the same
/// ratio as the exact rational it came from.
pub proof fn lemma_norm_exact(s: int, d: int)
    requires
        1 <= d,
        sp_norm(s, d) is Some,
    ensures
        sp_norm(s, d).unwrap().den >= 1,
        sp_norm(s, d).unwrap().num as int * d == s * (sp_norm(s, d).unwrap().den as int),
{
    let n_abs = sp_abs(s);
    lemma_gcd(n_abs, d as nat);
    let g = sp_gcd(n_abs, d as nat) as int;
    let n2 = n_abs as int / g;
    let d2 = d / g;
    lemma_exact_div(g, n_abs as int);
    lemma_exact_div(g, d);
    let r = sp_norm(s, d).unwrap();
    if s >= 0 {
        assert(n2 * d == n_abs as int * d2) by (nonlinear_arith)
            requires
                g * n2 == n_abs as int,
                g * d2 == d,
                1 <= g,
        ;
    } else {
        assert((-n2) * d == s * d2) by (nonlinear_arith)
            requires
                g * n2 == n_abs as int,
                g * d2 == d,
                1 <= g,
                s == -(n_abs as int),
        ;
    }
}

/// A rational whose raw parts already fit the machine words always reduces
/// successfully.
pub proof fn lemma_norm_small_ok(s: int, d: int)
    requires
        1 <= d <= i64::MAX,
        sp_abs(s) <= i64::MAX,
    ensures
        sp_norm(s, d) is Some,
{
    let n_abs = sp_abs(s);
    lemma_gcd(n_abs, d as nat);
    let g = sp_gcd(n_abs, d as nat) as int;
    lemma_divisor_le(g, d);
    lemma_exact_div(g, d);
    let d2 = d / g;
    assert(1 <= d2) by (nonlinear_arith)
        requires
            g * d2 == d,
            1 <= g <= d,
    ;
    lemma_div_nonincreasing(n_abs as int, g);
    lemma_div_nonincreasing(d, g);
    vstd::arithmetic::div_mod::lemma_div_pos_is_pos(n_abs as int, g);
}

/// Addition is exact: when a sum is produced, it stands in the same ratio
/// as the sum of the operands taken as exact rationals.
pub proof fn lemma_add_exact(a: NumberValue, b: NumberValue)
    requires
        a.wf(),
        b.wf(),
        NumberValue::sp_add(a, b) is Some,
    ensures
        ({
            let r = NumberValue::sp_add(a, b).unwrap();
            r.wf() && r.num * (a.den * b.den) == (a.num * b.den + b.num * a.den) * r.den
        }),
{
    lemma_mul_den_den(a.den as int, b.den as int);
    lemma_norm_exact(a.num * b.den + b.num * a.den, a.den * b.den);
}

/// Subtraction is exact, in the same sense.
pub proof fn lemma_sub_exact(a: NumberValue, b: NumberValue)
    requires
        a.wf(),
        b.wf(),
        NumberValue::sp_sub(a, b) is Some,
    ensures
        ({
            let r = NumberValue::sp_sub(a, b).unwrap();
            r.wf() && r.num * (a.den * b.den) == (a.num * b.den - b.num * a.den) * r.den
        }),
{
    lemma_mul_den_den(a.den as int, b.den as int);
    lemma_norm_exact(a.num * b.den - b.num * a.den, a.den * b.den);
}

/// Multiplication is exact, in the same sense.
pub proof fn lemma_mul_exact(a: NumberValue, b: NumberValue)
    requires
        a.wf(),
        b.wf(),
        NumberValue::sp_mul(a, b) is Some,
    ensures
        ({
            let r = NumberValue::sp_mul(a, b).unwrap();
            r.wf() && r.num * (a.den * b.den) == (a.num * b.num) * r.den
        }),
{
    lemma_mul_den_den(a.den as int, b.den as int);
    lemma_norm_exact(a.num * b.num, a.den * b.den);
}

/// Division is exact: when a quotient is produced for a nonzero divisor, it
/// stands in the same ratio as the exact quotient of the operands.
pub proof fn lemma_div_exact(a: NumberValue, b: NumberValue)
    requires
        a.wf(),
        b.wf(),
        b.num != 0,
        NumberValue::sp_div(a, b) is Some,
    ensures
        ({
            let r = NumberValue::sp_div(a, b).unwrap();
            r.wf() && r.num * (a.den * b.num) == (a.num * b.den) * r.den
        }),
{
    let s = a.num * b.den;
    let d = a.den * b.num;
    if b.num < 0 {
        assert(-d >= 1) by (nonlinear_arith)
            requires
                1 <= a.den,
                b.num < 0,
                d == a.den * b.num,
        ;
        lemma_norm_exact(-s, -d);
        let r = NumberValue::sp_div(a, b).unwrap();
        assert(r.num * d == s * r.den) by (nonlinear_arith)
            requires
                r.num as int * (-d) == (-s) * r.den,
        ;
    } else {
        assert(d >= 1) by (nonlinear_arith)
            requires
                1 <= a.den,
                b.num > 0,
                d == a.den * b.num,
        ;
        lemma_norm_exact(s, d);
    }
}

/// A product of a numerator-sized and a denominator-sized word stays well
/// inside a signed doubleword.
proof fn lemma_mul_num_den(x: int, y: int)
    requires
        -0x8000_0000_0000_0000 <= x <= 0x7FFF_FFFF_FFFF_FFFF,
        1 <= y <= 0x7FFF_FFFF_FFFF_FFFF,
    ensures
        -0x3FFF_FFFF_FFFF_FFFF_8000_0000_0000_0000 <= x * y
            <= 0x3FFF_FFFF_FFFF_FFFF_8000_0000_0000_0000,
{
    assert(-0x3FFF_FFFF_FFFF_FFFF_8000_0000_0000_0000 <= x * y
        <= 0x3FFF_FFFF_FFFF_FFFF_8000_0000_0000_0000) by (nonlinear_arith)
        requires
            -0x8000_0000_0000_0000 <= x <= 0x7FFF_FFFF_FFFF_FFFF,
            1 <= y <= 0x7FFF_FFFF_FFFF_FFFF,
    ;
}

/// A product of two numerator-sized words stays inside a signed doubleword.
proof fn lemma_mul_num_num(x: int, y: int)
    requires
        -0x8000_0000_0000_0000 <= x <= 0x7FFF_FFFF_FFFF_FFFF,
        -0x8000_0000_0000_0000 <= y <= 0x7FFF_FFFF_FFFF_FFFF,
    ensures
        -0x4000_0000_0000_0000_0000_0000_0000_0000 <= x * y
            <= 0x4000_0000_0000_0000_0000_0000_0000_0000,
{
    assert(-0x4000_0000_0000_0000_0000_0000_0000_0000 <= x * y
        <= 0x4000_0000_0000_0000_0000_0000_0000_0000) by (nonlinear_arith)
        requires
            -0x8000_0000_0000_0000 <= x <= 0x7FFF_FFFF_FFFF_FFFF,
            -0x8000_0000_0000_0000 <= y <= 0x7FFF_FFFF_FFFF_FFFF,
    ;
}

/// A product of two denominator-sized words stays inside an unsigned
/// doubleword.
proof fn lemma_mul_den_den(x: int, y: int)
    requires
        1 <= x <= 0x7FFF_FFFF_FFFF_FFFF,
        1 <= y <= 0x7FFF_FFFF_FFFF_FFFF,
    ensures
        1 <= x * y <= 0x3FFF_FFFF_FFFF_FFFF_8000_0000_0000_0000,
{
    assert(1 <= x * y <= 0x3FFF_FFFF_FFFF_FFFF_8000_0000_0000_0000) by (nonlinear_arith)
        requires
            1 <= x <= 0x7FFF_FFFF_FFFF_FFFF,
            1 <= y <= 0x7FFF_FFFF_FFFF_FFFF,
    ;
}

impl NumberValue {
    /// The denominator is positive.
    pub open spec fn wf(self) -> bool {
        1 <= self.den
    }

    /// The rational denoted by an integer.
    pub open spec fn sp_from_int(n: int) -> NumberValue {
        NumberValue { num: n as i64, den: 1 }
    }

    /// Exact sum, reduced.
    pub open spec fn sp_add(a: NumberValue, b: NumberValue) -> Option<NumberValue> {
        sp_norm(a.num * b.den + b.num * a.den, a.den * b.den)
    }

    /// Exact difference, reduced.
    pub open spec fn sp_sub(a: NumberValue, b: NumberValue) -> Option<NumberValue> {
        sp_norm(a.num * b.den - b.num * a.den, a.den * b.den)
    }

    /// Exact product, reduced.
    pub open spec fn sp_mul(a: NumberValue, b: NumberValue) -> Option<NumberValue> {
        sp_norm(a.num * b.num, a.den * b.den)
    }

    /// Exact quotient, reduced. Meaningful only when `b` is nonzero.
    pub open spec fn sp_div(a: NumberValue, b: NumberValue) -> Option<NumberValue> {
        if b.num < 0 {
            sp_norm(-(a.num * b.den), -(a.den * b.num))
        } else {
            sp_norm(a.num * b.den, a.den * b.num)
        }
    }

    /// The additive inverse, reduced.
    pub open spec fn sp_neg(a: NumberValue) -> Option<NumberValue> {
        sp_norm(-(a.num as int), a.den as int)
    }

    /// Value equality of two rationals, by cross multiplication.
    pub open spec fn sp_eq(a: NumberValue, b: NumberValue) -> bool {
        a.num * b.den == b.num * a.den
    }

    /// Value ordering of two rationals, by cross multiplication.
    pub open spec fn sp_lt(a: NumberValue, b: NumberValue) -> bool {
        a.num * b.den < b.num * a.den
    }

    /// The value is nonzero.
    pub open spec fn sp_truthy(a: NumberValue) -> bool {
        a.num != 0
    }

    /// The repeat count a string multiplication uses: the floor of the value,
    /// or zero for a non-positive value.
    pub open spec fn sp_repeat_count(a: NumberValue) -> nat {
        if a.num <= 0 {
            0
        } else {
            (a.num / a.den) as nat
        }
    }

    pub fn from_int(n: i64) -> (r: NumberValue)
        ensures
            r == Self::sp_from_int(n as int),
            r.wf(),
    {
        NumberValue { num: n, den: 1 }
    }

    pub fn add(&self, other: &NumberValue) -> (r: Option<NumberValue>)
        requires
            self.wf(),
            other.wf(),
        ensures
            r == Self::sp_add(*self, *other),
            r is Some ==> r.unwrap().wf(),
    {
        proof {
            lemma_mul_num_den(self.num as int, other.den as int);
            lemma_mul_num_den(other.num as int, self.den as int);
            lemma_mul_den_den(self.den as int, other.den as int);
        }
        let s: i128 = self.num as i128 * other.den as i128 + other.num as i128
            * self.den as i128;
        let d: u128 = self.den as u128 * other.den as u128;
        normalize(s < 0, abs_u128(s), d)
    }

    pub fn sub(&self, other: &NumberValue) -> (r: Option<NumberValue>)
        requires
            self.wf(),
            other.wf(),
        ensures
            r == Self::sp_sub(*self, *other),
            r is Some ==> r.unwrap().wf(),
    {
        proof {
            lemma_mul_num_den(self.num as int, other.den as int);
            lemma_mul_num_den(other.num as int, self.den as int);
            lemma_mul_den_den(self.den as int, other.den as int);
        }
        let s: i128 = self.num as i128 * other.den as i128 - other.num as i128
            * self.den as i128;
        let d: u128 = self.den as u128 * other.den as u128;
        normalize(s < 0, abs_u128(s), d)
    }

    pub fn mul(&self, other: &NumberValue) -> (r: Option<NumberValue>)
        requires
            self.wf(),
            other.wf(),
        ensures
            r == Self::sp_mul(*self, *other),
            r is Some ==> r.unwrap().wf(),
    {
        proof {
            lemma_mul_num_num(self.num as int, other.num as int);
            lemma_mul_den_den(self.den as int, other.den as int);
        }
        let s: i128 = self.num as i128 * other.num as i128;
        let d: u128 = self.den as u128 * other.den as u128;
        normalize(s < 0, abs_u128(s), d)
    }

    pub fn div(&self, other: &NumberValue) -> (r: Option<NumberValue>)
        requires
            self.wf(),
            other.wf(),
            other.num != 0,
        ensures
            r == Self::sp_div(*self, *other),
            r is Some ==> r.unwrap().wf(),
    {
        proof {
            lemma_mul_num_den(self.num as int, other.den as int);
            lemma_mul_num_num(self.den as int, other.num as int);
        }
        let s: i128 = self.num as i128 * other.den as i128;
        let d: i128 = self.den as i128 * other.num as i128;
        if other.num < 0 {
            proof {
                assert(self.den as int * other.num < 0) by (nonlinear_arith)
                    requires
                        1 <= self.den,
                        other.num < 0,
                ;
            }
            normalize(-s < 0, abs_u128(-s), abs_u128(-d) as u128)
        } else {
            proof {
                assert(self.den as int * other.num > 0) by (nonlinear_arith)
                    requires
                        1 <= self.den,
                        other.num > 0,
                ;
            }
            normalize(s < 0, abs_u128(s), d as u128)
        }
    }

    pub fn neg(&self) -> (r: Option<NumberValue>)
        requires
            self.wf(),
        ensures
            r == Self::sp_neg(*self),
            r is Some ==> r.unwrap().wf(),
    {
        let s: i128 = -(self.num as i128);
        normalize(s < 0, abs_u128(s), self.den as u128)
    }

    pub fn eq_value(&self, other: &NumberValue) -> (r: bool)
        requires
            self.wf(),
            other.wf(),
        ensures
            r == Self::sp_eq(*self, *other),
    {
        proof {
            lemma_mul_num_den(self.num as int, other.den as int);
            lemma_mul_num_den(other.num as int, self.den as int);
        }
        self.num as i128 * other.den as i128 == other.num as i128 * self.den as i128
    }

    pub fn lt_value(&self, other: &NumberValue) -> (r: bool)
        requires
            self.wf(),
            other.wf(),
        ensures
            r == Self::sp_lt(*self, *other),
    {
        proof {
            lemma_mul_num_den(self.num as int, other.den as int);
            lemma_mul_num_den(other.num as int, self.den as int);
        }
        (self.num as i128 * other.den as i128) < (other.num as i128 * self.den as i128)
    }

    pub fn is_truthy(&self) -> (r: bool)
        ensures
            r == Self::sp_truthy(*self),
    {
        self.num != 0
    }

    pub fn repeat_count(&self) -> (r: u64)
        requires
            self.wf(),
        ensures
            r as nat == Self::sp_repeat_count(*self),
    {
        if self.num <= 0 {
            0
        } else {
            proof {
                lemma_div_nonincreasing(self.num as int, self.den as int);
                vstd::arithmetic::div_mod::lemma_div_pos_is_pos(self.num as int, self.den as int);
            }
            (self.num / self.den) as u64
        }
    }
}

/// The magnitude of a signed doubleword, as an unsigned one.
fn abs_u128(s: i128) -> (r: u128)
    requires
        s != i128::MIN,
    ensures
        r as nat == sp_abs(s as int),
{
    if s < 0 {
        (-s) as u128
    } else {
        s as u128
    }
}

/// Euclid's algorithm.
fn gcd_u128(a: u128, b: u128) -> (g: u128)
    ensures
        g as nat == sp_gcd(a as nat, b as nat),
{
    let mut x: u128 = a;
    let mut y: u128 = b;
    while y != 0
        invariant
            sp_gcd(x as nat, y as nat) == sp_gcd(a as nat, b as nat),
        decreases y,
    {
        let t: u128 = x % y;
        x = y;
        y = t;
    }
    x
}

/// Reduces the rational with magnitude `n_abs / d` and the given sign, per
/// `sp_norm`.
pub(crate) fn normalize(neg: bool, n_abs: u128, d: u128) -> (r: Option<NumberValue>)
    requires
        1 <= d,
        neg ==> 1 <= n_abs,
    ensures
        r == sp_norm(
            if neg {
                -(n_abs as int)
            } else {
                n_abs as int
            },
            d as int,
        ),
        r is Some ==> r.unwrap().wf(),
{
    let ghost s: int = if neg {
        -(n_abs as int)
    } else {
        n_abs as int
    };
    proof {
        lemma_gcd(n_abs as nat, d as nat);
    }
    let g: u128 = gcd_u128(n_abs, d);
    let n2: u128 = n_abs / g;
    let d2: u128 = d / g;
    proof {
        lemma_exact_div(g as int, d as int);
        lemma_divisor_le(g as int, d as int);
        assert(1 <= d as int / g as int) by (nonlinear_arith)
            requires
                g as int * (d as int / g as int) == d as int,
                1 <= g as int <= d as int,
        ;
    }
    if d2 <= i64::MAX as u128 && ((!neg && n2 <= i64::MAX as u128) || (neg && n2
        <= 0x8000_0000_0000_0000u128)) {
        let num: i64 = if neg {
            (-(n2 as i128)) as i64
        } else {
            n2 as i64
        };
        Some(NumberValue { num, den: d2 as i64 })
    } else {
        None
    }
}

} // verus!
