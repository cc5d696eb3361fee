//! What the bit patterns stand for.
//!
//! A binary32 number is a sign, an exponent field `e` and a fraction field
//! `f`. Its size is `f * 2^-149` where `e` is zero and
//! `(2^23 + f) * 2^(e - 150)` otherwise. All sizes are whole multiples of
//! `2^-149`, so a number is described exactly by an integer: its value
//! times `2^149`. This module states that description and proves that the
//! comparisons of [`Scalar`], which go by the bits, are the comparisons of
//! the numbers.

use vstd::arithmetic::div_mod::{
    lemma_basic_div, lemma_div_is_ordered, lemma_div_is_ordered_by_denominator,
    lemma_div_multiples_vanish, lemma_div_multiples_vanish_quotient,
};
use vstd::arithmetic::mul::{lemma_mul_inequality, lemma_mul_strict_inequality};
use vstd::arithmetic::power2::{
    lemma2_to64, lemma_pow2_adds, lemma_pow2_pos, lemma_pow2_strictly_increases,
    lemma_pow2_unfold, pow2,
};
use vstd::prelude::*;
use crate::scalar::{Scalar, HIDDEN_BIT};

verus! {

/// The size of the number with exponent field `e` and fraction field `f`,
/// in units of `2^-149`.
pub open spec fn size(e: int, f: int) -> int {
    if e <= 0 {
        f
    } else {
        (HIDDEN_BIT + f) * pow2((e - 1) as nat)
    }
}

impl Scalar {
    /// The number times `2^149`. Infinity is given the size that its bit
    /// pattern would have as a number, which lies above every finite one.
    /// For what encodes no number the result means nothing.
    pub open spec fn scaled(self) -> int {
        if self.negative() {
            -size(self.exponent(), self.fraction())
        } else {
            size(self.exponent(), self.fraction())
        }
    }
}

/// A larger magnitude of the bits is a larger size of the number.
pub proof fn lemma_size_increases(e1: int, f1: int, e2: int, f2: int)
    requires
        0 <= e1,
        0 <= e2,
        0 <= f1 < HIDDEN_BIT,
        0 <= f2 < HIDDEN_BIT,
        e1 < e2 || (e1 == e2 && f1 < f2),
    ensures
        0 <= size(e1, f1) < size(e2, f2),
{
    let h = HIDDEN_BIT as int;
    if e1 == e2 {
        if e1 > 0 {
            let p = pow2((e1 - 1) as nat) as int;
            lemma_pow2_pos((e1 - 1) as nat);
            lemma_mul_strict_inequality(h + f1, h + f2, p);
            lemma_mul_inequality(0, h + f1, p);
        }
    } else {
        let upper = pow2((e2 - 1) as nat) as int;
        lemma_pow2_pos((e2 - 1) as nat);
        lemma_mul_inequality(1, upper, h);
        lemma_mul_inequality(h, h + f2, upper);
        assert(h <= h * upper) by (nonlinear_arith)
            requires
                1 <= upper,
                0 <= h,
        ;
        assert(h * upper <= (h + f2) * upper);
        if e1 > 0 {
            let lower = pow2((e1 - 1) as nat) as int;
            let twice = pow2(e1 as nat) as int;
            lemma_pow2_pos((e1 - 1) as nat);
            lemma_pow2_unfold(e1 as nat);
            assert(twice == 2 * lower);
            if e1 < e2 - 1 {
                lemma_pow2_strictly_increases(e1 as nat, (e2 - 1) as nat);
            }
            assert(twice <= upper);
            lemma_mul_strict_inequality(h + f1, 2 * h, lower);
            lemma_mul_inequality(0, h + f1, lower);
            assert((2 * h) * lower == h * twice) by (nonlinear_arith)
                requires
                    twice == 2 * lower,
            ;
            lemma_mul_inequality(twice, upper, h);
            assert(h * twice <= h * upper) by (nonlinear_arith)
                requires
                    twice <= upper,
                    0 <= h,
            ;
        }
    }
}

/// The fields of a bit pattern take its magnitude apart.
pub proof fn lemma_fields(a: Scalar)
    ensures
        0 <= a.exponent() < 256,
        0 <= a.fraction() < HIDDEN_BIT,
        a.magnitude() == a.exponent() * HIDDEN_BIT + a.fraction(),
        a.nan() <==> a.exponent() == 255 && a.fraction() > 0,
        a.finite() <==> a.exponent() < 255,
{
}

/// The comparisons go by the numbers: among patterns that encode numbers,
/// `less`, `at_most` and `same_number` hold exactly where `<`, `<=` and
/// `==` hold of the numbers themselves.
pub proof fn lemma_comparisons_are_numeric(a: Scalar, b: Scalar)
    requires
        !a.nan(),
        !b.nan(),
    ensures
        a.less(b) <==> a.scaled() < b.scaled(),
        a.at_most(b) <==> a.scaled() <= b.scaled(),
        a.same_number(b) <==> a.scaled() == b.scaled(),
{
    lemma_fields(a);
    lemma_fields(b);
    let (ea, fa) = (a.exponent(), a.fraction());
    let (eb, fb) = (b.exponent(), b.fraction());
    if a.magnitude() < b.magnitude() {
        lemma_size_increases(ea, fa, eb, fb);
    } else if b.magnitude() < a.magnitude() {
        lemma_size_increases(eb, fb, ea, fa);
    }
    if ea > 0 {
        lemma_size_increases(0, 0, ea, fa);
    }
    if eb > 0 {
        lemma_size_increases(0, 0, eb, fb);
    }
}

/// A whole number held to what a byte can take.
pub open spec fn held_to_byte(n: int) -> int {
    if n < 0 {
        0
    } else if n > 255 {
        255
    } else {
        n
    }
}

/// The byte of a number is its whole part, held to `0..=255`.
pub proof fn lemma_byte_is_whole_part(a: Scalar)
    requires
        !a.nan(),
    ensures
        a.whole_byte() == held_to_byte(a.scaled() / (pow2(149) as int)),
{
    lemma_fields(a);
    lemma2_to64();
    let h = HIDDEN_BIT as int;
    let e = a.exponent();
    let f = a.fraction();
    let unit = pow2(149) as int;
    lemma_pow2_pos(149);
    lemma_pow2_adds(23, 126);
    assert(unit == h * pow2(126));
    assert(size(127, 0) == unit);
    if e > 0 {
        lemma_size_increases(0, 0, e, f);
    }
    if a.negative() {
        lemma_div_is_ordered(-size(e, f), 0, unit);
        lemma_basic_div(0, unit);
    } else if e < 127 {
        lemma_size_increases(e, f, 127, 0);
        lemma_basic_div(size(e, f), unit);
    } else if e >= 135 {
        lemma_pow2_adds(23, 134);
        lemma_pow2_adds(8, 149);
        assert(size(135, 0) == 256 * unit);
        if e > 135 || f > 0 {
            lemma_size_increases(135, 0, e, f);
        }
        lemma_div_is_ordered(256 * unit, size(e, f), unit);
        lemma_div_multiples_vanish(256, unit);
    } else {
        let low = pow2((e - 1) as nat) as int;
        let shift = (150 - e) as nat;
        let high = pow2(shift) as int;
        lemma_pow2_pos((e - 1) as nat);
        lemma_pow2_pos(shift);
        lemma_pow2_adds((e - 1) as nat, shift);
        assert(unit == low * high);
        lemma_div_multiples_vanish_quotient(low, h + f, high);
        assert(size(e, f) == low * (h + f)) by (nonlinear_arith)
            requires
                size(e, f) == (h + f) * low,
        ;
        assert(high >= 0x1_0000) by {
            if shift > 16 {
                lemma_pow2_strictly_increases(16, shift);
            }
        }
        lemma_div_is_ordered_by_denominator(h + f, 0x1_0000, high);
        lemma_div_is_ordered(0, h + f, high);
        lemma_basic_div(0, high);
    }
}

} // verus!
