//! Single-precision numbers as the verified core sees them: by their bits.
//!
//! The core never adds or multiplies. It orders numbers, tests them against
//! thresholds and flips their sign, and all of that is exact integer work on
//! the IEEE 754 binary32 encoding. Whoever does the arithmetic hands the
//! results in as bit patterns.

use vstd::arithmetic::div_mod::{lemma_div_denominator, lemma_div_is_ordered_by_denominator};
use vstd::arithmetic::power2::{lemma2_to64, lemma_pow2_pos, lemma_pow2_unfold, pow2};
use vstd::prelude::*;

verus! {

/// The first magnitude with a non-zero exponent field: two to the power of
/// the width of the fraction field.
pub const HIDDEN_BIT: u32 = 0x80_0000;

/// The sign bit of the encoding.
pub const SIGN_BIT: u32 = 0x8000_0000;

/// Encoding of positive infinity; every larger magnitude is not a number.
pub const INFINITY_BITS: u32 = 0x7F80_0000;

/// Encoding of `0.0`.
pub const ZERO_BITS: u32 = 0x0000_0000;

/// Encoding of `1.0`.
pub const ONE_BITS: u32 = 0x3F80_0000;

/// Encoding of the largest finite number.
pub const MAX_BITS: u32 = 0x7F7F_FFFF;

/// Encoding of the most negative finite number.
pub const MIN_BITS: u32 = 0xFF7F_FFFF;

/// Encoding of `1e-8`, below which a length counts as zero.
pub const TINY_BITS: u32 = 0x322B_CC77;

/// Encoding of `0.001`, the closest distance at which a ray may hit again.
pub const NEAR_BITS: u32 = 0x3A83_126F;

/// Encoding of `0.0001`, the thickness below which a box is widened.
pub const THIN_BITS: u32 = 0x38D1_B717;

/// Encoding of `0.5`.
pub const HALF_BITS: u32 = 0x3F00_0000;

/// Encoding of `0.7`.
pub const SEVEN_TENTHS_BITS: u32 = 0x3F33_3333;

/// Encoding of `64.0`.
pub const SIXTY_FOUR_BITS: u32 = 0x4280_0000;

/// A binary32 number, identified by its bit pattern.
///
/// `==` on this type is identity of bit patterns, so `-0.0` and `0.0` differ
/// and a not-a-number equals itself. The numeric comparisons are
/// [`Scalar::lt`], [`Scalar::le`] and [`Scalar::same`].
#[derive(Clone, Copy, Debug, PartialEq, Eq, Structural)]
pub struct Scalar {
    pub bits: u32,
}

impl Scalar {
    /// The number with the given bit pattern.
    pub open spec fn of(bits: u32) -> Scalar {
        Scalar { bits }
    }

    /// The sign bit is set.
    pub open spec fn negative(self) -> bool {
        self.bits >= SIGN_BIT
    }

    /// The encoding without its sign bit.
    pub open spec fn magnitude(self) -> int {
        if self.negative() {
            self.bits - SIGN_BIT
        } else {
            self.bits as int
        }
    }

    /// The pattern encodes no number.
    pub open spec fn nan(self) -> bool {
        self.magnitude() > INFINITY_BITS
    }

    /// The pattern encodes a number that is neither infinite nor missing.
    pub open spec fn finite(self) -> bool {
        self.magnitude() < INFINITY_BITS
    }

    /// Position on the number line, counted in representable steps from zero.
    /// Both zeros stand at 0; numbers compare as their positions do.
    pub open spec fn ordinal(self) -> int {
        if self.negative() {
            -self.magnitude()
        } else {
            self.magnitude()
        }
    }

    /// Position in the total order of all bit patterns: negative patterns
    /// below positive ones, `-0.0` directly below `0.0`, and the patterns
    /// that encode no number at both far ends.
    pub open spec fn rank(self) -> int {
        if self.negative() {
            -self.magnitude() - 1
        } else {
            self.magnitude()
        }
    }

    /// Numeric `<`: false as soon as one side is not a number.
    pub open spec fn less(self, other: Scalar) -> bool {
        !self.nan() && !other.nan() && self.ordinal() < other.ordinal()
    }

    /// Numeric `<=`: false as soon as one side is not a number.
    pub open spec fn at_most(self, other: Scalar) -> bool {
        !self.nan() && !other.nan() && self.ordinal() <= other.ordinal()
    }

    /// Numeric `==`: the two zeros are the same, a not-a-number is the same
    /// as nothing.
    pub open spec fn same_number(self, other: Scalar) -> bool {
        !self.nan() && !other.nan() && self.ordinal() == other.ordinal()
    }

    /// The key by which [`Scalar::min`] chooses: the total order, with every
    /// not-a-number moved above all numbers.
    pub open spec fn low_key(self) -> int {
        if self.nan() {
            self.rank() + 0x1_0000_0000
        } else {
            self.rank()
        }
    }

    /// The key by which [`Scalar::max`] chooses: the total order, with every
    /// not-a-number moved below all numbers.
    pub open spec fn high_key(self) -> int {
        if self.nan() {
            self.rank() - 0x1_0000_0000
        } else {
            self.rank()
        }
    }

    /// The smaller of two numbers. A not-a-number loses against a number,
    /// and `-0.0` counts as smaller than `0.0`.
    pub open spec fn min_of(self, other: Scalar) -> Scalar {
        if other.low_key() < self.low_key() {
            other
        } else {
            self
        }
    }

    /// The larger of two numbers. A not-a-number loses against a number, and
    /// `0.0` counts as larger than `-0.0`.
    pub open spec fn max_of(self, other: Scalar) -> Scalar {
        if other.high_key() > self.high_key() {
            other
        } else {
            self
        }
    }

    /// The exponent field of the encoding. A number from one on has an
    /// exponent field of 127 or more.
    pub open spec fn exponent(self) -> int {
        self.magnitude() / (HIDDEN_BIT as int)
    }

    /// The fraction field of the encoding.
    pub open spec fn fraction(self) -> int {
        self.magnitude() % (HIDDEN_BIT as int)
    }

    /// The whole part of the number, held to what a byte can take: 0 for
    /// what encodes no number, for every negative number and for every
    /// number below one; 255 from 256 on, infinity included; and between
    /// them the number without what follows the point, which for an
    /// exponent field `e` is `(2^23 + fraction) / 2^(150 - e)`.
    pub open spec fn whole_byte(self) -> int {
        if self.nan() || self.negative() || self.exponent() < 127 {
            0
        } else if self.exponent() >= 135 {
            255
        } else {
            (HIDDEN_BIT + self.fraction()) / (pow2((150 - self.exponent()) as nat) as int)
        }
    }

    /// The same magnitude with the opposite sign.
    pub open spec fn negated(self) -> Scalar {
        if self.negative() {
            Scalar { bits: (self.bits - SIGN_BIT) as u32 }
        } else {
            Scalar { bits: (self.bits + SIGN_BIT) as u32 }
        }
    }

    /// The same magnitude with the sign cleared.
    pub open spec fn absolute(self) -> Scalar {
        Scalar { bits: self.magnitude() as u32 }
    }

    /// Wraps a bit pattern.
    pub fn from_bits(bits: u32) -> (r: Scalar)
        ensures
            r == Scalar::of(bits),
    {
        Scalar { bits }
    }

    /// The bit pattern.
    pub fn to_bits(self) -> (r: u32)
        ensures
            r == self.bits,
    {
        self.bits
    }

    /// `0.0`.
    pub fn zero() -> (r: Scalar)
        ensures
            r == Scalar::of(ZERO_BITS),
    {
        Scalar { bits: ZERO_BITS }
    }

    /// `1.0`.
    pub fn one() -> (r: Scalar)
        ensures
            r == Scalar::of(ONE_BITS),
    {
        Scalar { bits: ONE_BITS }
    }

    fn magnitude_bits(self) -> (r: u32)
        ensures
            r == self.magnitude(),
    {
        if self.bits >= SIGN_BIT {
            self.bits - SIGN_BIT
        } else {
            self.bits
        }
    }

    /// Whether the sign bit is set.
    pub fn is_sign_negative(self) -> (r: bool)
        ensures
            r == self.negative(),
    {
        self.bits >= SIGN_BIT
    }

    /// Whether the pattern encodes no number.
    pub fn is_nan(self) -> (r: bool)
        ensures
            r == self.nan(),
    {
        self.magnitude_bits() > INFINITY_BITS
    }

    /// Whether the pattern encodes a finite number.
    pub fn is_finite(self) -> (r: bool)
        ensures
            r == self.finite(),
    {
        self.magnitude_bits() < INFINITY_BITS
    }

    /// The position on the number line, see [`Scalar::ordinal`].
    pub fn position(self) -> (r: i64)
        ensures
            r == self.ordinal(),
    {
        let m: i64 = self.magnitude_bits() as i64;
        if self.bits >= SIGN_BIT {
            -m
        } else {
            m
        }
    }

    /// The position in the total order, see [`Scalar::rank`].
    pub fn total_position(self) -> (r: i64)
        ensures
            r == self.rank(),
    {
        let m: i64 = self.magnitude_bits() as i64;
        if self.bits >= SIGN_BIT {
            -m - 1
        } else {
            m
        }
    }

    /// Numeric `self < other`.
    pub fn lt(self, other: Scalar) -> (r: bool)
        ensures
            r == self.less(other),
    {
        !self.is_nan() && !other.is_nan() && self.position() < other.position()
    }

    /// Numeric `self <= other`.
    pub fn le(self, other: Scalar) -> (r: bool)
        ensures
            r == self.at_most(other),
    {
        !self.is_nan() && !other.is_nan() && self.position() <= other.position()
    }

    /// Numeric `self > other`.
    pub fn gt(self, other: Scalar) -> (r: bool)
        ensures
            r == other.less(self),
    {
        other.lt(self)
    }

    /// Numeric `self >= other`.
    pub fn ge(self, other: Scalar) -> (r: bool)
        ensures
            r == other.at_most(self),
    {
        other.le(self)
    }

    /// Numeric `self == other`.
    pub fn same(self, other: Scalar) -> (r: bool)
        ensures
            r == self.same_number(other),
    {
        !self.is_nan() && !other.is_nan() && self.position() == other.position()
    }

    /// Whether `self` stands strictly before `other` in the total order of
    /// bit patterns.
    pub fn total_lt(self, other: Scalar) -> (r: bool)
        ensures
            r == (self.rank() < other.rank()),
    {
        self.total_position() < other.total_position()
    }

    fn low_position(self) -> (r: i64)
        ensures
            r == self.low_key(),
    {
        if self.is_nan() {
            self.total_position() + 0x1_0000_0000
        } else {
            self.total_position()
        }
    }

    fn high_position(self) -> (r: i64)
        ensures
            r == self.high_key(),
    {
        if self.is_nan() {
            self.total_position() - 0x1_0000_0000
        } else {
            self.total_position()
        }
    }

    /// The smaller of the two, see [`Scalar::min_of`].
    pub fn min(self, other: Scalar) -> (r: Scalar)
        ensures
            r == self.min_of(other),
    {
        if other.low_position() < self.low_position() {
            other
        } else {
            self
        }
    }

    /// The larger of the two, see [`Scalar::max_of`].
    pub fn max(self, other: Scalar) -> (r: Scalar)
        ensures
            r == self.max_of(other),
    {
        if other.high_position() > self.high_position() {
            other
        } else {
            self
        }
    }

    /// The number with the opposite sign.
    pub fn neg(self) -> (r: Scalar)
        ensures
            r == self.negated(),
    {
        if self.bits >= SIGN_BIT {
            Scalar { bits: self.bits - SIGN_BIT }
        } else {
            Scalar { bits: self.bits + SIGN_BIT }
        }
    }

    /// The number as a byte: cut off after the point and held to
    /// `0..=255`, see [`Scalar::whole_byte`].
    pub fn to_u8(self) -> (r: u8)
        ensures
            r == self.whole_byte(),
    {
        if self.is_nan() || self.bits >= SIGN_BIT {
            return 0;
        }
        let exponent: u32 = self.bits / HIDDEN_BIT;
        let fraction: u32 = self.bits % HIDDEN_BIT;
        if exponent < 127 {
            return 0;
        }
        if exponent >= 135 {
            return 255;
        }
        let significand: u32 = HIDDEN_BIT + fraction;
        let mut whole: u32 = significand;
        let mut k: u32 = exponent;
        proof {
            lemma2_to64();
            assert(pow2((k - exponent) as nat) == 1);
        }
        while k < 150
            invariant
                127 <= exponent <= k <= 150,
                exponent < 135,
                significand < 0x100_0000,
                whole == significand as int / (pow2((k - exponent) as nat) as int),
            decreases 150 - k,
        {
            proof {
                lemma_pow2_pos((k - exponent) as nat);
                lemma_pow2_unfold((k - exponent + 1) as nat);
                lemma_div_denominator(significand as int, pow2((k - exponent) as nat) as int, 2);
            }
            whole = whole / 2;
            k = k + 1;
        }
        proof {
            let shift = (150 - exponent) as nat;
            lemma_pow2_pos(shift);
            assert(pow2(shift) >= 0x1_0000) by {
                if shift > 16 {
                    vstd::arithmetic::power2::lemma_pow2_strictly_increases(16, shift);
                }
            }
            lemma_div_is_ordered_by_denominator(significand as int, 0x1_0000, pow2(shift) as int);
        }
        whole as u8
    }

    /// The number without its sign.
    pub fn abs(self) -> (r: Scalar)
        ensures
            r == self.absolute(),
    {
        Scalar { bits: self.magnitude_bits() }
    }
}

/// The total order tells bit patterns apart: two patterns of one rank are
/// one pattern.
pub proof fn lemma_rank_injective(a: Scalar, b: Scalar)
    requires
        a.rank() == b.rank(),
    ensures
        a == b,
{
}

/// The keys by which `min` and `max` choose tell bit patterns apart.
pub proof fn lemma_keys_injective(a: Scalar, b: Scalar)
    ensures
        a.low_key() == b.low_key() ==> a == b,
        a.high_key() == b.high_key() ==> a == b,
{
    if a.low_key() == b.low_key() {
        lemma_rank_injective(a, b);
    }
    if a.high_key() == b.high_key() {
        lemma_rank_injective(a, b);
    }
}

/// Of two numbers, `min` is a number that is at most either, and `max` a
/// number that either is at most.
pub proof fn lemma_min_max_bound(a: Scalar, b: Scalar)
    requires
        !a.nan(),
        !b.nan(),
    ensures
        !a.min_of(b).nan(),
        !a.max_of(b).nan(),
        a.min_of(b).at_most(a),
        a.min_of(b).at_most(b),
        a.at_most(a.max_of(b)),
        b.at_most(a.max_of(b)),
{
}

/// `min` and `max` pick one of their arguments, do not depend on the order
/// of the arguments, and may be regrouped.
pub proof fn lemma_min_max_lattice(a: Scalar, b: Scalar, c: Scalar)
    ensures
        a.min_of(b) == a || a.min_of(b) == b,
        a.max_of(b) == a || a.max_of(b) == b,
        a.min_of(a) == a,
        a.max_of(a) == a,
        a.min_of(b) == b.min_of(a),
        a.max_of(b) == b.max_of(a),
        a.min_of(b).min_of(c) == a.min_of(b.min_of(c)),
        a.max_of(b).max_of(c) == a.max_of(b.max_of(c)),
{
    if a.low_key() == b.low_key() {
        lemma_rank_injective(a, b);
    }
    if a.high_key() == b.high_key() {
        lemma_rank_injective(a, b);
    }
    if b.low_key() == c.low_key() {
        lemma_rank_injective(b, c);
    }
    if b.high_key() == c.high_key() {
        lemma_rank_injective(b, c);
    }
    if a.low_key() == c.low_key() {
        lemma_rank_injective(a, c);
    }
    if a.high_key() == c.high_key() {
        lemma_rank_injective(a, c);
    }
}

} // verus!
