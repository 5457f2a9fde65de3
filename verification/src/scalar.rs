//! Real numbers of double precision, held by their IEEE-754 binary64 bit patterns.
//!
//! The library never does arithmetic on a scalar: it compares scalars, negates
//! them and picks the smaller or larger of two. All of these are exact on the
//! bit pattern, so they are defined and proved here on integers.

use vstd::prelude::*;

verus! {

/// The sign bit of a binary64 pattern.
pub const SIGN_BIT: u64 = 0x8000_0000_0000_0000;

/// Everything but the sign bit: exponent and fraction.
pub const MAGNITUDE_MASK: u64 = 0x7FFF_FFFF_FFFF_FFFF;

/// The pattern of positive infinity; a larger magnitude is not a number.
pub const INFINITY_BITS: u64 = 0x7FF0_0000_0000_0000;

/// The pattern of the number one.
pub const ONE_BITS: u64 = 0x3FF0_0000_0000_0000;

/// A double-precision number as its bit pattern.
#[derive(Clone, Copy, Debug)]
pub struct Scalar {
    pub bits: u64,
}

impl Scalar {
    /// Exponent and fraction read as one unsigned integer. Among numbers of one
    /// sign, a larger magnitude is further from zero.
    pub open spec fn magnitude(self) -> int {
        (self.bits & MAGNITUDE_MASK) as int
    }

    /// Whether the sign bit is set.
    pub open spec fn is_negative(self) -> bool {
        self.bits & SIGN_BIT != 0
    }

    /// Whether the pattern encodes no number at all.
    pub open spec fn is_nan(self) -> bool {
        self.magnitude() > INFINITY_BITS
    }

    /// The place of a number on the number line: two numbers compare as their
    /// ranks do. Both zeros have rank zero.
    pub open spec fn rank(self) -> int {
        if self.is_negative() {
            -self.magnitude()
        } else {
            self.magnitude()
        }
    }

    /// `self < other`; false as soon as either side is not a number.
    pub open spec fn lt(self, other: Scalar) -> bool {
        !self.is_nan() && !other.is_nan() && self.rank() < other.rank()
    }

    /// `self <= other`; false as soon as either side is not a number.
    pub open spec fn le(self, other: Scalar) -> bool {
        !self.is_nan() && !other.is_nan() && self.rank() <= other.rank()
    }

    /// Numeric equality: both are numbers of the same rank.
    pub open spec fn same(self, other: Scalar) -> bool {
        !self.is_nan() && !other.is_nan() && self.rank() == other.rank()
    }

    /// The pattern with its sign bit flipped.
    pub open spec fn negated(self) -> Scalar {
        Scalar { bits: self.bits ^ SIGN_BIT }
    }

    /// The pattern with its sign bit cleared.
    pub open spec fn absolute(self) -> Scalar {
        Scalar { bits: self.bits & MAGNITUDE_MASK }
    }

    /// The smaller of two scalars; `self` unless `other` is strictly smaller.
    pub open spec fn lesser(self, other: Scalar) -> Scalar {
        if other.lt(self) {
            other
        } else {
            self
        }
    }

    /// The larger of two scalars; `self` unless `other` is strictly larger.
    pub open spec fn greater(self, other: Scalar) -> Scalar {
        if self.lt(other) {
            other
        } else {
            self
        }
    }

    pub fn from_bits(bits: u64) -> (s: Scalar)
        ensures
            s.bits == bits,
    {
        Scalar { bits }
    }

    pub fn to_bits(self) -> (bits: u64)
        ensures
            bits == self.bits,
    {
        self.bits
    }

    /// Positive zero.
    pub fn zero() -> (s: Scalar)
        ensures
            s.bits == 0,
            !s.is_nan(),
            s.rank() == 0,
    {
        assert(0u64 & MAGNITUDE_MASK == 0) by (bit_vector);
        assert(0u64 & SIGN_BIT == 0) by (bit_vector);
        Scalar { bits: 0 }
    }

    /// The number one.
    pub fn one() -> (s: Scalar)
        ensures
            s.bits == ONE_BITS,
            !s.is_nan(),
            s.rank() == ONE_BITS,
    {
        assert(ONE_BITS & MAGNITUDE_MASK == ONE_BITS) by (bit_vector);
        assert(ONE_BITS & SIGN_BIT == 0) by (bit_vector);
        Scalar { bits: ONE_BITS }
    }

    /// Positive infinity: no number ranks above it.
    pub fn infinity() -> (s: Scalar)
        ensures
            s.bits == INFINITY_BITS,
            !s.is_nan(),
            s.rank() == INFINITY_BITS,
            forall|x: Scalar| !x.is_nan() ==> x.le(s),
    {
        assert(INFINITY_BITS & MAGNITUDE_MASK == INFINITY_BITS) by (bit_vector);
        assert(INFINITY_BITS & SIGN_BIT == 0) by (bit_vector);
        Scalar { bits: INFINITY_BITS }
    }

    /// Whether the pattern encodes no number.
    pub fn nan(self) -> (b: bool)
        ensures
            b == self.is_nan(),
    {
        (self.bits & MAGNITUDE_MASK) > INFINITY_BITS
    }

    /// Whether `self` ranks strictly below `other`. Unlike `less` this orders
    /// every pattern, numbers or not, and so serves as a sorting order.
    pub fn ranks_below(self, other: Scalar) -> (b: bool)
        ensures
            b == (self.rank() < other.rank()),
    {
        let a: u64 = self.bits & MAGNITUDE_MASK;
        let b: u64 = other.bits & MAGNITUDE_MASK;
        let a_negative = self.bits & SIGN_BIT != 0;
        let b_negative = other.bits & SIGN_BIT != 0;
        if a_negative {
            if b_negative {
                b < a
            } else {
                a != 0 || b != 0
            }
        } else {
            if b_negative {
                false
            } else {
                a < b
            }
        }
    }

    /// Strict comparison, as the hardware compares two doubles.
    pub fn less(self, other: Scalar) -> (b: bool)
        ensures
            b == self.lt(other),
    {
        !self.nan() && !other.nan() && self.ranks_below(other)
    }

    /// Comparison that admits equality, as the hardware compares two doubles.
    pub fn at_most(self, other: Scalar) -> (b: bool)
        ensures
            b == self.le(other),
    {
        if self.nan() || other.nan() {
            return false;
        }
        !other.less(self)
    }

    /// The same number with the opposite sign.
    pub fn neg(self) -> (s: Scalar)
        ensures
            s == self.negated(),
    {
        Scalar { bits: self.bits ^ SIGN_BIT }
    }

    /// The same number without its sign.
    pub fn abs(self) -> (s: Scalar)
        ensures
            s == self.absolute(),
    {
        Scalar { bits: self.bits & MAGNITUDE_MASK }
    }

    /// The smaller of the two; `self` when neither is strictly smaller.
    pub fn min(self, other: Scalar) -> (s: Scalar)
        ensures
            s == self.lesser(other),
    {
        if other.less(self) {
            other
        } else {
            self
        }
    }

    /// The larger of the two; `self` when neither is strictly larger.
    pub fn max(self, other: Scalar) -> (s: Scalar)
        ensures
            s == self.greater(other),
    {
        if self.less(other) {
            other
        } else {
            self
        }
    }
}

/// Negation mirrors a number about zero: the magnitude stays, the sign flips,
/// and what is not a number stays so.
pub proof fn lemma_negated(x: Scalar)
    ensures
        x.negated().magnitude() == x.magnitude(),
        x.negated().is_negative() == !x.is_negative(),
        x.negated().is_nan() == x.is_nan(),
        x.negated().rank() == -x.rank(),
        x.negated().negated() == x,
{
    let b = x.bits;
    assert((b ^ SIGN_BIT) & MAGNITUDE_MASK == b & MAGNITUDE_MASK) by (bit_vector);
    assert(((b ^ SIGN_BIT) & SIGN_BIT != 0) == (b & SIGN_BIT == 0)) by (bit_vector);
    assert((b ^ SIGN_BIT) ^ SIGN_BIT == b) by (bit_vector);
}

/// The absolute value keeps the magnitude and drops the sign: it is the
/// number itself or its opposite, and never below zero.
pub proof fn lemma_absolute(x: Scalar)
    ensures
        x.absolute().magnitude() == x.magnitude(),
        !x.absolute().is_negative(),
        x.absolute().is_nan() == x.is_nan(),
        x.absolute().rank() == x.magnitude(),
        x.absolute().rank() == if x.is_negative() { -x.rank() } else { x.rank() },
{
    let b = x.bits;
    assert((b & MAGNITUDE_MASK) & MAGNITUDE_MASK == b & MAGNITUDE_MASK) by (bit_vector);
    assert((b & MAGNITUDE_MASK) & SIGN_BIT == 0) by (bit_vector);
}

} // verus!
