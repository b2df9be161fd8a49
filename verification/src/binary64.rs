//! IEEE 754 binary64 values as bit patterns, and their order.

use vstd::prelude::*;

verus! {

/// The sign bit of a binary64 pattern.
pub const SIGN_BIT: u64 = 0x8000_0000_0000_0000u64;

/// The pattern of positive infinity: all exponent bits set, no fraction bit.
pub const INFINITY_BITS: u64 = 0x7ff0_0000_0000_0000u64;

/// A binary64 value, held as its 64-bit pattern: one sign bit, eleven
/// exponent bits, fifty-two fraction bits. `==` on this type compares
/// patterns; [`Binary64::same`] compares the numbers.
#[derive(Clone, Copy, Debug, PartialEq, Eq, Structural)]
pub struct Binary64 {
    pub bits: u64,
}

impl Binary64 {
    /// The sign bit is set. True of `-0` and of half of the NaN patterns too.
    pub open spec fn sign_negative(self) -> bool {
        self.bits >= SIGN_BIT
    }

    /// The pattern without its sign bit.
    pub open spec fn magnitude(self) -> int {
        if self.sign_negative() {
            self.bits - SIGN_BIT
        } else {
            self.bits as int
        }
    }

    /// The value is not a number: its magnitude lies above infinity's.
    pub open spec fn nan(self) -> bool {
        self.magnitude() > INFINITY_BITS
    }

    /// Where a value that is a number stands on the number line, relative to
    /// the others: among patterns of one sign the magnitudes are ordered as
    /// the values are, and both zeros stand at 0.
    pub open spec fn rank(self) -> int {
        if self.sign_negative() {
            -self.magnitude()
        } else {
            self.magnitude()
        }
    }

    /// `self <= other` as IEEE 754 compares: false as soon as either side is
    /// not a number.
    pub open spec fn at_most(self, other: Binary64) -> bool {
        !self.nan() && !other.nan() && self.rank() <= other.rank()
    }

    /// `self > other` as IEEE 754 compares: false as soon as either side is
    /// not a number.
    pub open spec fn above(self, other: Binary64) -> bool {
        !self.nan() && !other.nan() && self.rank() > other.rank()
    }

    /// `self == other` as IEEE 754 compares: the two zeros are equal, and a
    /// value that is not a number equals nothing.
    pub open spec fn same_number(self, other: Binary64) -> bool {
        !self.nan() && !other.nan() && self.rank() == other.rank()
    }

    /// Wraps a bit pattern.
    pub fn from_bits(bits: u64) -> (value: Binary64)
        ensures
            value.bits == bits,
    {
        Binary64 { bits }
    }

    /// The bit pattern.
    pub fn to_bits(self) -> (bits: u64)
        ensures
            bits == self.bits,
    {
        self.bits
    }

    /// Whether the value is not a number.
    pub fn is_nan(self) -> (b: bool)
        ensures
            b == self.nan(),
    {
        if self.bits >= SIGN_BIT {
            self.bits - SIGN_BIT > INFINITY_BITS
        } else {
            self.bits > INFINITY_BITS
        }
    }

    /// Whether `self <= other` holds as IEEE 754 compares.
    pub fn le(self, other: Binary64) -> (b: bool)
        ensures
            b == self.at_most(other),
    {
        if self.is_nan() || other.is_nan() {
            return false;
        }
        let left_negative: bool = self.bits >= SIGN_BIT;
        let right_negative: bool = other.bits >= SIGN_BIT;
        if left_negative {
            if right_negative {
                self.bits >= other.bits
            } else {
                true
            }
        } else {
            if right_negative {
                self.bits == 0 && other.bits == SIGN_BIT
            } else {
                self.bits <= other.bits
            }
        }
    }

    /// Whether `self == other` holds as IEEE 754 compares.
    pub fn same(self, other: Binary64) -> (b: bool)
        ensures
            b == self.same_number(other),
    {
        self.le(other) && other.le(self)
    }
}

/// Among numbers `at_most` is a total preorder, `above` is its complement and
/// `same_number` is being below and above at once.
pub proof fn order_of_numbers(a: Binary64, b: Binary64, c: Binary64)
    requires
        !a.nan(),
        !b.nan(),
        !c.nan(),
    ensures
        a.at_most(a),
        a.at_most(b) || b.at_most(a),
        a.at_most(b) && b.at_most(c) ==> a.at_most(c),
        a.above(b) <==> !a.at_most(b),
        a.same_number(b) <==> a.at_most(b) && b.at_most(a),
{
}

/// A value that is not a number is neither below, nor above, nor equal to
/// anything, itself included.
pub proof fn nan_is_unordered(a: Binary64, b: Binary64)
    requires
        a.nan() || b.nan(),
    ensures
        !a.at_most(b),
        !a.above(b),
        !a.same_number(b),
{
}

} // verus!
