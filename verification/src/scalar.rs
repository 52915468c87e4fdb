//! Double-precision numbers held by their bit pattern.
//!
//! The simulation stores coordinates, strengths and treasuries as binary64 values. The library
//! never adds or multiplies them: it validates, orders and selects them, and for that the bit
//! pattern is enough. Arithmetic results arrive from the caller as further values of this type.

use vstd::prelude::*;

verus! {

/// Bit pattern of the sign.
pub const SIGN_BIT: u64 = 0x8000_0000_0000_0000;

/// Bit pattern of positive infinity; every larger magnitude is not a number.
pub const INFINITY_BITS: u64 = 0x7ff0_0000_0000_0000;

/// Bit pattern of `1.0`.
pub const ONE_BITS: u64 = 0x3ff0_0000_0000_0000;

/// A binary64 value. Two values are `==` when their bit patterns agree; numeric comparison goes
/// through [`Real::less`], [`Real::at_most`] and [`Real::equals`].
#[derive(Clone, Copy, Debug, PartialEq, Eq, Structural)]
pub struct Real {
    pub bits: u64,
}

/// The value with a given bit pattern.
pub open spec fn real_of(bits: u64) -> Real {
    Real { bits }
}

impl Real {
    pub open spec fn negative(self) -> bool {
        self.bits >= SIGN_BIT
    }

    /// The bit pattern without its sign: it grows with the absolute value.
    pub open spec fn magnitude(self) -> int {
        if self.bits >= SIGN_BIT {
            self.bits - SIGN_BIT
        } else {
            self.bits as int
        }
    }

    pub open spec fn nan(self) -> bool {
        self.magnitude() > INFINITY_BITS
    }

    /// Neither infinite nor not-a-number.
    pub open spec fn finite(self) -> bool {
        self.magnitude() < INFINITY_BITS
    }

    /// An integer that orders all values that are numbers as IEEE 754 does; both zeros have rank 0.
    pub open spec fn rank(self) -> int {
        if self.bits >= SIGN_BIT {
            SIGN_BIT - self.bits
        } else {
            self.bits as int
        }
    }

    /// IEEE 754 `<`: false as soon as one side is not a number.
    pub open spec fn lt(self, other: Real) -> bool {
        !self.nan() && !other.nan() && self.rank() < other.rank()
    }

    /// IEEE 754 `<=`.
    pub open spec fn le(self, other: Real) -> bool {
        !self.nan() && !other.nan() && self.rank() <= other.rank()
    }

    /// IEEE 754 `==`: both zeros are equal, not-a-number equals nothing.
    pub open spec fn same(self, other: Real) -> bool {
        !self.nan() && !other.nan() && self.rank() == other.rank()
    }

    /// An integer that orders all bit patterns totally: negative zero comes before positive zero,
    /// negative not-a-number first and positive not-a-number last.
    pub open spec fn total_rank(self) -> int {
        if self.bits >= SIGN_BIT {
            SIGN_BIT - self.bits - 1
        } else {
            self.bits as int
        }
    }

    /// Finite and not below zero.
    pub open spec fn finite_nonnegative(self) -> bool {
        self.finite() && self.rank() >= 0
    }

    /// Finite and within `0.0..=1.0`.
    pub open spec fn unit_interval(self) -> bool {
        self.finite() && 0 <= self.rank() <= ONE_BITS
    }

    pub fn from_bits(bits: u64) -> (value: Real)
        ensures
            value == real_of(bits),
    {
        Real { bits }
    }

    pub fn zero() -> (value: Real)
        ensures
            value == real_of(0),
    {
        Real { bits: 0 }
    }

    pub fn one() -> (value: Real)
        ensures
            value == real_of(ONE_BITS),
    {
        Real { bits: ONE_BITS }
    }

    fn unsigned(self) -> (magnitude: u64)
        ensures
            magnitude == self.magnitude(),
    {
        if self.bits >= SIGN_BIT {
            self.bits - SIGN_BIT
        } else {
            self.bits
        }
    }

    pub fn is_nan(self) -> (answer: bool)
        ensures
            answer == self.nan(),
    {
        self.unsigned() > INFINITY_BITS
    }

    pub fn is_finite(self) -> (answer: bool)
        ensures
            answer == self.finite(),
    {
        self.unsigned() < INFINITY_BITS
    }

    fn signed_rank(self) -> (rank: i128)
        ensures
            rank == self.rank(),
    {
        if self.bits >= SIGN_BIT {
            SIGN_BIT as i128 - self.bits as i128
        } else {
            self.bits as i128
        }
    }

    /// IEEE 754 `<`.
    pub fn less(self, other: Real) -> (answer: bool)
        ensures
            answer == self.lt(other),
    {
        !self.is_nan() && !other.is_nan() && self.signed_rank() < other.signed_rank()
    }

    /// IEEE 754 `<=`.
    pub fn at_most(self, other: Real) -> (answer: bool)
        ensures
            answer == self.le(other),
    {
        !self.is_nan() && !other.is_nan() && self.signed_rank() <= other.signed_rank()
    }

    /// IEEE 754 `==`.
    pub fn equals(self, other: Real) -> (answer: bool)
        ensures
            answer == self.same(other),
    {
        !self.is_nan() && !other.is_nan() && self.signed_rank() == other.signed_rank()
    }

    /// The larger number; a value that is not a number gives way to the other.
    pub open spec fn max_of(self, other: Real) -> Real {
        if self.nan() {
            other
        } else if self.lt(other) {
            other
        } else {
            self
        }
    }

    /// The smaller number; a value that is not a number gives way to the other.
    pub open spec fn min_of(self, other: Real) -> Real {
        if self.nan() {
            other
        } else if other.lt(self) {
            other
        } else {
            self
        }
    }

    /// The nearest value within the bounds; a value that is not a number stays.
    pub open spec fn clamp_of(self, low: Real, high: Real) -> Real {
        if self.lt(low) {
            low
        } else if high.lt(self) {
            high
        } else {
            self
        }
    }

    pub fn clamped(self, low: Real, high: Real) -> (value: Real)
        ensures
            value == self.clamp_of(low, high),
    {
        if self.less(low) {
            low
        } else if high.less(self) {
            high
        } else {
            self
        }
    }

    pub fn larger(self, other: Real) -> (value: Real)
        ensures
            value == self.max_of(other),
    {
        if self.is_nan() || self.less(other) {
            other
        } else {
            self
        }
    }

    pub fn smaller(self, other: Real) -> (value: Real)
        ensures
            value == self.min_of(other),
    {
        if self.is_nan() || other.less(self) {
            other
        } else {
            self
        }
    }

    /// Without its sign.
    pub open spec fn absolute(self) -> Real {
        real_of(
            if self.bits >= SIGN_BIT {
                (self.bits - SIGN_BIT) as u64
            } else {
                self.bits
            },
        )
    }

    pub fn without_sign(self) -> (value: Real)
        ensures
            value == self.absolute(),
    {
        if self.bits >= SIGN_BIT {
            Real { bits: self.bits - SIGN_BIT }
        } else {
            self
        }
    }

    /// Whether this value comes strictly before `other` in the total order of bit patterns.
    pub fn precedes(self, other: Real) -> (answer: bool)
        ensures
            answer == (self.total_rank() < other.total_rank()),
    {
        let left: i128 = if self.bits >= SIGN_BIT {
            SIGN_BIT as i128 - self.bits as i128 - 1
        } else {
            self.bits as i128
        };
        let right: i128 = if other.bits >= SIGN_BIT {
            SIGN_BIT as i128 - other.bits as i128 - 1
        } else {
            other.bits as i128
        };
        left < right
    }

    pub fn is_finite_nonnegative(self) -> (answer: bool)
        ensures
            answer == self.finite_nonnegative(),
    {
        self.is_finite() && (self.bits < SIGN_BIT || self.bits == SIGN_BIT)
    }

    pub fn in_unit_interval(self) -> (answer: bool)
        ensures
            answer == self.unit_interval(),
    {
        self.is_finite() && (self.bits <= ONE_BITS || self.bits == SIGN_BIT)
    }
}

/// `<` is a strict order on the values that are numbers, and `<=` is its complement there.
pub proof fn comparison_is_a_strict_order(a: Real, b: Real, c: Real)
    ensures
        !a.lt(a),
        a.lt(b) && b.lt(c) ==> a.lt(c),
        !a.nan() && !b.nan() ==> (a.le(b) <==> !b.lt(a)),
        !a.nan() && !b.nan() ==> a.lt(b) || a.same(b) || b.lt(a),
{
}

/// The total order tells every two bit patterns apart and refines `<`.
pub proof fn total_order_refines_comparison(a: Real, b: Real)
    ensures
        a.total_rank() == b.total_rank() <==> a == b,
        a.lt(b) ==> a.total_rank() < b.total_rank(),
{
}

} // verus!
