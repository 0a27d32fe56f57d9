//! Double-precision numbers, held by their bit pattern.
//!
//! The scheduler carries weights, rewards and densities around, compares them and clamps them.
//! None of that needs arithmetic, only the order of the IEEE 754 binary64 encoding, which is an
//! order of integers: the sign bit, then the magnitude. What does need arithmetic (square roots,
//! exponentials, means) is worked out by the caller and handed in.

use vstd::prelude::*;

verus! {

/// The weight of the sign bit.
pub const SIGN_WEIGHT: u64 = 0x8000_0000_0000_0000;

/// The magnitude of an infinity; larger magnitudes encode NaN.
pub const INFINITE_MAGNITUDE: u64 = 0x7FF0_0000_0000_0000;

/// The bit pattern of 1.0.
pub const ONE_BITS: u64 = 0x3FF0_0000_0000_0000;

/// The bit pattern of 0.5.
pub const HALF_BITS: u64 = 0x3FE0_0000_0000_0000;

/// The bit pattern of the canonical quiet NaN.
pub const NAN_BITS: u64 = 0x7FF8_0000_0000_0000;

/// An IEEE 754 binary64 number.
#[derive(Clone, Copy, PartialEq, Eq, Structural, Debug)]
pub struct Double {
    /// The encoding, as `f64::to_bits` gives it.
    pub bits: u64,
}

impl Double {
    /// The encoding without its sign bit.
    pub open spec fn magnitude(self) -> int {
        self.bits as int % SIGN_WEIGHT as int
    }

    /// Is the sign bit set?
    pub open spec fn signed(self) -> bool {
        self.bits >= SIGN_WEIGHT
    }

    /// Is this one of the encodings of "not a number"?
    pub open spec fn nan(self) -> bool {
        self.magnitude() > INFINITE_MAGNITUDE
    }

    /// Neither infinite nor NaN.
    pub open spec fn finite(self) -> bool {
        self.magnitude() < INFINITE_MAGNITUDE
    }

    /// An integer that orders the numbers as their values do. The two zeros share one rank.
    pub open spec fn rank(self) -> int {
        if self.signed() {
            -self.magnitude()
        } else {
            self.magnitude()
        }
    }

    /// `self < other`, which is false as soon as one of the two is NaN.
    pub open spec fn below(self, other: Double) -> bool {
        !self.nan() && !other.nan() && self.rank() < other.rank()
    }

    /// `self <= other`, which is false as soon as one of the two is NaN.
    pub open spec fn at_most(self, other: Double) -> bool {
        !self.nan() && !other.nan() && self.rank() <= other.rank()
    }

    /// `self == 0.0`.
    pub open spec fn null(self) -> bool {
        self.magnitude() == 0
    }

    /// `self` forced into `[low, high]`: NaN and what already lies inside stay as they are.
    pub open spec fn bounded(self, low: Double, high: Double) -> Double {
        if self.below(low) {
            low
        } else if high.below(self) {
            high
        } else {
            self
        }
    }

    /// `self` forced into `[0, 1]`.
    pub open spec fn unit(self) -> Double {
        self.bounded(Double { bits: 0 }, Double { bits: ONE_BITS })
    }

    /// The number 0.0.
    pub fn zero() -> (r: Double)
        ensures
            r == (Double { bits: 0 }),
    {
        Double { bits: 0 }
    }

    /// The number 1.0.
    pub fn one() -> (r: Double)
        ensures
            r == (Double { bits: ONE_BITS }),
    {
        Double { bits: ONE_BITS }
    }

    /// Is this NaN?
    pub fn is_nan(self) -> (r: bool)
        ensures
            r == self.nan(),
    {
        self.bits % SIGN_WEIGHT > INFINITE_MAGNITUDE
    }

    /// Is this neither infinite nor NaN?
    pub fn is_finite(self) -> (r: bool)
        ensures
            r == self.finite(),
    {
        self.bits % SIGN_WEIGHT < INFINITE_MAGNITUDE
    }

    /// Is this one of the two zeros?
    pub fn is_zero(self) -> (r: bool)
        ensures
            r == self.null(),
    {
        self.bits % SIGN_WEIGHT == 0
    }

    /// `self < other`.
    pub fn lt(self, other: Double) -> (r: bool)
        ensures
            r == self.below(other),
    {
        if self.is_nan() || other.is_nan() {
            return false;
        }
        let a: u64 = self.bits % SIGN_WEIGHT;
        let b: u64 = other.bits % SIGN_WEIGHT;
        if self.bits >= SIGN_WEIGHT {
            if other.bits >= SIGN_WEIGHT {
                b < a
            } else {
                a > 0 || b > 0
            }
        } else if other.bits >= SIGN_WEIGHT {
            false
        } else {
            a < b
        }
    }

    /// `self <= other`.
    pub fn le(self, other: Double) -> (r: bool)
        ensures
            r == self.at_most(other),
    {
        !self.is_nan() && !other.is_nan() && !other.lt(self)
    }

    /// `self` forced into `[low, high]`, for bounds that are numbers in order.
    pub fn clamp(self, low: Double, high: Double) -> (r: Double)
        requires
            low.at_most(high),
        ensures
            r == self.bounded(low, high),
            !self.nan() ==> low.at_most(r) && r.at_most(high),
            self.nan() ==> r == self,
    {
        if self.lt(low) {
            low
        } else if high.lt(self) {
            high
        } else {
            self
        }
    }

    /// `self` forced into `[0, 1]`.
    pub fn clamp_unit(self) -> (r: Double)
        ensures
            r == self.unit(),
    {
        self.clamp(Double::zero(), Double::one())
    }
}

/// Of two numbers, neither NaN, exactly one of "less", "greater" and "same rank" holds.
pub proof fn order_is_total(a: Double, b: Double)
    requires
        !a.nan(),
        !b.nan(),
    ensures
        a.below(b) || b.below(a) || a.rank() == b.rank(),
        !(a.below(b) && b.below(a)),
        a.at_most(b) <==> !b.below(a),
{
}

/// Clamping to the unit interval a second time changes nothing.
pub proof fn unit_is_idempotent(x: Double)
    ensures
        x.unit().unit() == x.unit(),
{
}

/// Forcing a number into an interval keeps what lies inside, takes the lower end for what lies below
/// and the upper end for what lies above, and leaves NaN alone.
pub proof fn bounding_keeps_what_fits(x: Double, low: Double, high: Double)
    requires
        low.at_most(high),
    ensures
        low.at_most(x) && x.at_most(high) ==> x.bounded(low, high) == x,
        x.below(low) ==> x.bounded(low, high) == low,
        high.below(x) ==> x.bounded(low, high) == high,
        x.nan() ==> x.bounded(low, high) == x,
        !x.nan() ==> low.at_most(x.bounded(low, high)) && x.bounded(low, high).at_most(high),
{
}

/// Forcing a number into the unit interval keeps what lies between 0 and 1, takes 0 for what is
/// negative and 1 for what is greater than 1.
pub proof fn unit_keeps_shares(x: Double)
    ensures
        (Double { bits: 0 }).at_most(x) && x.at_most(
            Double { bits: 0x3FF0_0000_0000_0000 },
        ) ==> x.unit() == x,
        x.below(Double { bits: 0 }) ==> x.unit() == (Double { bits: 0 }),
        (Double { bits: 0x3FF0_0000_0000_0000 }).below(x) ==> x.unit() == (Double {
            bits: 0x3FF0_0000_0000_0000,
        }),
        x.nan() ==> x.unit() == x,
{
}

/// NaN is what does not even equal itself, and the finite numbers are what lies strictly between the
/// two infinities.
pub proof fn kinds_of_numbers(x: Double)
    ensures
        x.nan() <==> !x.at_most(x),
        x.finite() <==> (Double { bits: 0xFFF0_0000_0000_0000 }).below(x) && x.below(
            Double { bits: 0x7FF0_0000_0000_0000 },
        ),
        x.null() <==> x.at_most(Double { bits: 0 }) && (Double { bits: 0 }).at_most(x),
{
}

/// The numbers without a sign are ordered as their encodings are, those with a sign the other way
/// round, and the latter come before the former.
pub proof fn order_follows_encoding(x: Double, y: Double)
    requires
        !x.nan(),
        !y.nan(),
    ensures
        x.bits < 0x8000_0000_0000_0000 && y.bits < 0x8000_0000_0000_0000 ==> (x.below(y) <==> x.bits
            < y.bits),
        x.bits >= 0x8000_0000_0000_0000 && y.bits >= 0x8000_0000_0000_0000 ==> (x.below(y)
            <==> x.bits > y.bits),
        x.bits >= 0x8000_0000_0000_0000 && y.bits < 0x8000_0000_0000_0000 ==> x.at_most(y) && (
        x.below(y) <==> x.bits != 0x8000_0000_0000_0000 || y.bits != 0),
        x.at_most(y) <==> !y.below(x),
        x.rank() <= y.rank() <==> x.at_most(y),
{
}

} // verus!
