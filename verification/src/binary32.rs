//! Single-precision numbers held by their bit pattern.
//!
//! Telemetry scalars arrive as IEEE-754 binary32 values. The library never
//! does arithmetic on them; it only orders, bounds and stores them, and all of
//! that can be decided exactly from the 32-bit pattern.

use vstd::prelude::*;

verus! {

/// Pattern of the sign bit.
pub const SIGN_BIT: u32 = 0x8000_0000;

/// Pattern of positive infinity: every magnitude above it is a NaN.
pub const INFINITY_BITS: u32 = 0x7f80_0000;

/// An IEEE-754 binary32 value, held by its bit pattern.
#[derive(Clone, Copy, Debug)]
pub struct Binary32 {
    pub bits: u32,
}

impl Binary32 {
    /// The pattern with the sign bit cleared.
    pub open spec fn magnitude(self) -> int {
        if self.bits >= SIGN_BIT {
            self.bits - SIGN_BIT
        } else {
            self.bits as int
        }
    }

    /// Whether the pattern encodes no number.
    pub open spec fn nan(self) -> bool {
        self.magnitude() > INFINITY_BITS
    }

    /// An integer that orders the numbers as the numbers themselves are
    /// ordered: for two patterns that are numbers, one is numerically below
    /// the other exactly when its key is smaller. Both zeros have key 0.
    pub open spec fn key(self) -> int {
        if self.bits >= SIGN_BIT {
            -self.magnitude()
        } else {
            self.magnitude()
        }
    }

    /// Numerically less; false as soon as either side is a NaN.
    pub open spec fn below(self, other: Binary32) -> bool {
        !self.nan() && !other.nan() && self.key() < other.key()
    }

    /// Numerically less or equal; false as soon as either side is a NaN.
    pub open spec fn at_most(self, other: Binary32) -> bool {
        !self.nan() && !other.nan() && self.key() <= other.key()
    }

    pub fn from_bits(bits: u32) -> (r: Binary32)
        ensures
            r.bits == bits,
    {
        Binary32 { bits }
    }

    pub fn to_bits(self) -> (bits: u32)
        ensures
            bits == self.bits,
    {
        self.bits
    }

    fn magnitude_bits(self) -> (m: u32)
        ensures
            m == self.magnitude(),
    {
        if self.bits >= SIGN_BIT {
            self.bits - SIGN_BIT
        } else {
            self.bits
        }
    }

    pub fn is_nan(self) -> (r: bool)
        ensures
            r == self.nan(),
    {
        self.magnitude_bits() > INFINITY_BITS
    }

    /// The integer by which the numbers are ordered.
    pub fn order_key(self) -> (k: i64)
        ensures
            k == self.key(),
    {
        let m: i64 = self.magnitude_bits() as i64;
        if self.bits >= SIGN_BIT {
            -m
        } else {
            m
        }
    }

    /// `self < other` as the numbers compare.
    pub fn lt(self, other: Binary32) -> (r: bool)
        ensures
            r == self.below(other),
    {
        !self.is_nan() && !other.is_nan() && self.order_key() < other.order_key()
    }

    /// `self <= other` as the numbers compare.
    pub fn le(self, other: Binary32) -> (r: bool)
        ensures
            r == self.at_most(other),
    {
        !self.is_nan() && !other.is_nan() && self.order_key() <= other.order_key()
    }

    /// `self > other` as the numbers compare.
    pub fn gt(self, other: Binary32) -> (r: bool)
        ensures
            r == other.below(self),
    {
        other.lt(self)
    }

    /// `self >= other` as the numbers compare.
    pub fn ge(self, other: Binary32) -> (r: bool)
        ensures
            r == other.at_most(self),
    {
        other.le(self)
    }

    /// Restricts a number to the interval from `lo` to `hi`: `lo` where it
    /// is below, `hi` where it is above, itself otherwise (a NaN among them).
    pub fn clamp(self, lo: Binary32, hi: Binary32) -> (r: Binary32)
        requires
            lo.at_most(hi),
        ensures
            r.bits == (if self.below(lo) {
                lo.bits
            } else if hi.below(self) {
                hi.bits
            } else {
                self.bits
            }),
            !self.nan() ==> lo.at_most(r) && r.at_most(hi),
    {
        if self.lt(lo) {
            lo
        } else if self.gt(hi) {
            hi
        } else {
            self
        }
    }
}

} // verus!
