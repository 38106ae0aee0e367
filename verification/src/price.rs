//! Prices.
//!
//! A price is a binary64 floating-point number. The library never computes
//! with prices: it stores them, hands them back, and decides whether one may be
//! stored. All three need only the number's bit pattern, so that is what a
//! [`Price`] holds.

use vstd::prelude::*;

verus! {

/// The bit pattern of positive infinity. The binary64 numbers above zero are
/// those whose bit pattern is above zero and no larger than this one: the
/// patterns beyond it are the NaNs and, with the sign bit set, zero and the
/// negative numbers.
pub const INFINITY_BITS: u64 = 0x7FF0_0000_0000_0000u64;

/// A price, held as the IEEE 754 binary64 bit pattern of its amount.
#[derive(Clone, Copy, Debug, PartialEq, Eq, Structural)]
pub struct Price {
    pub bits: u64,
}

impl Price {
    /// Whether the amount is above zero: the sign bit is clear, the number is
    /// not zero, and it is not a NaN. Positive infinity is above zero.
    pub open spec fn is_positive(self) -> bool {
        0 < self.bits <= INFINITY_BITS
    }

    /// The price with the given bit pattern.
    pub fn from_bits(bits: u64) -> (p: Price)
        ensures
            p.bits == bits,
    {
        Price { bits }
    }

    /// The bit pattern of the amount.
    pub fn to_bits(&self) -> (bits: u64)
        ensures
            bits == self.bits,
    {
        self.bits
    }

    /// Decides [`Price::is_positive`].
    pub fn check_positive(&self) -> (b: bool)
        ensures
            b == self.is_positive(),
    {
        0 < self.bits && self.bits <= INFINITY_BITS
    }
}

} // verus!
