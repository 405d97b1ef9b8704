//! Double-precision numbers held by their bit pattern.

use vstd::prelude::*;

verus! {

/// An IEEE-754 binary64 value, held by its bit pattern. The library only
/// carries such values.
#[derive(Clone, Copy, Debug)]
pub struct Binary64 {
    pub bits: u64,
}

impl Binary64 {
    pub fn from_bits(bits: u64) -> (r: Binary64)
        ensures
            r.bits == bits,
    {
        Binary64 { bits }
    }

    pub fn to_bits(self) -> (bits: u64)
        ensures
            bits == self.bits,
    {
        self.bits
    }
}

} // verus!
