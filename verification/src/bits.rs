//! Bit masks: whether a mask holds a flag.

use vstd::prelude::*;

verus! {

/// Whether the mask `value` holds every bit of `bit`.
pub closed spec fn has_bits(value: u32, bit: u32) -> bool {
    value & bit == bit
}

/// What [`has_bits`] means: the bits of `bit` that `value` holds are all of them.
pub proof fn lemma_has_bits(value: u32, bit: u32)
    ensures
        has_bits(value, bit) == (value & bit == bit),
{
}

/// Whether the mask `value` holds every bit of `bit`.
pub fn contains_bits(value: u32, bit: u32) -> (r: bool)
    ensures
        r == has_bits(value, bit),
{
    value & bit == bit
}

} // verus!
