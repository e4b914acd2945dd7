//! Signature masks: several derived bit positions of one 64-bit word, or'ed
//! together.
use vstd::prelude::*;
use crate::hashing::{nth_hash, next_hash};

verus! {

/// The or of `1 << (h & 63)` over the first `rounds` derived hashes after `h1`.
pub open spec fn signature_spec(h1: u64, h2: u64, rounds: nat) -> u64
    decreases rounds,
{
    if rounds == 0 {
        0u64
    } else {
        signature_spec(h1, h2, (rounds - 1) as nat) | (1u64 << (nth_hash(h1, h2, rounds) & 63u64))
    }
}

/// Builds a signature mask from the next `num_rounds` derived hashes, and
/// leaves `h1` that many steps further on.
pub fn signature(h1: &mut u64, h2: u64, num_rounds: u64) -> (r: u64)
    ensures
        r == signature_spec(*old(h1), h2, num_rounds as nat),
        *final(h1) == nth_hash(*old(h1), h2, num_rounds as nat),
{
    let ghost start = *h1;
    let mut d: u64 = 0;
    let mut i: u64 = 0;
    while i < num_rounds
        invariant
            i <= num_rounds,
            *h1 == nth_hash(start, h2, i as nat),
            d == signature_spec(start, h2, i as nat),
        decreases num_rounds - i,
    {
        let h = next_hash(h1, h2);
        let shift: u64 = h & 63u64;
        assert(shift < 64) by (bit_vector)
            requires
                shift == h & 63u64,
        ;
        d = d | (1u64 << shift);
        i = i + 1;
    }
    d
}

} // verus!
