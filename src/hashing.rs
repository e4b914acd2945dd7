//! Expansion of one 64-bit source hash into a stream of derived hashes, and
//! the reductions of those hashes to a block and to a bit inside a block.
use vstd::prelude::*;

verus! {

/// Multiplier that spreads the high half of the source hash over the whole
/// second seed (about 2^64 / pi).
pub const SEED_MIX: u64 = 0x517c_c1b7_2722_0a95;

/// One step of the derived-hash stream: `(h1 + h2) rotated left by 5`, with
/// a wrapping addition.
pub open spec fn step(h1: u64, h2: u64) -> u64 {
    let s = h1.wrapping_add(h2);
    (s << 5u64) | (s >> 59u64)
}

/// The value of `h1` after `n` steps of the stream.
pub open spec fn nth_hash(h1: u64, h2: u64, n: nat) -> u64
    decreases n,
{
    if n == 0 {
        h1
    } else {
        step(nth_hash(h1, h2, (n - 1) as nat), h2)
    }
}

/// The second seed, derived from the first.
pub open spec fn second_seed(h1: u64) -> u64 {
    (h1 >> 32u64).wrapping_mul(SEED_MIX)
}

/// Fast range reduction of the high half of `h` onto `0..num_blocks`.
pub open spec fn block_index_spec(num_blocks: int, h: u64) -> int {
    ((h >> 32u64) as int * num_blocks) / 0x1_0000_0000
}

/// Walking `a` steps and then `b` steps is walking `a + b` steps.
pub proof fn lemma_nth_hash_add(h1: u64, h2: u64, a: nat, b: nat)
    ensures
        nth_hash(nth_hash(h1, h2, a), h2, b) == nth_hash(h1, h2, a + b),
    decreases b,
{
    if b > 0 {
        lemma_nth_hash_add(h1, h2, a, (b - 1) as nat);
        assert((a + b - 1) as nat == a + (b - 1) as nat);
    }
}

/// Advances the stream by one step and returns the new value of `h1`.
pub fn next_hash(h1: &mut u64, h2: u64) -> (r: u64)
    ensures
        *final(h1) == step(*old(h1), h2),
        r == *final(h1),
{
    let s = h1.wrapping_add(h2);
    *h1 = (s << 5u64) | (s >> 59u64);
    *h1
}

/// Derives the second seed from the source hash.
pub fn seed_pair(h1: u64) -> (r: (u64, u64))
    ensures
        r.0 == h1,
        r.1 == second_seed(h1),
{
    (h1, (h1 >> 32u64).wrapping_mul(SEED_MIX))
}

/// The block that a source hash selects, always below `num_blocks`.
pub fn block_index(num_blocks: usize, hash: u64) -> (r: usize)
    requires
        num_blocks > 0,
    ensures
        r as int == block_index_spec(num_blocks as int, hash),
        r < num_blocks,
{
    let hi: u64 = hash >> 32u64;
    assert(hi < 0x1_0000_0000) by (bit_vector)
        requires
            hi == hash >> 32u64,
    ;
    assert((hi as int) * (num_blocks as int) < 0x1_0000_0000 * 0x1_0000_0000_0000_0000)
        by (nonlinear_arith)
        requires
            hi < 0x1_0000_0000,
            num_blocks < 0x1_0000_0000_0000_0000,
    ;
    let prod: u128 = (hi as u128) * (num_blocks as u128);
    assert(prod < (num_blocks as int) * 0x1_0000_0000) by (nonlinear_arith)
        requires
            prod == hi as int * num_blocks as int,
            hi < 0x1_0000_0000,
            num_blocks > 0,
    ;
    let r: u128 = prod >> 32u128;
    assert(r == prod / 0x1_0000_0000) by (bit_vector)
        requires
            r == prod >> 32u128,
    ;
    r as usize
}

} // verus!
