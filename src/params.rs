//! How many bits an item sets: the total that keeps false positives lowest
//! for a given load, and its split into signature rounds and sparse hashes.
use vstd::prelude::*;

verus! {

/// ln 2 to fifteen decimal places, as the ratio `LN2_NUM / LN2_DEN`.
pub const LN2_NUM: u128 = 693_147_180_559_945;

pub const LN2_DEN: u128 = 1_000_000_000_000_000;

/// `max(1, round(ln 2 * min(B / items_per_block, B * B / 1024)))`, for blocks of
/// `block_bits` bits, `num_blocks` blocks and `items` expected items.
///
/// `B / items_per_block` is `B * num_blocks / items`. The cap,
/// `(B / 64) * (32 ln 2) * (B / 512)`, keeps small blocks from filling up; with
/// no items expected the cap applies.
pub open spec fn optimal_hashes_spec(block_bits: int, num_blocks: int, items: int) -> int {
    let r = if items > 0 && num_blocks * 1024 <= block_bits * items {
        (2 * LN2_NUM * block_bits * num_blocks + LN2_DEN * items) / (2 * LN2_DEN * items)
    } else {
        (2 * LN2_NUM * block_bits * block_bits + LN2_DEN * 1024) / (2 * LN2_DEN * 1024)
    };
    if r < 1 {
        1
    } else {
        r
    }
}

/// The total hashes per item that minimise false positives.
pub fn optimal_hashes(block_bits: usize, num_blocks: usize, items: usize) -> (r: u64)
    requires
        64 <= block_bits <= 512,
    ensures
        r as int == optimal_hashes_spec(block_bits as int, num_blocks as int, items as int),
        1 <= r <= 512,
{
    let b = block_bits as u128;
    let nb = num_blocks as u128;
    let m = items as u128;
    let r: u128;
    assert(b * m <= 512 * 0x1_0000_0000_0000_0000) by (nonlinear_arith)
        requires
            b <= 512,
            m < 0x1_0000_0000_0000_0000,
    ;
    if items > 0 && nb * 1024 <= b * m {
        assert(2 * (LN2_NUM as int) * (b as int) * (nb as int) <= 0x4000_0000_0000_0000_0000_0000_0000_0000) by (
        nonlinear_arith)
            requires
                b <= 512,
                nb < 0x1_0000_0000_0000_0000,
        ;
        assert((LN2_DEN as int) * (m as int) <= 0x4000_0000_0000_0000_0000_0000_0000_0000) by (nonlinear_arith)
            requires
                m < 0x1_0000_0000_0000_0000,
        ;
        let num: u128 = 2 * LN2_NUM * b * nb + LN2_DEN * m;
        let den: u128 = 2 * LN2_DEN * m;
        assert(num <= den * 512) by (nonlinear_arith)
            requires
                num == 2 * LN2_NUM * b * nb + LN2_DEN * m,
                den == 2 * LN2_DEN * m,
                nb * 1024 <= b * m,
                b <= 512,
                m > 0,
        ;
        assert(num / den <= 512) by (nonlinear_arith)
            requires
                num <= den * 512,
                den > 0,
        ;
        r = num / den;
    } else {
        assert(2 * (LN2_NUM as int) * (b as int) * (b as int) <= 0x4000_0000_0000_0000_0000_0000_0000_0000) by (
        nonlinear_arith)
            requires
                b <= 512,
        ;
        let num: u128 = 2 * LN2_NUM * b * b + LN2_DEN * 1024;
        let den: u128 = 2 * LN2_DEN * 1024;
        assert(num <= den * 512) by (nonlinear_arith)
            requires
                num == 2 * LN2_NUM * b * b + LN2_DEN * 1024,
                den == 2 * LN2_DEN * 1024,
                b <= 512,
        ;
        assert(num / den <= 512) by (nonlinear_arith)
            requires
                num <= den * 512,
                den > 0,
        ;
        r = num / den;
    }
    if r < 1 {
        1
    } else {
        r as u64
    }
}

/// Signature rounds for `total` hashes over `words` words per block: the
/// whole rounds, or none when there are none.
pub open spec fn rounds_for(total: int, words: int) -> Option<u64> {
    if total / words == 0 {
        None
    } else {
        Some((total / words) as u64)
    }
}

/// Splits `total` hashes into whole signature rounds, one bit per word of
/// the block each, and the sparse hashes left over.
pub fn split_hashes(total: u64, words: u64) -> (r: (Option<u64>, u64))
    requires
        words > 0,
    ensures
        r.0 == rounds_for(total as int, words as int),
        r.1 == total % words,
        total == (match r.0 {
            Some(k) => k as int,
            None => 0,
        }) * words + r.1,
{
    let rounds = total / words;
    let rest = total % words;
    assert(total == rounds * words + rest) by (nonlinear_arith)
        requires
            rounds == total / words,
            rest == total % words,
            words > 0,
    ;
    if rounds == 0 {
        (None, rest)
    } else {
        (Some(rounds), rest)
    }
}

} // verus!
