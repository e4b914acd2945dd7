//! What one item, given by its source hash, sets in its block: for each word
//! of the block, the or of the sparse bits that fall in that word and of the
//! word's signature mask. Inserting ors these masks in; a query asks that
//! every one of them is already set.
use vstd::prelude::*;
use crate::bit_vector::{bit_in_word, valid_word_count, words_per_block};
use crate::hashing::{block_index_spec, nth_hash, second_seed};
use crate::signature::signature_spec;

verus! {

/// The bits of word `j` that the first `n` sparse hashes select.
pub open spec fn sparse_mask(h1: u64, h2: u64, n: nat, block_bits: int, j: int) -> u64
    decreases n,
{
    if n == 0 {
        0u64
    } else {
        sparse_mask(h1, h2, (n - 1) as nat, block_bits, j) | bit_in_word(
            nth_hash(h1, h2, n) as int % block_bits,
            j,
        )
    }
}

/// The signature mask of word `j`, built after the `n` sparse hashes.
pub open spec fn round_mask(h1: u64, h2: u64, n: nat, rounds: nat, j: nat) -> u64 {
    signature_spec(nth_hash(h1, h2, n + j * rounds), h2, rounds)
}

/// All bits of word `j` of its block that the item with source hash `h`
/// sets.
pub open spec fn item_mask(h: u64, n: nat, rounds: nat, block_bits: int, j: nat) -> u64 {
    sparse_mask(h, second_seed(h), n, block_bits, j as int) | round_mask(
        h,
        second_seed(h),
        n,
        rounds,
        j,
    )
}

/// Index of the first word of the block that source hash `h` selects.
pub open spec fn block_base(len: int, block_bits: int, h: u64) -> int {
    let w = words_per_block(block_bits);
    block_index_spec(len / w, h) * w
}

/// The words after inserting the item with source hash `h`.
pub open spec fn inserted(words: Seq<u64>, block_bits: int, n: nat, rounds: nat, h: u64) -> Seq<
    u64,
> {
    let w = words_per_block(block_bits);
    let base = block_base(words.len() as int, block_bits, h);
    Seq::new(
        words.len(),
        |k: int|
            if base <= k < base + w {
                words[k] | item_mask(h, n, rounds, block_bits, (k - base) as nat)
            } else {
                words[k]
            },
    )
}

/// The words after inserting items of source hashes `hs`, in order.
pub open spec fn inserted_all(words: Seq<u64>, block_bits: int, n: nat, rounds: nat, hs: Seq<u64>) -> Seq<
    u64,
>
    decreases hs.len(),
{
    if hs.len() == 0 {
        words
    } else {
        inserted(inserted_all(words, block_bits, n, rounds, hs.drop_last()), block_bits, n, rounds, hs.last())
    }
}

/// Whether every bit that the item with source hash `h` would set is set.
pub open spec fn holds(words: Seq<u64>, block_bits: int, n: nat, rounds: nat, h: u64) -> bool {
    let w = words_per_block(block_bits);
    let base = block_base(words.len() as int, block_bits, h);
    forall|j: nat|
        j < w ==> (words[base + j] & #[trigger] item_mask(h, n, rounds, block_bits, j)) == item_mask(
            h,
            n,
            rounds,
            block_bits,
            j,
        )
}

/// `b` is among the bits of `a | b`, and so is `a`.
pub proof fn lemma_or_covers(a: u64, b: u64)
    ensures
        (a | b) & b == b,
        (a | b) & a == a,
{
    assert((a | b) & b == b) by (bit_vector);
    assert((a | b) & a == a) by (bit_vector);
}

/// A word covers `a | b` exactly when it covers `a` and covers `b`.
pub proof fn lemma_covers_or(x: u64, a: u64, b: u64)
    ensures
        (x & (a | b)) == (a | b) <==> ((x & a) == a && (x & b) == b),
{
    assert((x & (a | b)) == (a | b) <==> ((x & a) == a && (x & b) == b)) by (bit_vector);
}

/// Covering is transitive.
pub proof fn lemma_covers_trans(x: u64, a: u64, b: u64)
    requires
        (x & a) == a,
        (a & b) == b,
    ensures
        (x & b) == b,
{
    assert((x & b) == b) by (bit_vector)
        requires
            (x & a) == a,
            (a & b) == b,
    ;
}

/// Or-ing more bits in keeps what a word covers.
pub proof fn lemma_covers_grow(x: u64, y: u64, a: u64)
    requires
        (x & a) == a,
    ensures
        ((x | y) & a) == a,
{
    assert(((x | y) & a) == a) by (bit_vector)
        requires
            (x & a) == a,
    ;
}

pub proof fn lemma_or_assoc(a: u64, b: u64, c: u64)
    ensures
        (a | b) | c == a | (b | c),
        a | 0u64 == a,
{
    assert((a | b) | c == a | (b | c)) by (bit_vector);
    assert(a | 0u64 == a) by (bit_vector);
}

/// A word covers the single bit at `offset` when that bit is not clear.
pub proof fn lemma_single_bit(x: u64, offset: int, j: int)
    requires
        0 <= offset,
        offset / 64 == j,
    ensures
        bit_in_word(offset, j) != 0,
        (x & bit_in_word(offset, j)) == bit_in_word(offset, j) <==> (x & bit_in_word(offset, j))
            != 0,
{
    let s = (offset % 64) as u64;
    assert(s < 64);
    assert((1u64 << s) != 0 && ((x & (1u64 << s)) == (1u64 << s) <==> (x & (1u64 << s)) != 0))
        by (bit_vector)
        requires
            s < 64,
    ;
}

/// The sparse bits of `k` hashes are among those of `m >= k` hashes.
pub proof fn lemma_sparse_grows(h1: u64, h2: u64, k: nat, m: nat, block_bits: int, j: int)
    requires
        k <= m,
    ensures
        (sparse_mask(h1, h2, m, block_bits, j) & sparse_mask(h1, h2, k, block_bits, j))
            == sparse_mask(h1, h2, k, block_bits, j),
    decreases m,
{
    let s = sparse_mask(h1, h2, k, block_bits, j);
    if m == k {
        assert((s & s) == s) by (bit_vector);
    } else {
        lemma_sparse_grows(h1, h2, k, (m - 1) as nat, block_bits, j);
        let p = sparse_mask(h1, h2, (m - 1) as nat, block_bits, j);
        let b = bit_in_word(nth_hash(h1, h2, m) as int % block_bits, j);
        lemma_covers_grow(p, b, s);
    }
}

/// The block that a source hash selects lies inside the words.
pub proof fn lemma_block_in_range(len: int, block_bits: int, h: u64)
    requires
        valid_word_count(len, block_bits),
    ensures
        0 <= block_base(len, block_bits, h),
        block_base(len, block_bits, h) + words_per_block(block_bits) <= len,
{
    let w = words_per_block(block_bits);
    let nb = len / w;
    let hi = h >> 32u64;
    assert(hi < 0x1_0000_0000) by (bit_vector)
        requires
            hi == h >> 32u64,
    ;
    assert(nb > 0) by (nonlinear_arith)
        requires
            len > 0,
            w > 0,
            len % w == 0,
            nb == len / w,
    ;
    let bi = (hi as int * nb) / 0x1_0000_0000;
    assert(0 <= bi < nb) by (nonlinear_arith)
        requires
            0 <= hi < 0x1_0000_0000,
            nb > 0,
            bi == (hi as int * nb) / 0x1_0000_0000,
    ;
    assert(0 <= bi * w && bi * w + w <= len) by (nonlinear_arith)
        requires
            0 <= bi < nb,
            nb == len / w,
            len % w == 0,
            w > 0,
    ;
}

/// Inserting keeps the word count.
pub proof fn lemma_inserted_all_len(words: Seq<u64>, block_bits: int, n: nat, rounds: nat, hs: Seq<u64>)
    ensures
        inserted_all(words, block_bits, n, rounds, hs).len() == words.len(),
    decreases hs.len(),
{
    if hs.len() > 0 {
        lemma_inserted_all_len(words, block_bits, n, rounds, hs.drop_last());
    }
}

/// Once inserted, an item is found.
pub proof fn lemma_inserted_holds(words: Seq<u64>, block_bits: int, n: nat, rounds: nat, h: u64)
    requires
        valid_word_count(words.len() as int, block_bits),
    ensures
        holds(inserted(words, block_bits, n, rounds, h), block_bits, n, rounds, h),
{
    lemma_block_in_range(words.len() as int, block_bits, h);
    let after = inserted(words, block_bits, n, rounds, h);
    let base = block_base(words.len() as int, block_bits, h);
    assert forall|j: nat| j < words_per_block(block_bits) implies (after[base + j]
        & #[trigger] item_mask(h, n, rounds, block_bits, j)) == item_mask(
        h,
        n,
        rounds,
        block_bits,
        j,
    ) by {
        lemma_or_covers(words[base + j], item_mask(h, n, rounds, block_bits, j));
    }
}

/// Inserting an item keeps every item that was found.
pub proof fn lemma_inserted_keeps(
    words: Seq<u64>,
    block_bits: int,
    n: nat,
    rounds: nat,
    h: u64,
    g: u64,
)
    requires
        valid_word_count(words.len() as int, block_bits),
        holds(words, block_bits, n, rounds, g),
    ensures
        holds(inserted(words, block_bits, n, rounds, h), block_bits, n, rounds, g),
{
    lemma_block_in_range(words.len() as int, block_bits, g);
    lemma_block_in_range(words.len() as int, block_bits, h);
    let after = inserted(words, block_bits, n, rounds, h);
    let base = block_base(words.len() as int, block_bits, g);
    let hb = block_base(words.len() as int, block_bits, h);
    assert forall|j: nat| j < words_per_block(block_bits) implies (after[base + j]
        & #[trigger] item_mask(g, n, rounds, block_bits, j)) == item_mask(
        g,
        n,
        rounds,
        block_bits,
        j,
    ) by {
        let k = base + j;
        let m = item_mask(g, n, rounds, block_bits, j);
        if hb <= k < hb + words_per_block(block_bits) {
            lemma_covers_grow(
                words[k],
                item_mask(h, n, rounds, block_bits, (k - hb) as nat),
                m,
            );
        }
    }
}

/// No false negatives: after items of source hashes `hs` are inserted, in
/// order, every one of them is found.
pub proof fn lemma_inserted_all_holds(
    words: Seq<u64>,
    block_bits: int,
    n: nat,
    rounds: nat,
    hs: Seq<u64>,
    k: int,
)
    requires
        valid_word_count(words.len() as int, block_bits),
        0 <= k < hs.len(),
    ensures
        holds(inserted_all(words, block_bits, n, rounds, hs), block_bits, n, rounds, hs[k]),
    decreases hs.len(),
{
    let prev = inserted_all(words, block_bits, n, rounds, hs.drop_last());
    lemma_inserted_all_len(words, block_bits, n, rounds, hs.drop_last());
    if k == hs.len() - 1 {
        lemma_inserted_holds(prev, block_bits, n, rounds, hs[k]);
    } else {
        lemma_inserted_all_holds(words, block_bits, n, rounds, hs.drop_last(), k);
        lemma_inserted_keeps(prev, block_bits, n, rounds, hs.last(), hs[k]);
    }
}

} // verus!
