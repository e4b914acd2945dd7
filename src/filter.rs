//! The filter: one block per item, sparse bits first, then one signature
//! mask per word of the block.
use vstd::prelude::*;
use crate::bit_vector::{
    BlockedBitVec, bit_in_word, padded_len, valid_block_size, valid_word_count, words_per_block,
};
use crate::hasher::{DefaultHasher, FilterItem};
use crate::hashing::{
    block_index, lemma_nth_hash_add, next_hash, nth_hash, second_seed, seed_pair, step,
};
use crate::masks::{
    block_base, holds, inserted, inserted_all, item_mask, lemma_covers_or, lemma_covers_trans,
    lemma_inserted_all_holds, lemma_inserted_keeps, lemma_or_assoc, lemma_or_covers,
    lemma_single_bit, lemma_sparse_grows, round_mask, sparse_mask,
};
use crate::signature::signature;

verus! {

/// A space-efficient approximate membership set. `contains` is true of every
/// item that was inserted, and probably false of any other.
///
/// The bits live in blocks of `BLOCK_SIZE_BITS` bits; all the bits of one
/// item fall in one block.
#[derive(Debug, Clone)]
pub struct BloomFilter<const BLOCK_SIZE_BITS: usize> {
    bits: BlockedBitVec<BLOCK_SIZE_BITS>,
    /// The hashes per item that were asked for, or found best, at build time.
    target_hashes: u64,
    /// Signature rounds: bits set in each word of the block per item.
    num_rounds: Option<u64>,
    /// Sparse hashes: single bits set anywhere in the block per item.
    num_hashes: u64,
    hasher: DefaultHasher,
}

impl<const BLOCK_SIZE_BITS: usize> BloomFilter<BLOCK_SIZE_BITS> {
    /// The words of the bit vector.
    pub closed spec fn words(&self) -> Seq<u64> {
        self.bits@
    }

    pub closed spec fn sparse_hashes(&self) -> nat {
        self.num_hashes as nat
    }

    pub closed spec fn rounds(&self) -> Option<u64> {
        self.num_rounds
    }

    pub closed spec fn target(&self) -> u64 {
        self.target_hashes
    }

    pub closed spec fn hasher_spec(&self) -> DefaultHasher {
        self.hasher
    }

    /// Signature rounds as a count; none is zero.
    pub open spec fn round_count(&self) -> nat {
        match self.rounds() {
            Some(r) => r as nat,
            None => 0,
        }
    }

    pub open spec fn wf(&self) -> bool {
        valid_word_count(self.words().len() as int, BLOCK_SIZE_BITS as int)
    }

    pub open spec fn spec_num_blocks(&self) -> int {
        self.words().len() as int / words_per_block(BLOCK_SIZE_BITS as int)
    }

    /// Everything but the bits is the same.
    pub open spec fn same_config(&self, other: Self) -> bool {
        &&& self.sparse_hashes() == other.sparse_hashes()
        &&& self.rounds() == other.rounds()
        &&& self.target() == other.target()
        &&& self.hasher_spec() == other.hasher_spec()
    }

    /// The words after inserting an item of source hash `h`.
    pub open spec fn words_after(&self, h: u64) -> Seq<u64> {
        inserted(
            self.words(),
            BLOCK_SIZE_BITS as int,
            self.sparse_hashes(),
            self.round_count(),
            h,
        )
    }

    /// Whether every bit of an item of source hash `h` is set.
    pub open spec fn holds_hash(&self, h: u64) -> bool {
        holds(self.words(), BLOCK_SIZE_BITS as int, self.sparse_hashes(), self.round_count(), h)
    }

    /// The source hash of an item.
    pub open spec fn source_hash<T: FilterItem + ?Sized>(&self, val: &T) -> u64 {
        self.hasher_spec().spec_hash(val.item_bytes())
    }

    pub closed spec fn spec_filter_eq(&self, other: &Self) -> bool {
        &&& self.words() == other.words()
        &&& self.num_hashes == other.num_hashes
        &&& self.num_rounds == other.num_rounds
        &&& self.hasher == other.hasher
    }

    /// Assembles a filter from its parts.
    pub(crate) fn from_parts(
        bits: BlockedBitVec<BLOCK_SIZE_BITS>,
        target_hashes: u64,
        num_rounds: Option<u64>,
        num_hashes: u64,
        hasher: DefaultHasher,
    ) -> (r: Self)
        requires
            bits.wf(),
        ensures
            r.wf(),
            r.words() == bits@,
            r.target() == target_hashes,
            r.rounds() == num_rounds,
            r.sparse_hashes() == num_hashes,
            r.hasher_spec() == hasher,
    {
        BloomFilter { bits, target_hashes, num_rounds, num_hashes, hasher }
    }

    /// Advances the stream and reduces the new hash to a bit of the block.
    pub fn bit_index(hash1: &mut u64, hash2: u64) -> (r: usize)
        requires
            valid_block_size(BLOCK_SIZE_BITS as int),
        ensures
            *final(hash1) == step(*old(hash1), hash2),
            r as int == *final(hash1) as int % BLOCK_SIZE_BITS as int,
            r < BLOCK_SIZE_BITS,
    {
        let h = next_hash(hash1, hash2);
        let m: u64 = (BLOCK_SIZE_BITS - 1) as u64;
        let r: u64 = h & m;
        if BLOCK_SIZE_BITS == 64 {
            assert(r == h % 64) by (bit_vector)
                requires
                    m == 63,
                    r == h & m,
            ;
        } else if BLOCK_SIZE_BITS == 128 {
            assert(r == h % 128) by (bit_vector)
                requires
                    m == 127,
                    r == h & m,
            ;
        } else if BLOCK_SIZE_BITS == 256 {
            assert(r == h % 256) by (bit_vector)
                requires
                    m == 255,
                    r == h & m,
            ;
        } else {
            assert(r == h % 512) by (bit_vector)
                requires
                    m == 511,
                    r == h & m,
            ;
        }
        r as usize
    }

    /// Inserts the item whose source hash is `source`.
    pub fn insert_hash(&mut self, source: u64)
        requires
            old(self).wf(),
        ensures
            final(self).wf(),
            final(self).same_config(*old(self)),
            final(self).words() == old(self).words_after(source),
    {
        let ghost old_words = self.bits@;
        let ghost len = old_words.len() as int;
        let ghost bb = BLOCK_SIZE_BITS as int;
        let ghost w = words_per_block(bb);
        let ghost n = self.num_hashes as nat;
        let (mut h1, h2) = seed_pair(source);
        let nb = self.bits.num_blocks();
        let bi = block_index(nb, h1);
        let ghost base = bi * w;
        assert(base == block_base(len, bb, source));
        proof {
            self.bits.lemma_word_index_in_range(bi as int, w - 1);
        }
        proof {
            assert forall|k: int| 0 <= k < len implies old_words[k] == #[trigger] (old_words[k]
                | sparse_mask(source, h2, 0, bb, k - base)) by {
                lemma_or_assoc(old_words[k], 0u64, 0u64);
            }
            assert(self.bits@ =~= Seq::new(
                len as nat,
                |k: int|
                    if base <= k < base + w {
                        old_words[k] | sparse_mask(source, h2, 0, bb, k - base)
                    } else {
                        old_words[k]
                    },
            ));
        }
        let mut i: u64 = 0;
        while i < self.num_hashes
            invariant
                self.bits.wf(),
                self.num_hashes == old(self).num_hashes,
                self.num_rounds == old(self).num_rounds,
                self.target_hashes == old(self).target_hashes,
                self.hasher == old(self).hasher,
                n == self.num_hashes,
                bb == BLOCK_SIZE_BITS,
                w == words_per_block(bb),
                base == bi * w,
                base + w <= len,
                bi < self.bits.spec_num_blocks(),
                i <= n,
                h2 == second_seed(source),
                h1 == nth_hash(source, h2, i as nat),
                self.bits@.len() == len,
                self.bits@ == Seq::new(
                    len as nat,
                    |k: int|
                        if base <= k < base + w {
                            old_words[k] | sparse_mask(source, h2, i as nat, bb, k - base)
                        } else {
                            old_words[k]
                        },
                ),
            decreases n - i,
        {
            let ghost prev = self.bits@;
            let off = Self::bit_index(&mut h1, h2);
            self.bits.set_for_block(bi, off);
            i = i + 1;
            proof {
                let b = off as int / 64;
                assert(off as int == nth_hash(source, h2, i as nat) as int % bb);
                assert forall|k: int| 0 <= k < len implies self.bits@[k] == (if base <= k < base
                    + w {
                    old_words[k] | sparse_mask(source, h2, i as nat, bb, k - base)
                } else {
                    old_words[k]
                }) by {
                    if base <= k < base + w {
                        let j = k - base;
                        let s = sparse_mask(source, h2, (i - 1) as nat, bb, j);
                        lemma_or_assoc(old_words[k], s, bit_in_word(off as int, j));
                        lemma_or_assoc(s, 0u64, 0u64);
                    }
                }
                assert(self.bits@ =~= Seq::new(
                    len as nat,
                    |k: int|
                        if base <= k < base + w {
                            old_words[k] | sparse_mask(source, h2, i as nat, bb, k - base)
                        } else {
                            old_words[k]
                        },
                ));
            }
        }
        let ghost rr: nat = match self.num_rounds {
            Some(r) => r as nat,
            None => 0,
        };
        if let Some(num_rounds) = self.num_rounds {
            let words: usize = BLOCK_SIZE_BITS / 64;
            let mut j: usize = 0;
            while j < words
                invariant
                    self.bits.wf(),
                    self.num_hashes == old(self).num_hashes,
                    self.num_rounds == old(self).num_rounds,
                    self.target_hashes == old(self).target_hashes,
                    self.hasher == old(self).hasher,
                    self.num_rounds == Some(num_rounds),
                    rr == num_rounds,
                    n == self.num_hashes,
                    bb == BLOCK_SIZE_BITS,
                    w == words_per_block(bb),
                    words == w,
                    base == bi * w,
                    base + w <= len,
                    bi < self.bits.spec_num_blocks(),
                    j <= words,
                    h2 == second_seed(source),
                    h1 == nth_hash(source, h2, (n + j * rr) as nat),
                    self.bits@.len() == len,
                    self.bits@ == Seq::new(
                        len as nat,
                        |k: int|
                            if base <= k < base + j {
                                old_words[k] | item_mask(source, n, rr, bb, (k - base) as nat)
                            } else if base + j <= k < base + w {
                                old_words[k] | sparse_mask(source, h2, n, bb, k - base)
                            } else {
                                old_words[k]
                            },
                    ),
                decreases words - j,
            {
                let ghost start = h1;
                let sig = signature(&mut h1, h2, num_rounds);
                self.bits.or_word(bi, j, sig);
                proof {
                    lemma_nth_hash_add(source, h2, (n + j * rr) as nat, rr);
                    assert(n + j * rr + rr == n + (j + 1) * rr) by (nonlinear_arith);
                    assert(sig == round_mask(source, h2, n, rr, j as nat));
                    let k0 = base + j;
                    lemma_or_assoc(old_words[k0], sparse_mask(source, h2, n, bb, j as int), sig);
                    assert forall|k: int| 0 <= k < len implies self.bits@[k] == (if base <= k < base
                        + j + 1 {
                        old_words[k] | item_mask(source, n, rr, bb, (k - base) as nat)
                    } else if base + j + 1 <= k < base + w {
                        old_words[k] | sparse_mask(source, h2, n, bb, k - base)
                    } else {
                        old_words[k]
                    }) by {}
                }
                j = j + 1;
                proof {
                    assert(self.bits@ =~= Seq::new(
                        len as nat,
                        |k: int|
                            if base <= k < base + j {
                                old_words[k] | item_mask(source, n, rr, bb, (k - base) as nat)
                            } else if base + j <= k < base + w {
                                old_words[k] | sparse_mask(source, h2, n, bb, k - base)
                            } else {
                                old_words[k]
                            },
                    ));
                }
            }
        } else {
            proof {
                assert forall|k: int| base <= k < base + w implies sparse_mask(
                    source,
                    h2,
                    n,
                    bb,
                    k - base,
                ) == #[trigger] item_mask(source, n, rr, bb, (k - base) as nat) by {
                    lemma_or_assoc(sparse_mask(source, h2, n, bb, k - base), 0u64, 0u64);
                }
            }
        }
        assert(self.bits@ =~= inserted(old_words, bb, n, rr, source));
    }

    /// Whether every bit of the item whose source hash is `source` is set.
    pub fn contains_hash(&self, source: u64) -> (r: bool)
        requires
            self.wf(),
        ensures
            r == self.holds_hash(source),
    {
        let ghost words = self.bits@;
        let ghost len = words.len() as int;
        let ghost bb = BLOCK_SIZE_BITS as int;
        let ghost w = words_per_block(bb);
        let ghost n = self.num_hashes as nat;
        let ghost rr: nat = self.round_count();
        let (mut h1, h2) = seed_pair(source);
        let nb = self.bits.num_blocks();
        let bi = block_index(nb, h1);
        let ghost base = bi * w;
        assert(base == block_base(len, bb, source));
        proof {
            self.bits.lemma_word_index_in_range(bi as int, w - 1);
            assert forall|j: int| 0 <= j < w implies (words[base + j] & #[trigger] sparse_mask(
                source,
                h2,
                0,
                bb,
                j,
            )) == sparse_mask(source, h2, 0, bb, j) by {
                let x = words[base + j];
                assert((x & 0u64) == 0u64) by (bit_vector);
            }
        }
        let mut i: u64 = 0;
        while i < self.num_hashes
            invariant
                self.bits.wf(),
                n == self.num_hashes,
                bb == BLOCK_SIZE_BITS,
                w == words_per_block(bb),
                base == bi * w,
                base == block_base(words.len() as int, bb, source),
                base + w <= words.len(),
                bi < self.bits.spec_num_blocks(),
                words == self.bits@,
                rr == self.round_count(),
                i <= n,
                h2 == second_seed(source),
                h1 == nth_hash(source, h2, i as nat),
                forall|j: int|
                    0 <= j < w ==> (words[base + j] & #[trigger] sparse_mask(
                        source,
                        h2,
                        i as nat,
                        bb,
                        j,
                    )) == sparse_mask(source, h2, i as nat, bb, j),
            decreases n - i,
        {
            let off = Self::bit_index(&mut h1, h2);
            let set = self.bits.check_for_block(bi, off);
            let ghost b = off as int / 64;
            let ghost bit = bit_in_word(off as int, b);
            proof {
                lemma_single_bit(words[base + b], off as int, b);
                assert(off as int == nth_hash(source, h2, (i + 1) as nat) as int % bb);
            }
            if !set {
                proof {
                    assert(0 <= b < w);
                    lemma_sparse_miss(words, bb, n, rr, source, (i + 1) as nat, off as int);
                }
                return false;
            }
            i = i + 1;
            proof {
                lemma_sparse_hit(words, base, w, source, bb, i as nat, off as int);
            }
        }
        let words_len: usize = BLOCK_SIZE_BITS / 64;
        if let Some(num_rounds) = self.num_rounds {
            let mut j: usize = 0;
            while j < words_len
                invariant
                    self.bits.wf(),
                    self.num_rounds == Some(num_rounds),
                    rr == num_rounds,
                    n == self.num_hashes,
                    bb == BLOCK_SIZE_BITS,
                    w == words_per_block(bb),
                    words_len == w,
                    base == bi * w,
                    base == block_base(words.len() as int, bb, source),
                    bi < self.bits.spec_num_blocks(),
                    words == self.bits@,
                    j <= words_len,
                    h2 == second_seed(source),
                    h1 == nth_hash(source, h2, (n + j * rr) as nat),
                    forall|t: int|
                        0 <= t < w ==> (words[base + t] & #[trigger] sparse_mask(
                            source,
                            h2,
                            n,
                            bb,
                            t,
                        )) == sparse_mask(source, h2, n, bb, t),
                    forall|t: nat|
                        t < j ==> (words[base + t] & #[trigger] item_mask(source, n, rr, bb, t))
                            == item_mask(source, n, rr, bb, t),
                decreases words_len - j,
            {
                let sig = signature(&mut h1, h2, num_rounds);
                let word = self.bits.word(bi, j);
                proof {
                    lemma_nth_hash_add(source, h2, (n + j * rr) as nat, rr);
                    assert(n + j * rr + rr == n + (j + 1) * rr) by (nonlinear_arith);
                    assert(sig == round_mask(source, h2, n, rr, j as nat));
                    lemma_covers_or(word, sparse_mask(source, h2, n, bb, j as int), sig);
                }
                if (word & sig) != sig {
                    proof {
                        if self.holds_hash(source) {
                            assert((words[base + (j as nat)] & item_mask(source, n, rr, bb, j as nat))
                                == item_mask(source, n, rr, bb, j as nat));
                            assert(false);
                        }
                    }
                    return false;
                }
                j = j + 1;
            }
        } else {
            proof {
                assert forall|t: nat| t < w implies (words[base + t] & #[trigger] item_mask(
                    source,
                    n,
                    rr,
                    bb,
                    t,
                )) == item_mask(source, n, rr, bb, t) by {
                    lemma_or_assoc(sparse_mask(source, h2, n, bb, t as int), 0u64, 0u64);
                }
            }
        }
        true
    }

    /// Adds `val`.
    pub fn insert<T: FilterItem + ?Sized>(&mut self, val: &T)
        requires
            old(self).wf(),
        ensures
            final(self).wf(),
            final(self).same_config(*old(self)),
            final(self).words() == old(self).words_after(old(self).source_hash(val)),
    {
        let h = self.hasher.hash_item(val);
        self.insert_hash(h);
    }

    /// `false` when `val` was certainly never inserted; `true` when it
    /// probably was.
    pub fn contains<T: FilterItem + ?Sized>(&self, val: &T) -> (r: bool)
        requires
            self.wf(),
        ensures
            r == self.holds_hash(self.source_hash(val)),
    {
        let h = self.hasher.hash_item(val);
        self.contains_hash(h)
    }

    /// Adds each of `items`, in order.
    pub fn extend<T: FilterItem>(&mut self, items: &[T])
        requires
            old(self).wf(),
        ensures
            final(self).wf(),
            final(self).same_config(*old(self)),
            final(self).words() == old(self).words_after_all(
                old(self).source_hashes(items@),
            ),
    {
        let mut i: usize = 0;
        while i < items.len()
            invariant
                self.wf(),
                self.same_config(*old(self)),
                i <= items@.len(),
                self.words() == old(self).words_after_all(
                    old(self).source_hashes(items@.subrange(0, i as int)),
                ),
            decreases items@.len() - i,
        {
            let ghost hs = old(self).source_hashes(items@.subrange(0, i as int));
            self.insert(&items[i]);
            i = i + 1;
            proof {
                let hs2 = old(self).source_hashes(items@.subrange(0, i as int));
                assert(hs2 =~= hs.push(old(self).source_hash(&items@[i - 1])));
                assert(hs2.drop_last() =~= hs);
            }
        }
        assert(items@.subrange(0, items@.len() as int) =~= items@);
    }

    /// The hashes per item that were asked for, or found best, at build
    /// time (as a `u32`, keeping the low bits).
    pub fn num_hashes(&self) -> (r: u32)
        ensures
            r == self.target() as u32,
    {
        self.target_hashes as u32
    }

    /// The number of bits of the filter.
    pub fn num_bits(&self) -> (r: usize)
        requires
            self.wf(),
        ensures
            r == self.words().len() * 64,
            r == self.spec_num_blocks() * BLOCK_SIZE_BITS,
    {
        let nb = self.bits.num_blocks();
        nb * BLOCK_SIZE_BITS
    }

    /// The number of blocks of the filter.
    pub fn num_blocks(&self) -> (r: usize)
        requires
            self.wf(),
        ensures
            r == self.spec_num_blocks(),
            r > 0,
    {
        self.bits.num_blocks()
    }

    /// The words of the filter, in the form that `builder_from_vec` takes.
    pub fn as_slice(&self) -> (r: &[u64])
        ensures
            r@ == self.words(),
    {
        self.bits.as_slice()
    }

    /// The source hashes of `items`, in order.
    pub open spec fn source_hashes<T: FilterItem>(&self, items: Seq<T>) -> Seq<u64> {
        items.map_values(|x: T| self.source_hash(&x))
    }

    /// The words after inserting items of source hashes `hs`, in order.
    pub open spec fn words_after_all(&self, hs: Seq<u64>) -> Seq<u64> {
        inserted_all(
            self.words(),
            BLOCK_SIZE_BITS as int,
            self.sparse_hashes(),
            self.round_count(),
            hs,
        )
    }
}

impl<const BLOCK_SIZE_BITS: usize> PartialEq for BloomFilter<BLOCK_SIZE_BITS> {
    /// Same bits, same split of hashes and same hasher.
    fn eq(&self, other: &Self) -> (r: bool) {
        self.bits.same_words(&other.bits) && self.num_hashes == other.num_hashes
            && self.num_rounds == other.num_rounds && self.hasher == other.hasher
    }
}

impl<const BLOCK_SIZE_BITS: usize> vstd::std_specs::cmp::PartialEqSpecImpl for BloomFilter<BLOCK_SIZE_BITS> {
    open spec fn obeys_eq_spec() -> bool {
        true
    }

    open spec fn eq_spec(&self, other: &Self) -> bool {
        self.spec_filter_eq(other)
    }
}

impl<const BLOCK_SIZE_BITS: usize> Eq for BloomFilter<BLOCK_SIZE_BITS> {

}

/// No false negatives: a filter that took `items`, in order, finds every one
/// of them. `g` is `f` after the items went in.
pub proof fn lemma_no_false_negatives<const BLOCK_SIZE_BITS: usize, T: FilterItem>(
    f: BloomFilter<BLOCK_SIZE_BITS>,
    g: BloomFilter<BLOCK_SIZE_BITS>,
    items: Seq<T>,
    k: int,
)
    requires
        f.wf(),
        g.same_config(f),
        g.words() == f.words_after_all(f.source_hashes(items)),
        0 <= k < items.len(),
    ensures
        g.holds_hash(g.source_hash(&items[k])),
{
    let hs = f.source_hashes(items);
    lemma_inserted_all_holds(
        f.words(),
        BLOCK_SIZE_BITS as int,
        f.sparse_hashes(),
        f.round_count(),
        hs,
        k,
    );
}

/// Inserting never loses an item: what a filter finds, it still finds after
/// any further insert.
pub proof fn lemma_contains_monotonic<const BLOCK_SIZE_BITS: usize>(
    f: BloomFilter<BLOCK_SIZE_BITS>,
    h: u64,
    g: u64,
)
    requires
        f.wf(),
        f.holds_hash(g),
    ensures
        holds(f.words_after(h), BLOCK_SIZE_BITS as int, f.sparse_hashes(), f.round_count(), g),
{
    lemma_inserted_keeps(
        f.words(),
        BLOCK_SIZE_BITS as int,
        f.sparse_hashes(),
        f.round_count(),
        h,
        g,
    );
}

/// Round trip: a filter rebuilt from the words of `f`, with the same hasher
/// and the same split of hashes, equals `f`.
pub proof fn lemma_round_trip<const BLOCK_SIZE_BITS: usize>(
    f: BloomFilter<BLOCK_SIZE_BITS>,
    g: BloomFilter<BLOCK_SIZE_BITS>,
)
    requires
        f.wf(),
        g.words() == crate::builder::padded_words(f.words(), BLOCK_SIZE_BITS as int),
        g.sparse_hashes() == f.sparse_hashes(),
        g.rounds() == f.rounds(),
        g.hasher_spec() == f.hasher_spec(),
    ensures
        f.spec_filter_eq(&g),
{
    assert(padded_len(f.words().len() as int, BLOCK_SIZE_BITS as int) == f.words().len());
    assert(g.words() =~= f.words());
}

/// Determinism: equal filters that take the same items, in the same order,
/// stay equal.
pub proof fn lemma_determinism<const BLOCK_SIZE_BITS: usize>(
    f: BloomFilter<BLOCK_SIZE_BITS>,
    g: BloomFilter<BLOCK_SIZE_BITS>,
    f2: BloomFilter<BLOCK_SIZE_BITS>,
    g2: BloomFilter<BLOCK_SIZE_BITS>,
    hs: Seq<u64>,
)
    requires
        f.spec_filter_eq(&g),
        f2.same_config(f),
        g2.same_config(g),
        f2.words() == f.words_after_all(hs),
        g2.words() == g.words_after_all(hs),
    ensures
        f2.spec_filter_eq(&g2),
{
}

/// A bit that one of the first `n` sparse hashes selects, when clear, makes
/// the item absent.
proof fn lemma_sparse_miss(words: Seq<u64>, bb: int, n: nat, rr: nat, source: u64, i: nat, off: int)
    requires
        valid_block_size(bb),
        words.len() as int % words_per_block(bb) == 0,
        0 <= block_base(words.len() as int, bb, source),
        block_base(words.len() as int, bb, source) + words_per_block(bb) <= words.len(),
        1 <= i <= n,
        0 <= off < bb,
        off == nth_hash(source, second_seed(source), i) as int % bb,
        (words[block_base(words.len() as int, bb, source) + off / 64] & bit_in_word(off, off / 64))
            == 0,
    ensures
        !holds(words, bb, n, rr, source),
{
    let h2 = second_seed(source);
    let base = block_base(words.len() as int, bb, source);
    let b = off / 64;
    let bit = bit_in_word(off, b);
    let sm = sparse_mask(source, h2, n, bb, b);
    let m = item_mask(source, n, rr, bb, b as nat);
    lemma_single_bit(words[base + b], off, b);
    lemma_sparse_grows(source, h2, i, n, bb, b);
    lemma_or_covers(sparse_mask(source, h2, (i - 1) as nat, bb, b), bit);
    lemma_covers_trans(sm, sparse_mask(source, h2, i, bb, b), bit);
    lemma_or_covers(sm, round_mask(source, h2, n, rr, b as nat));
    lemma_covers_trans(m, sm, bit);
    if holds(words, bb, n, rr, source) {
        assert((words[base + (b as nat)] & m) == m);
        lemma_covers_trans(words[base + b], m, bit);
    }
}

/// One more sparse bit that is set keeps every word of the block covering
/// the sparse bits so far.
proof fn lemma_sparse_hit(words: Seq<u64>, base: int, w: int, source: u64, bb: int, i: nat, off: int)
    requires
        i >= 1,
        0 <= off,
        off == nth_hash(source, second_seed(source), i) as int % bb,
        0 <= off / 64 < w,
        (words[base + off / 64] & bit_in_word(off, off / 64)) != 0,
        forall|j: int|
            0 <= j < w ==> (words[base + j] & #[trigger] sparse_mask(
                source,
                second_seed(source),
                (i - 1) as nat,
                bb,
                j,
            )) == sparse_mask(source, second_seed(source), (i - 1) as nat, bb, j),
    ensures
        forall|j: int|
            0 <= j < w ==> (words[base + j] & #[trigger] sparse_mask(
                source,
                second_seed(source),
                i,
                bb,
                j,
            )) == sparse_mask(source, second_seed(source), i, bb, j),
{
    let h2 = second_seed(source);
    lemma_single_bit(words[base + off / 64], off, off / 64);
    assert forall|j: int| 0 <= j < w implies (words[base + j] & #[trigger] sparse_mask(
        source,
        h2,
        i,
        bb,
        j,
    )) == sparse_mask(source, h2, i, bb, j) by {
        let p = sparse_mask(source, h2, (i - 1) as nat, bb, j);
        let q = bit_in_word(off, j);
        let x = words[base + j];
        lemma_covers_or(x, p, q);
        assert((x & 0u64) == 0u64) by (bit_vector);
    }
}

} // verus!
