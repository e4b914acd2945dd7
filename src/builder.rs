//! Configuration of a filter before it is built: its bits, its hasher, and
//! then the hashes per item.
use vstd::prelude::*;
use crate::bit_vector::{
    BlockedBitVec, padded_len, valid_block_size, valid_word_count, words_per_block,
};
use crate::filter::BloomFilter;
use crate::hasher::{DefaultHasher, FilterItem};
use crate::masks::inserted_all;
use crate::params::{optimal_hashes, optimal_hashes_spec, rounds_for, split_hashes};

verus! {

/// Blocks for `num_bits` bits: enough blocks to hold them all.
pub open spec fn blocks_for_bits(num_bits: int, block_bits: int) -> int {
    (num_bits + block_bits - 1) / block_bits
}

/// `words` padded with zero words up to whole blocks.
pub open spec fn padded_words(words: Seq<u64>, block_bits: int) -> Seq<u64> {
    Seq::new(
        padded_len(words.len() as int, block_bits) as nat,
        |k: int|
            if k < words.len() {
                words[k]
            } else {
                0u64
            },
    )
}

/// A filter's bits and hasher, waiting for its number of hashes per item.
#[derive(Debug, Clone)]
pub struct Builder<const BLOCK_SIZE_BITS: usize> {
    data: BlockedBitVec<BLOCK_SIZE_BITS>,
    hasher: DefaultHasher,
}

impl<const BLOCK_SIZE_BITS: usize> Builder<BLOCK_SIZE_BITS> {
    pub closed spec fn words(&self) -> Seq<u64> {
        self.data@
    }

    pub closed spec fn hasher_spec(&self) -> DefaultHasher {
        self.hasher
    }

    pub open spec fn wf(&self) -> bool {
        valid_word_count(self.words().len() as int, BLOCK_SIZE_BITS as int)
    }

    pub open spec fn spec_num_blocks(&self) -> int {
        self.words().len() as int / words_per_block(BLOCK_SIZE_BITS as int)
    }

    /// Builder over zeroed blocks for `num_bits` bits, with a random seed.
    fn with_bits(num_bits: usize) -> (r: Self)
        requires
            valid_block_size(BLOCK_SIZE_BITS as int),
            num_bits > 0,
            num_bits <= usize::MAX - BLOCK_SIZE_BITS,
        ensures
            r.wf(),
            r.words() == Seq::new(
                (blocks_for_bits(num_bits as int, BLOCK_SIZE_BITS as int) * words_per_block(
                    BLOCK_SIZE_BITS as int,
                )) as nat,
                |k: int| 0u64,
            ),
    {
        let num_blocks: usize = (num_bits + (BLOCK_SIZE_BITS - 1)) / BLOCK_SIZE_BITS;
        assert(num_blocks * BLOCK_SIZE_BITS <= usize::MAX && num_blocks > 0) by (nonlinear_arith)
            requires
                num_blocks as int == (num_bits as int + (BLOCK_SIZE_BITS as int - 1)) / (
                BLOCK_SIZE_BITS as int),
                num_bits > 0,
                BLOCK_SIZE_BITS >= 64,
                num_bits <= usize::MAX - BLOCK_SIZE_BITS,
        ;
        let data = BlockedBitVec::<BLOCK_SIZE_BITS>::new(num_blocks).unwrap();
        Builder { data, hasher: DefaultHasher::random() }
    }

    /// Builder over `words`, padded with zero words up to whole blocks, with
    /// a random seed.
    fn with_words(words: Vec<u64>) -> (r: Self)
        requires
            valid_block_size(BLOCK_SIZE_BITS as int),
            words@.len() > 0,
            words@.len() * 64 + BLOCK_SIZE_BITS <= usize::MAX,
        ensures
            r.wf(),
            r.words() == padded_words(words@, BLOCK_SIZE_BITS as int),
    {
        let ghost w = words@;
        let data = BlockedBitVec::<BLOCK_SIZE_BITS>::from_words(words).unwrap();
        assert(data@ =~= padded_words(w, BLOCK_SIZE_BITS as int)) by {
            assert forall|k: int| 0 <= k < w.len() implies data@[k] == w[k] by {
                assert(data@.subrange(0, w.len() as int)[k] == data@[k]);
            }
        }
        Builder { data, hasher: DefaultHasher::random() }
    }

    /// Uses the hasher seeded with `seed`.
    pub fn seed(self, seed: &u128) -> (r: Self)
        ensures
            r.words() == self.words(),
            r.hasher_spec() == (DefaultHasher { k0: (*seed >> 64u128) as u64, k1: *seed as u64 }),
    {
        Builder { data: self.data, hasher: DefaultHasher::seeded(*seed) }
    }

    /// Uses `hasher`.
    pub fn hasher(self, hasher: DefaultHasher) -> (r: Self)
        ensures
            r.words() == self.words(),
            r.hasher_spec() == hasher,
    {
        Builder { data: self.data, hasher }
    }

    /// The filter with `num_hashes` hashes per item: whole signature rounds
    /// over the words of a block, and the rest as sparse hashes.
    pub fn hashes(self, num_hashes: u32) -> (r: BloomFilter<BLOCK_SIZE_BITS>)
        requires
            self.wf(),
        ensures
            r.wf(),
            r.words() == self.words(),
            r.hasher_spec() == self.hasher_spec(),
            r.target() == num_hashes as u64,
            r.rounds() == rounds_for(num_hashes as int, words_per_block(BLOCK_SIZE_BITS as int)),
            r.sparse_hashes() == num_hashes as int % words_per_block(BLOCK_SIZE_BITS as int),
    {
        self.with_total(num_hashes as u64)
    }

    /// The filter with the number of hashes per item that keeps false
    /// positives lowest once `expected_num_items` items are in.
    pub fn expected_items(self, expected_num_items: usize) -> (r: BloomFilter<BLOCK_SIZE_BITS>)
        requires
            self.wf(),
        ensures
            r.wf(),
            r.words() == self.words(),
            r.hasher_spec() == self.hasher_spec(),
            r.target() == optimal_hashes_spec(
                BLOCK_SIZE_BITS as int,
                self.spec_num_blocks(),
                expected_num_items as int,
            ),
            r.rounds() == rounds_for(r.target() as int, words_per_block(BLOCK_SIZE_BITS as int)),
            r.sparse_hashes() == r.target() as int % words_per_block(BLOCK_SIZE_BITS as int),
    {
        let nb = self.data.num_blocks();
        let total = optimal_hashes(BLOCK_SIZE_BITS, nb, expected_num_items);
        self.with_total(total)
    }

    /// The filter sized for `items` by `expected_items`, holding `items`.
    pub fn items<T: FilterItem>(self, items: &[T]) -> (r: BloomFilter<BLOCK_SIZE_BITS>)
        requires
            self.wf(),
        ensures
            r.wf(),
            r.hasher_spec() == self.hasher_spec(),
            r.target() == optimal_hashes_spec(
                BLOCK_SIZE_BITS as int,
                self.spec_num_blocks(),
                items@.len() as int,
            ),
            r.rounds() == rounds_for(r.target() as int, words_per_block(BLOCK_SIZE_BITS as int)),
            r.sparse_hashes() == r.target() as int % words_per_block(BLOCK_SIZE_BITS as int),
            r.words() == inserted_all(
                self.words(),
                BLOCK_SIZE_BITS as int,
                r.sparse_hashes(),
                r.round_count(),
                items@.map_values(|x: T| self.hasher_spec().spec_hash(x.item_bytes())),
            ),
    {
        let mut filter = self.expected_items(items.len());
        let ghost before = filter;
        filter.extend(items);
        assert(before.source_hashes(items@) =~= items@.map_values(
            |x: T| self.hasher_spec().spec_hash(x.item_bytes()),
        ));
        filter
    }

    fn with_total(self, total: u64) -> (r: BloomFilter<BLOCK_SIZE_BITS>)
        requires
            self.wf(),
        ensures
            r.wf(),
            r.words() == self.words(),
            r.hasher_spec() == self.hasher_spec(),
            r.target() == total,
            r.rounds() == rounds_for(total as int, words_per_block(BLOCK_SIZE_BITS as int)),
            r.sparse_hashes() == total as int % words_per_block(BLOCK_SIZE_BITS as int),
    {
        let words: u64 = (BLOCK_SIZE_BITS / 64) as u64;
        let (num_rounds, num_hashes) = split_hashes(total, words);
        BloomFilter::from_parts(self.data, total, num_rounds, num_hashes, self.hasher)
    }
}

impl<const BLOCK_SIZE_BITS: usize> BloomFilter<BLOCK_SIZE_BITS> {
    /// Builder with at least `num_bits` bits, in blocks of `BLOCK_SIZE_BITS`.
    pub fn new_builder(num_bits: usize) -> (r: Builder<BLOCK_SIZE_BITS>)
        requires
            valid_block_size(BLOCK_SIZE_BITS as int),
            num_bits > 0,
            num_bits <= usize::MAX - BLOCK_SIZE_BITS,
        ensures
            r.wf(),
            r.words() == Seq::new(
                (blocks_for_bits(num_bits as int, BLOCK_SIZE_BITS as int) * words_per_block(
                    BLOCK_SIZE_BITS as int,
                )) as nat,
                |k: int| 0u64,
            ),
    {
        Builder::with_bits(num_bits)
    }

    /// Builder over the words `vec`, padded with zero words up to whole
    /// blocks.
    pub fn new_builder_from_vec(vec: Vec<u64>) -> (r: Builder<BLOCK_SIZE_BITS>)
        requires
            valid_block_size(BLOCK_SIZE_BITS as int),
            vec@.len() > 0,
            vec@.len() * 64 + BLOCK_SIZE_BITS <= usize::MAX,
        ensures
            r.wf(),
            r.words() == padded_words(vec@, BLOCK_SIZE_BITS as int),
    {
        Builder::with_words(vec)
    }
}

impl BloomFilter<64> {
    /// Builder with at least `num_bits` bits, in blocks of 64 bits, with a
    /// random seed.
    pub fn builder_from_bits(num_bits: usize) -> (r: Builder<64>)
        requires
            num_bits > 0,
            num_bits <= usize::MAX - 64,
        ensures
            r.wf(),
            r.words() == Seq::new(
                (blocks_for_bits(num_bits as int, 64) * 1) as nat,
                |k: int| 0u64,
            ),
    {
        Self::new_builder(num_bits)
    }

    /// Builder over the words `bit_vec`, padded with zero words to a
    /// multiple of 1, with a random seed.
    pub fn builder_from_vec(bit_vec: Vec<u64>) -> (r: Builder<64>)
        requires
            bit_vec@.len() > 0,
            bit_vec@.len() * 64 + 64 <= usize::MAX,
        ensures
            r.wf(),
            r.words() == padded_words(bit_vec@, 64),
    {
        Self::new_builder_from_vec(bit_vec)
    }
}

impl BloomFilter<128> {
    /// Builder with at least `num_bits` bits, in blocks of 128 bits, with a
    /// random seed.
    pub fn builder_from_bits(num_bits: usize) -> (r: Builder<128>)
        requires
            num_bits > 0,
            num_bits <= usize::MAX - 128,
        ensures
            r.wf(),
            r.words() == Seq::new(
                (blocks_for_bits(num_bits as int, 128) * 2) as nat,
                |k: int| 0u64,
            ),
    {
        Self::new_builder(num_bits)
    }

    /// Builder over the words `bit_vec`, padded with zero words to a
    /// multiple of 2, with a random seed.
    pub fn builder_from_vec(bit_vec: Vec<u64>) -> (r: Builder<128>)
        requires
            bit_vec@.len() > 0,
            bit_vec@.len() * 64 + 128 <= usize::MAX,
        ensures
            r.wf(),
            r.words() == padded_words(bit_vec@, 128),
    {
        Self::new_builder_from_vec(bit_vec)
    }
}

impl BloomFilter<256> {
    /// Builder with at least `num_bits` bits, in blocks of 256 bits, with a
    /// random seed.
    pub fn builder_from_bits(num_bits: usize) -> (r: Builder<256>)
        requires
            num_bits > 0,
            num_bits <= usize::MAX - 256,
        ensures
            r.wf(),
            r.words() == Seq::new(
                (blocks_for_bits(num_bits as int, 256) * 4) as nat,
                |k: int| 0u64,
            ),
    {
        Self::new_builder(num_bits)
    }

    /// Builder over the words `bit_vec`, padded with zero words to a
    /// multiple of 4, with a random seed.
    pub fn builder_from_vec(bit_vec: Vec<u64>) -> (r: Builder<256>)
        requires
            bit_vec@.len() > 0,
            bit_vec@.len() * 64 + 256 <= usize::MAX,
        ensures
            r.wf(),
            r.words() == padded_words(bit_vec@, 256),
    {
        Self::new_builder_from_vec(bit_vec)
    }
}

impl BloomFilter<512> {
    /// Builder with at least `num_bits` bits, in blocks of 512 bits, with a
    /// random seed.
    pub fn builder(num_bits: usize) -> (r: Builder<512>)
        requires
            num_bits > 0,
            num_bits <= usize::MAX - 512,
        ensures
            r.wf(),
            r.words() == Seq::new(
                (blocks_for_bits(num_bits as int, 512) * 8) as nat,
                |k: int| 0u64,
            ),
    {
        Self::builder_from_bits(num_bits)
    }

    /// Builder with at least `num_bits` bits, in blocks of 512 bits, with a
    /// random seed.
    pub fn builder_from_bits(num_bits: usize) -> (r: Builder<512>)
        requires
            num_bits > 0,
            num_bits <= usize::MAX - 512,
        ensures
            r.wf(),
            r.words() == Seq::new(
                (blocks_for_bits(num_bits as int, 512) * 8) as nat,
                |k: int| 0u64,
            ),
    {
        Self::new_builder(num_bits)
    }

    /// Builder over the words `bit_vec`, padded with zero words to a
    /// multiple of 8, with a random seed.
    pub fn builder_from_vec(bit_vec: Vec<u64>) -> (r: Builder<512>)
        requires
            bit_vec@.len() > 0,
            bit_vec@.len() * 64 + 512 <= usize::MAX,
        ensures
            r.wf(),
            r.words() == padded_words(bit_vec@, 512),
    {
        Self::new_builder_from_vec(bit_vec)
    }
}

} // verus!
