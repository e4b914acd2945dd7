//! A flat buffer of 64-bit words, chunked into blocks of `BLOCK_SIZE_BITS` bits.
use vstd::prelude::*;

verus! {

/// The block sizes that the filter supports.
pub open spec fn valid_block_size(block_bits: int) -> bool {
    block_bits == 64 || block_bits == 128 || block_bits == 256 || block_bits == 512
}

/// Words per block.
pub open spec fn words_per_block(block_bits: int) -> int {
    block_bits / 64
}

/// The bit at `offset` of a block, as seen from word `j` of that block.
pub open spec fn bit_in_word(offset: int, j: int) -> u64 {
    if offset / 64 == j {
        1u64 << ((offset % 64) as u64)
    } else {
        0u64
    }
}

/// A word count that a vector of blocks can have: at least one block, whole
/// blocks only, and a bit count that fits in `usize`.
pub open spec fn valid_word_count(len: int, block_bits: int) -> bool {
    &&& valid_block_size(block_bits)
    &&& len > 0
    &&& len % words_per_block(block_bits) == 0
    &&& len * 64 <= usize::MAX
}

/// The word count after padding `len` up to whole blocks.
pub open spec fn padded_len(len: int, block_bits: int) -> int {
    let w = words_per_block(block_bits);
    if len % w == 0 {
        len
    } else {
        len + (w - len % w)
    }
}

#[derive(Debug, Clone)]
pub struct BlockedBitVec<const BLOCK_SIZE_BITS: usize> {
    bits: Vec<u64>,
}

impl<const BLOCK_SIZE_BITS: usize> View for BlockedBitVec<BLOCK_SIZE_BITS> {
    type V = Seq<u64>;

    closed spec fn view(&self) -> Seq<u64> {
        self.bits@
    }
}

impl<const BLOCK_SIZE_BITS: usize> BlockedBitVec<BLOCK_SIZE_BITS> {
    pub open spec fn wf(&self) -> bool {
        valid_word_count(self@.len() as int, BLOCK_SIZE_BITS as int)
    }

    pub open spec fn spec_num_blocks(&self) -> int {
        (self@.len() as int) / words_per_block(BLOCK_SIZE_BITS as int)
    }

    /// Index of word `j` of block `block`.
    pub open spec fn word_index(block: int, j: int) -> int {
        block * words_per_block(BLOCK_SIZE_BITS as int) + j
    }

    /// `num_blocks` zeroed blocks; `None` when `num_blocks` is zero.
    pub fn new(num_blocks: usize) -> (r: Option<Self>)
        requires
            valid_block_size(BLOCK_SIZE_BITS as int),
            num_blocks * BLOCK_SIZE_BITS <= usize::MAX,
        ensures
            num_blocks == 0 <==> r is None,
            r matches Some(v) ==> {
                &&& v.wf()
                &&& v@ == Seq::new(
                    (num_blocks * words_per_block(BLOCK_SIZE_BITS as int)) as nat,
                    |k: int| 0u64,
                )
            },
    {
        if num_blocks == 0 {
            return None;
        }
        let w: usize = BLOCK_SIZE_BITS / 64;
        assert(num_blocks * w <= num_blocks * BLOCK_SIZE_BITS) by (nonlinear_arith)
            requires
                w == BLOCK_SIZE_BITS / 64,
                BLOCK_SIZE_BITS >= 64,
        ;
        let len: usize = num_blocks * w;
        let mut bits: Vec<u64> = Vec::with_capacity(len);
        let mut i: usize = 0;
        while i < len
            invariant
                i <= len,
                bits@ == Seq::new(i as nat, |k: int| 0u64),
            decreases len - i,
        {
            bits.push(0u64);
            i = i + 1;
            assert(bits@ =~= Seq::new(i as nat, |k: int| 0u64));
        }
        assert((num_blocks * w) % (w as int) == 0 && (num_blocks * w) * 64 == num_blocks
            * BLOCK_SIZE_BITS && num_blocks * w > 0) by (nonlinear_arith)
            requires
                w == BLOCK_SIZE_BITS / 64,
                valid_block_size(BLOCK_SIZE_BITS as int),
                num_blocks > 0,
        ;
        Some(BlockedBitVec { bits })
    }

    /// Adopts `words`, padded with zero words up to whole blocks; `None` when
    /// `words` is empty.
    pub fn from_words(words: Vec<u64>) -> (r: Option<Self>)
        requires
            valid_block_size(BLOCK_SIZE_BITS as int),
            (words@.len() as int) * 64 + BLOCK_SIZE_BITS <= usize::MAX,
        ensures
            (words@.len() as int) == 0 <==> r is None,
            r matches Some(v) ==> {
                &&& v.wf()
                &&& v@.len() == padded_len(words@.len() as int, BLOCK_SIZE_BITS as int)
                &&& v@.subrange(0, words@.len() as int) == words@
                &&& forall|k: int| (words@.len() as int) <= k < v@.len() ==> v@[k] == 0
            },
    {
        if words.len() == 0 {
            return None;
        }
        let w: usize = BLOCK_SIZE_BITS / 64;
        let mut bits = words;
        let ghost orig = bits@;
        let target: usize = if bits.len() % w == 0 {
            bits.len()
        } else {
            bits.len() + (w - bits.len() % w)
        };
        while bits.len() < target
            invariant
                (orig.len() as int) <= (bits@.len() as int) <= target,
                target == padded_len(orig.len() as int, BLOCK_SIZE_BITS as int),
                bits@.subrange(0, orig.len() as int) == orig,
                forall|k: int| (orig.len() as int) <= k < (bits@.len() as int) ==> bits@[k] == 0,
            decreases target - (bits@.len() as int),
        {
            bits.push(0u64);
            assert(bits@.subrange(0, orig.len() as int) =~= orig);
        }
        assert((target as int) % (w as int) == 0 && (target as int) * 64 <= usize::MAX)
            by (nonlinear_arith)
            requires
                w == BLOCK_SIZE_BITS / 64,
                valid_block_size(BLOCK_SIZE_BITS as int),
                target == padded_len(orig.len() as int, BLOCK_SIZE_BITS as int),
                (orig.len() as int) * 64 + BLOCK_SIZE_BITS <= usize::MAX,
        ;
        Some(BlockedBitVec { bits })
    }

    pub fn num_blocks(&self) -> (r: usize)
        requires
            self.wf(),
        ensures
            r as int == self.spec_num_blocks(),
            r > 0,
            r * BLOCK_SIZE_BITS == (self@.len() as int) * 64,
    {
        let w: usize = BLOCK_SIZE_BITS / 64;
        let ghost len = self@.len() as int;
        assert((len / (w as int)) * BLOCK_SIZE_BITS == len * 64 && len / (w as int) > 0)
            by (nonlinear_arith)
            requires
                w == BLOCK_SIZE_BITS / 64,
                valid_block_size(BLOCK_SIZE_BITS as int),
                len % (w as int) == 0,
                len > 0,
        ;
        self.bits.len() / w
    }

    /// Word `j` of block `block`.
    pub fn word(&self, block: usize, j: usize) -> (r: u64)
        requires
            self.wf(),
            block < self.spec_num_blocks(),
            j < words_per_block(BLOCK_SIZE_BITS as int),
        ensures
            r == self@[Self::word_index(block as int, j as int)],
    {
        proof {
            self.lemma_word_index_in_range(block as int, j as int);
        }
        self.bits[block * (BLOCK_SIZE_BITS / 64) + j]
    }

    /// Ors `mask` into word `j` of block `block`.
    pub fn or_word(&mut self, block: usize, j: usize, mask: u64)
        requires
            old(self).wf(),
            block < old(self).spec_num_blocks(),
            j < words_per_block(BLOCK_SIZE_BITS as int),
        ensures
            final(self).wf(),
            final(self)@ == old(self)@.update(
                Self::word_index(block as int, j as int),
                old(self)@[Self::word_index(block as int, j as int)] | mask,
            ),
    {
        proof {
            old(self).lemma_word_index_in_range(block as int, j as int);
        }
        let k: usize = block * (BLOCK_SIZE_BITS / 64) + j;
        let v = self.bits[k] | mask;
        self.bits.set(k, v);
    }

    /// Sets the bit at `offset` of block `block`.
    pub fn set_for_block(&mut self, block: usize, offset: usize)
        requires
            old(self).wf(),
            block < old(self).spec_num_blocks(),
            offset < BLOCK_SIZE_BITS,
        ensures
            final(self).wf(),
            final(self)@ == old(self)@.update(
                Self::word_index(block as int, offset as int / 64),
                old(self)@[Self::word_index(block as int, offset as int / 64)] | bit_in_word(
                    offset as int,
                    offset as int / 64,
                ),
            ),
    {
        let m: u64 = 1u64 << ((offset % 64) as u64);
        self.or_word(block, offset / 64, m);
    }

    /// Whether the bit at `offset` of block `block` is set.
    pub fn check_for_block(&self, block: usize, offset: usize) -> (r: bool)
        requires
            self.wf(),
            block < self.spec_num_blocks(),
            offset < BLOCK_SIZE_BITS,
        ensures
            r == (self@[Self::word_index(block as int, offset as int / 64)] & bit_in_word(
                offset as int,
                offset as int / 64,
            ) != 0),
    {
        let m: u64 = 1u64 << ((offset % 64) as u64);
        self.word(block, offset / 64) & m != 0
    }

    /// The words, for export.
    pub fn as_slice(&self) -> (r: &[u64])
        ensures
            r@ == self@,
    {
        self.bits.as_slice()
    }

    /// Word-by-word equality.
    pub fn same_words(&self, other: &Self) -> (r: bool)
        ensures
            r == (self@ == other@),
    {
        if self.bits.len() != other.bits.len() {
            return false;
        }
        let mut i: usize = 0;
        while i < self.bits.len()
            invariant
                (self@.len() as int) == other@.len(),
                i <= (self@.len() as int),
                forall|k: int| 0 <= k < i ==> self@[k] == other@[k],
            decreases (self@.len() as int) - i,
        {
            if self.bits[i] != other.bits[i] {
                return false;
            }
            i = i + 1;
        }
        assert(self@ =~= other@);
        true
    }

    pub proof fn lemma_word_index_in_range(&self, block: int, j: int)
        requires
            self.wf(),
            0 <= block < self.spec_num_blocks(),
            0 <= j < words_per_block(BLOCK_SIZE_BITS as int),
        ensures
            0 <= Self::word_index(block, j) < (self@.len() as int),
    {
        let w = words_per_block(BLOCK_SIZE_BITS as int);
        let n = self@.len() as int;
        assert(block * w + j < n) by (nonlinear_arith)
            requires
                w > 0,
                n % w == 0,
                0 <= block < n / w,
                0 <= j < w,
        ;
        assert(block * w >= 0) by (nonlinear_arith)
            requires
                w > 0,
                block >= 0,
        ;
    }
}

} // verus!
