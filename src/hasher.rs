//! The source hash of an item: SipHash-1-3 under two 64-bit keys, over the
//! item's byte encoding.
use vstd::prelude::*;
use vstd::string::StringSliceAdditionalSpecFns;
use vstd::utf8::encode_utf8;
use siphasher::sip::SipHasher13;

verus! {

/// What SipHash-1-3 keyed with `(k0, k1)` gives for `bytes`.
pub uninterp spec fn sip13(k0: u64, k1: u64, bytes: Seq<u8>) -> u64;

/// Relies on siphasher's `SipHasher13::new_with_keys` and `SipHasher13::hash`:
/// the hash depends on the keys and the bytes alone.
#[verifier::external_body]
fn sip13_hash(k0: u64, k1: u64, bytes: &[u8]) -> (r: u64)
    ensures
        r == sip13(k0, k1, bytes@),
{
    SipHasher13::new_with_keys(k0, k1).hash(bytes)
}

/// Relies on `rand::random`: a value drawn from the thread-local generator.
#[verifier::external_body]
fn random_seed() -> (r: u128) {
    rand::random::<u128>()
}

/// The `n` low bytes of `x`, least significant first.
pub open spec fn le_bytes(x: nat, n: nat) -> Seq<u8>
    decreases n,
{
    if n == 0 {
        Seq::empty()
    } else {
        seq![(x % 256) as u8] + le_bytes(x / 256, (n - 1) as nat)
    }
}

/// Encodes the `n` low bytes of `x`, least significant first.
pub fn to_le_bytes(x: u64, n: usize) -> (r: Vec<u8>)
    ensures
        r@ == le_bytes(x as nat, n as nat),
{
    let mut out: Vec<u8> = Vec::new();
    let mut rest: u64 = x;
    let mut i: usize = 0;
    while i < n
        invariant
            i <= n,
            out@ + le_bytes(rest as nat, (n - i) as nat) == le_bytes(x as nat, n as nat),
        decreases n - i,
    {
        let ghost before = out@;
        out.push((rest % 256) as u8);
        assert(le_bytes(rest as nat, (n - i) as nat) == seq![(rest % 256) as u8] + le_bytes(
            (rest / 256) as nat,
            (n - i - 1) as nat,
        ));
        assert(out@ + le_bytes((rest / 256) as nat, (n - i - 1) as nat) =~= before + le_bytes(
            rest as nat,
            (n - i) as nat,
        ));
        rest = rest / 256;
        i = i + 1;
    }
    assert(le_bytes(rest as nat, 0) =~= Seq::<u8>::empty());
    assert(out@ =~= out@ + le_bytes(rest as nat, 0));
    out
}

/// Appends `bytes` to `out`.
fn append_bytes(out: &mut Vec<u8>, bytes: &[u8])
    ensures
        final(out)@ == old(out)@ + bytes@,
{
    let ghost start = out@;
    let mut i: usize = 0;
    while i < bytes.len()
        invariant
            i <= bytes@.len(),
            out@ == start + bytes@.subrange(0, i as int),
        decreases bytes@.len() - i,
    {
        out.push(bytes[i]);
        i = i + 1;
        assert(out@ =~= start + bytes@.subrange(0, i as int));
    }
    assert(bytes@.subrange(0, bytes@.len() as int) =~= bytes@);
}

/// A value that the filter can hold: it is hashed as a fixed byte string,
/// the one that std's `Hash` feeds a hasher for it.
pub trait FilterItem {
    /// The bytes that stand for this value.
    spec fn item_bytes(&self) -> Seq<u8>;

    fn to_item_bytes(&self) -> (r: Vec<u8>)
        ensures
            r@ == self.item_bytes(),
    ;
}

impl FilterItem for u64 {
    open spec fn item_bytes(&self) -> Seq<u8> {
        le_bytes(*self as nat, 8)
    }

    fn to_item_bytes(&self) -> (r: Vec<u8>) {
        to_le_bytes(*self, 8)
    }
}

impl FilterItem for u32 {
    open spec fn item_bytes(&self) -> Seq<u8> {
        le_bytes(*self as nat, 4)
    }

    fn to_item_bytes(&self) -> (r: Vec<u8>) {
        to_le_bytes(*self as u64, 4)
    }
}

impl FilterItem for usize {
    open spec fn item_bytes(&self) -> Seq<u8> {
        le_bytes(*self as nat, 8)
    }

    fn to_item_bytes(&self) -> (r: Vec<u8>) {
        to_le_bytes(*self as u64, 8)
    }
}

impl FilterItem for i64 {
    open spec fn item_bytes(&self) -> Seq<u8> {
        le_bytes((*self as u64) as nat, 8)
    }

    fn to_item_bytes(&self) -> (r: Vec<u8>) {
        to_le_bytes(*self as u64, 8)
    }
}

impl FilterItem for i32 {
    open spec fn item_bytes(&self) -> Seq<u8> {
        le_bytes((*self as u32) as nat, 4)
    }

    fn to_item_bytes(&self) -> (r: Vec<u8>) {
        to_le_bytes((*self as u32) as u64, 4)
    }
}

/// Ends a string's bytes, as std's `Hash` for `str` does, so that no
/// string's encoding is a prefix of another's.
pub const STR_END: u8 = 0xff;

impl FilterItem for str {
    open spec fn item_bytes(&self) -> Seq<u8> {
        self.spec_bytes().push(STR_END)
    }

    fn to_item_bytes(&self) -> (r: Vec<u8>) {
        let mut v = vstd::slice::slice_to_vec(self.as_bytes());
        v.push(STR_END);
        v
    }
}

impl FilterItem for String {
    open spec fn item_bytes(&self) -> Seq<u8> {
        encode_utf8(self@).push(STR_END)
    }

    fn to_item_bytes(&self) -> (r: Vec<u8>) {
        self.as_str().to_item_bytes()
    }
}

/// A byte slice: its length as eight bytes, then its bytes.
impl FilterItem for [u8] {
    open spec fn item_bytes(&self) -> Seq<u8> {
        le_bytes(self@.len(), 8) + self@
    }

    fn to_item_bytes(&self) -> (r: Vec<u8>) {
        let mut v = to_le_bytes(self.len() as u64, 8);
        append_bytes(&mut v, self);
        v
    }
}

impl<'a, T: FilterItem + ?Sized> FilterItem for &'a T {
    open spec fn item_bytes(&self) -> Seq<u8> {
        (**self).item_bytes()
    }

    fn to_item_bytes(&self) -> (r: Vec<u8>) {
        (**self).to_item_bytes()
    }
}

/// A seeded source hasher: SipHash-1-3 under the keys `(k0, k1)`.
#[derive(Debug, Clone, Copy, PartialEq, Eq, Structural)]
pub struct DefaultHasher {
    pub k0: u64,
    pub k1: u64,
}

impl DefaultHasher {
    /// The hasher for a 128-bit seed: its high half is the first key, its
    /// low half the second.
    pub fn seeded(seed: u128) -> (r: Self)
        ensures
            r.k0 == (seed >> 64u128) as u64,
            r.k1 == seed as u64,
    {
        DefaultHasher { k0: (seed >> 64u128) as u64, k1: seed as u64 }
    }

    /// A hasher with a seed drawn at random.
    pub fn random() -> (r: Self) {
        Self::seeded(random_seed())
    }

    /// The source hash of `val`.
    pub open spec fn spec_hash(&self, bytes: Seq<u8>) -> u64 {
        sip13(self.k0, self.k1, bytes)
    }

    pub fn hash_item<T: FilterItem + ?Sized>(&self, val: &T) -> (r: u64)
        ensures
            r == self.spec_hash(val.item_bytes()),
    {
        let bytes = val.to_item_bytes();
        sip13_hash(self.k0, self.k1, bytes.as_slice())
    }
}

} // verus!
