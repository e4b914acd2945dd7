use fastbloom::hasher::DefaultHasher;
use fastbloom::hashing::{block_index, next_hash, seed_pair};
use fastbloom::params::{optimal_hashes, split_hashes};
use fastbloom::signature::signature;
use fastbloom::BloomFilter;

#[test]
fn items_are_contained() {
    let filter = BloomFilter::builder(1024).items(&["42", "🦀"]);
    assert!(filter.contains("42"));
    assert!(filter.contains("🦀"));
}

#[test]
fn round_trip_through_words() {
    let mut f = BloomFilter::<512>::builder_from_bits(1024).seed(&7).hashes(4);
    f.insert("42");
    f.insert("🦀");
    let words = f.as_slice().to_vec();
    let g = BloomFilter::<512>::builder_from_vec(words).seed(&7).hashes(4);
    assert_eq!(f, g);
    assert!(g.contains("42"));
}

#[test]
fn single_word_filter() {
    let mut f = BloomFilter::<64>::builder_from_bits(64).seed(&3).hashes(4);
    f.insert(&1);
    assert_eq!(f.as_slice().len(), 1);
    assert!(f.as_slice()[0].count_ones() >= 1);
    assert!(f.contains(&1));
}

#[test]
fn different_seeds_differ() {
    let items: Vec<String> = (0..1000).map(|i| format!("item-{i}")).collect();
    let a = BloomFilter::builder(1 << 13).seed(&5).items(&items);
    let b = BloomFilter::builder(1 << 13).seed(&6).items(&items);
    for x in items.iter() {
        assert!(a.contains(x));
        assert!(b.contains(x));
    }
    assert!(a != b);
}

#[test]
fn empty_filter_contains_nothing() {
    let f = BloomFilter::builder(1024).seed(&1).hashes(4);
    assert!(f.as_slice().iter().all(|w| *w == 0));
    assert!(!f.contains("42"));
    assert!(!f.contains(&0u64));
}

#[test]
fn contains_stays_true_after_more_inserts() {
    let mut f = BloomFilter::<128>::builder_from_bits(4096).seed(&9).expected_items(50);
    f.insert(&17u64);
    for i in 0..200u64 {
        f.insert(&i.wrapping_mul(7919));
        assert!(f.contains(&17u64));
    }
}

#[test]
fn sizes_are_rounded_up_to_blocks() {
    let f = BloomFilter::<256>::builder_from_bits(257).hashes(2);
    assert_eq!(f.num_blocks(), 2);
    assert_eq!(f.num_bits(), 512);
    assert_eq!(f.as_slice().len(), 8);
    let g = BloomFilter::<512>::builder_from_vec(vec![1, 2, 3]).hashes(2);
    assert_eq!(g.as_slice(), &[1, 2, 3, 0, 0, 0, 0, 0]);
    assert_eq!(g.num_blocks(), 1);
    let h = BloomFilter::<64>::builder_from_vec(vec![0x517cc1b727220a95]).hashes(4);
    assert_eq!(h.as_slice(), &[0x517cc1b727220a95]);
}

#[test]
fn num_hashes_reports_target() {
    assert_eq!(BloomFilter::builder(1024).hashes(4).num_hashes(), 4);
    let f = BloomFilter::<512>::builder_from_bits(65000 * 8).expected_items(10000);
    assert_eq!(f.num_blocks(), 1016);
    assert_eq!(f.num_hashes(), 36);
    let g = BloomFilter::<64>::builder_from_bits(64).expected_items(0);
    assert_eq!(g.num_hashes(), 3);
}

#[test]
fn optimal_hashes_values() {
    assert_eq!(optimal_hashes(512, 1016, 10000), 36);
    assert_eq!(optimal_hashes(512, 1016, 1000), 177);
    assert_eq!(optimal_hashes(64, 8125, 10000), 3);
    assert_eq!(optimal_hashes(128, 1, 0), 11);
    assert_eq!(optimal_hashes(256, 1, 0), 44);
    assert_eq!(optimal_hashes(512, 100, 100000), 1);
}

#[test]
fn split_into_rounds_and_sparse() {
    assert_eq!(split_hashes(36, 8), (Some(4), 4));
    assert_eq!(split_hashes(3, 8), (None, 3));
    assert_eq!(split_hashes(16, 8), (Some(2), 0));
    assert_eq!(split_hashes(3, 1), (Some(3), 0));
}

#[test]
fn next_hash_steps() {
    let mut h1: u64 = 1;
    let r = next_hash(&mut h1, 2);
    assert_eq!(r, 3 << 5);
    assert_eq!(h1, 96);
    let mut h: u64 = u64::MAX;
    let r = next_hash(&mut h, 1);
    assert_eq!(r, 0);
    let mut h: u64 = 1 << 63;
    let r = next_hash(&mut h, 0);
    assert_eq!(r, 1 << 4);
}

#[test]
fn seed_pair_mixes_high_half() {
    let (h1, h2) = seed_pair(0x0000_0002_0000_0005);
    assert_eq!(h1, 0x0000_0002_0000_0005);
    assert_eq!(h2, 2u64.wrapping_mul(0x517c_c1b7_2722_0a95));
    assert_eq!(seed_pair(5).1, 0);
}

#[test]
fn block_index_in_range() {
    assert_eq!(block_index(10, 0), 0);
    assert_eq!(block_index(10, u64::MAX), 9);
    assert_eq!(block_index(4, 1 << 63), 2);
    for h in [0u64, 1, 1 << 40, u64::MAX / 3, u64::MAX] {
        assert!(block_index(7, h) < 7);
    }
}

#[test]
fn signature_masks() {
    let mut h1: u64 = 0;
    let m = signature(&mut h1, 1, 0);
    assert_eq!(m, 0);
    assert_eq!(h1, 0);
    let mut h1: u64 = 0;
    let m = signature(&mut h1, 1, 2);
    assert_eq!(h1, ((1u64 << 5) + 1) << 5);
    assert_eq!(m, (1u64 << 32) | (1u64 << (((1u64 << 5) + 1) << 5 & 63)));
}

#[test]
fn sip_hash_known_values() {
    assert_eq!(DefaultHasher::seeded(0).hash_item("42"), 0x5ee89d10068c3d9);
    assert_eq!(DefaultHasher::seeded(0).hash_item(&7u64), 0x6634b0bda4fe8a7b);
    let keyed = DefaultHasher::seeded((1u128 << 64) | 2);
    assert_eq!(keyed.hash_item("hello world!"), 0x3cecdd06c77e21fe);
    assert_ne!(DefaultHasher::seeded(1).hash_item("42"), DefaultHasher::seeded(0).hash_item("42"));
}

#[test]
fn item_encodings_agree() {
    let h = DefaultHasher::seeded(11);
    let s = String::from("abc");
    assert_eq!(h.hash_item(&s), h.hash_item("abc"));
    assert_ne!(h.hash_item(&b"abc"[..]), h.hash_item("abc"));
    assert_eq!(DefaultHasher::seeded(0).hash_item(&b"abc"[..]), 0x4aa3e4b34416e6c9);
    assert_eq!(h.hash_item(&5u32), h.hash_item(&5i32));
    assert_eq!(h.hash_item(&5usize), h.hash_item(&5u64));
    assert_eq!(h.hash_item(&-1i64), h.hash_item(&u64::MAX));
}
