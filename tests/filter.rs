use fastbloom::hasher::DefaultHasher;
use fastbloom::hashing::{block_index, next_hash, seed_pair};
use fastbloom::{BloomFilter, FilterItem};
use rand::{rngs::StdRng, Rng, SeedableRng};
use std::collections::HashSet;
use std::iter::repeat;

fn seeded_hasher() -> DefaultHasher {
    DefaultHasher::seeded(u128::from_be_bytes([42; 16]))
}

fn random_strings(num: usize, min_repeat: u32, max_repeat: u32, seed: u64) -> Vec<String> {
    let mut rng = StdRng::seed_from_u64(seed);
    let gen = rand_regex::Regex::compile(r"[a-zA-Z]+", max_repeat).unwrap();
    (&mut rng)
        .sample_iter(&gen)
        .filter(|s: &String| s.len() >= min_repeat as usize)
        .take(num)
        .collect()
}

fn random_numbers(num: usize, seed: u64) -> Vec<u64> {
    let mut rng = StdRng::seed_from_u64(seed);
    repeat(()).take(num).map(|_| rng.gen()).collect()
}

fn new_filter<const N: usize, T: FilterItem>(num_bits: usize, items: &[T]) -> BloomFilter<N> {
    BloomFilter::<N>::new_builder(num_bits)
        .hasher(seeded_hasher())
        .items(items)
}

fn block_counts<const N: usize>(filter: &BloomFilter<N>) -> Vec<u64> {
    filter
        .as_slice()
        .chunks(N / 64)
        .map(|block| block.iter().map(|x| x.count_ones() as u64).sum())
        .collect()
}

fn false_pos_rate_with_vals<const N: usize>(
    filter: &BloomFilter<N>,
    control: &HashSet<u64>,
    anti_vals: &[u64],
) -> f64 {
    let mut total = 0;
    let mut false_positives = 0;
    for x in anti_vals.iter() {
        if !control.contains(x) {
            total += 1;
            false_positives += filter.contains(x) as usize;
        }
    }
    (false_positives as f64) / (total as f64)
}

fn assert_even_distribution(distr: &[u64], err: f64) {
    assert!(err > 0.0 && err < 1.0);
    let expected: i64 = (distr.iter().sum::<u64>() / (distr.len() as u64)) as i64;
    let thresh = (expected as f64 * err) as i64;
    for x in distr {
        let diff = (*x as i64 - expected).abs();
        assert!(diff <= thresh, "{x:?} deviates from {expected:?}");
    }
}

fn to_from_<const N: usize>(size: usize) {
    let vals = random_numbers(100, size as u64);
    let mut b = BloomFilter::<N>::new_builder(size).seed(&1).hashes(3);
    b.extend(&vals);
    let x = b.as_slice();
    let b2 = BloomFilter::<N>::new_builder_from_vec(x.to_vec())
        .seed(&1)
        .hashes(3);
    assert_eq!(b, b2);
    assert_eq!(b.num_blocks() * N, b.as_slice().len() * 64);
    assert!(size <= b.as_slice().len() * 64);
    assert!((size + N) > b.as_slice().len() * 64);
}

#[test]
fn test_to_from_vec() {
    for size in 1..=10009 {
        to_from_::<64>(size);
        to_from_::<128>(size);
        to_from_::<256>(size);
        to_from_::<512>(size);
    }
}

fn random_inserts_always_contained_<const N: usize>() {
    for mag in 1..6 {
        let size = 10usize.pow(mag);
        for bloom_size_mag in 6..10 {
            let num_blocks_bytes = 1 << bloom_size_mag;
            let sample_vals = random_numbers(size, 42);
            let num_bits = num_blocks_bytes * 8;
            let filter: BloomFilter<N> = new_filter(num_bits, &sample_vals);
            assert!(sample_vals.into_iter().all(|x| filter.contains(&x)));
        }
    }
}

#[test]
fn random_inserts_always_contained() {
    random_inserts_always_contained_::<512>();
    random_inserts_always_contained_::<256>();
    random_inserts_always_contained_::<128>();
    random_inserts_always_contained_::<64>();
}

fn test_optimal_hashes_is_optimal_<const N: usize>() {
    let sizes = [1000, 2000, 5000, 6000, 8000, 10000];
    let mut wins = 0;
    for num_items in sizes.clone() {
        let sample_vals = random_numbers(num_items, 42);
        let num_bits = 65000 * 8;
        let filter: BloomFilter<N> = new_filter(num_bits, &sample_vals);
        let control: HashSet<u64> = sample_vals.clone().into_iter().collect();
        let anti_vals = random_numbers(100_000, 3);
        let fp_to_beat = false_pos_rate_with_vals(&filter, &control, &anti_vals);
        let optimal_hashes = filter.num_hashes();

        for num_hashes in [optimal_hashes - 1, optimal_hashes + 1] {
            let mut test_filter = BloomFilter::<N>::new_builder(num_bits)
                .hasher(seeded_hasher())
                .hashes(num_hashes);
            test_filter.extend(&sample_vals);
            let fp = false_pos_rate_with_vals(&test_filter, &control, &anti_vals);
            wins += (fp_to_beat <= fp) as usize;
        }
    }
    assert!(wins > sizes.len() / 2);
}

#[test]
fn test_optimal_hashes_is_optimal() {
    test_optimal_hashes_is_optimal_::<512>();
    test_optimal_hashes_is_optimal_::<256>();
    test_optimal_hashes_is_optimal_::<128>();
    test_optimal_hashes_is_optimal_::<64>();
}

#[test]
fn seeded_is_same() {
    let num_bits = 1 << 13;
    let sample_vals = random_strings(1000, 16, 32, 53226);
    for x in 0u8..10 {
        let seed = x as u128;
        assert_eq!(
            BloomFilter::builder(num_bits)
                .seed(&seed)
                .items(&sample_vals),
            BloomFilter::builder(num_bits)
                .seed(&seed)
                .items(&sample_vals)
        );
        assert!(
            !(BloomFilter::builder(num_bits)
                .seed(&(seed + 1))
                .items(&sample_vals)
                == BloomFilter::builder(num_bits)
                    .seed(&seed)
                    .items(&sample_vals))
        );
    }
}

fn false_pos_decrease_with_size_<const N: usize>() {
    let anti_vals = random_numbers(1000, 2);
    for mag in 5..6 {
        let size = 10usize.pow(mag);
        let mut prev_fp = 1.0;
        let mut prev_prev_fp = 1.0;
        for num_bits_mag in 9..22 {
            let num_bits = 1 << num_bits_mag;
            let sample_vals = random_numbers(size, 1);
            let filter: BloomFilter<N> = new_filter(num_bits, &sample_vals);
            let control: HashSet<u64> = sample_vals.into_iter().collect();
            let fp = false_pos_rate_with_vals(&filter, &control, &anti_vals);

            let err = format!(
                "size: {size:}, num_bits: {num_bits:}, {:.6}, {:?}",
                fp,
                filter.num_hashes(),
            );
            assert!(
                fp <= prev_fp || prev_fp <= prev_prev_fp || fp < 0.01,
                "{}",
                err
            );
            prev_prev_fp = prev_fp;
            prev_fp = fp;
        }
    }
}

#[test]
fn false_pos_decrease_with_size() {
    false_pos_decrease_with_size_::<512>();
    false_pos_decrease_with_size_::<256>();
    false_pos_decrease_with_size_::<128>();
    false_pos_decrease_with_size_::<64>();
}

fn block_distribution_<const N: usize>() {
    let filter: BloomFilter<N> = new_filter(1000, &random_numbers(1000, 1));
    assert_even_distribution(&block_counts(&filter), 0.4);
}

#[test]
fn block_distribution() {
    block_distribution_::<512>();
    block_distribution_::<256>();
    block_distribution_::<128>();
    block_distribution_::<64>();
}

fn block_hash_distribution_(num_blocks: usize) {
    let mut buckets = vec![0; num_blocks];
    let hasher = seeded_hasher();
    for x in random_numbers(num_blocks * 10000, 42) {
        let (h1, _) = seed_pair(hasher.hash_item(&x));
        buckets[block_index(num_blocks, h1)] += 1;
    }
    assert_even_distribution(&buckets, 0.05);
}

#[test]
fn block_hash_distribution() {
    for size in [2, 7, 10, 100] {
        block_hash_distribution_(size);
    }
}

#[test]
fn test_seeded_hash_from_hashes_depth() {
    for size in [1, 10, 100, 1000] {
        let mut rng = StdRng::seed_from_u64(524323);
        let mut h1 = (&mut rng).gen_range(0..u64::MAX);
        let h2 = (&mut rng).gen_range(0..u64::MAX);
        let mut seeded_hash_counts = vec![0; size];
        for _ in 0..(size * 10_000) {
            let hi = next_hash(&mut h1, h2);
            seeded_hash_counts[(hi as usize) % size] += 1;
        }
        assert_even_distribution(&seeded_hash_counts, 0.05);
    }
}

fn index_hash_distribution_<const N: usize>(thresh_pct: f64) {
    let filter: BloomFilter<N> = BloomFilter::<N>::new_builder(1).seed(&0).hashes(1);
    assert_eq!(filter.num_blocks(), 1);
    let (mut h1, h2) = seed_pair(DefaultHasher::seeded(0).hash_item("qwerty"));
    let mut counts = vec![0; N];
    let iterations = 10000 * N as u64;
    for _ in 0..iterations {
        let bit_index = BloomFilter::<N>::bit_index(&mut h1, h2);
        let index = bit_index % N;
        counts[index] += 1;
    }
    assert_even_distribution(&counts, thresh_pct);
}

#[test]
fn index_hash_distribution() {
    index_hash_distribution_::<512>(0.05);
    index_hash_distribution_::<256>(0.05);
    index_hash_distribution_::<128>(0.05);
    index_hash_distribution_::<64>(0.05);
}

fn test_with_distr_fn<const N: usize, F: FnMut(usize) -> usize>(
    mut f: F,
    filter: &BloomFilter<N>,
    hasher: &DefaultHasher,
    thresh_pct: f64,
) {
    let num = 2000 * N;
    let mut counts = vec![0; N * filter.num_blocks()];
    for val in (0..num).map(|i| f(i)) {
        let (mut h1, h2) = seed_pair(hasher.hash_item(&val));
        let block_index = block_index(filter.num_blocks(), h1);
        for _ in 0..filter.num_hashes() {
            let j = BloomFilter::<N>::bit_index(&mut h1, h2);
            let global = block_index * N + j;
            counts[global] += 1;
        }
    }
    assert_even_distribution(&counts, thresh_pct);
}

fn test_hash_integration_<const N: usize>(thresh_pct: f64) {
    let hasher = seeded_hasher();
    for num_hashes in [1, 4, 8] {
        let clone_me = BloomFilter::<N>::new_builder(4)
            .hasher(hasher)
            .hashes(num_hashes);
        let mut rng = StdRng::seed_from_u64(42);
        test_with_distr_fn(
            |_| (&mut rng).gen_range(0..usize::MAX),
            &clone_me,
            &hasher,
            thresh_pct,
        );
        test_with_distr_fn(|x| x * 2, &clone_me, &hasher, thresh_pct);
        test_with_distr_fn(|x| x * 3, &clone_me, &hasher, thresh_pct);
        test_with_distr_fn(
            |x| x * clone_me.num_hashes() as usize,
            &clone_me,
            &hasher,
            thresh_pct,
        );
        test_with_distr_fn(
            |x| x * clone_me.num_blocks() as usize,
            &clone_me,
            &hasher,
            thresh_pct,
        );
        test_with_distr_fn(|x| x * N, &clone_me, &hasher, thresh_pct);
    }
}

#[test]
fn test_hash_integration() {
    let pct = 0.1;
    test_hash_integration_::<512>(pct);
    test_hash_integration_::<256>(pct);
    test_hash_integration_::<128>(pct);
    test_hash_integration_::<64>(pct);
}

#[test]
fn test_debug() {
    let filter = BloomFilter::builder(1).hashes(1);
    assert!(!format!("{:?}", filter).is_empty());
}

#[test]
fn test_clone() {
    let filter = BloomFilter::builder(4).hashes(4);
    assert_eq!(filter, filter.clone());
}
