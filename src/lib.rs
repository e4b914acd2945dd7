//! A blocked Bloom filter: an approximate membership set whose every insert
//! and query touches a single block of 64, 128, 256 or 512 bits.

pub mod bit_vector;
pub mod builder;
pub mod filter;
pub mod hasher;
pub mod hashing;
pub mod masks;
pub mod params;
pub mod signature;

pub use builder::Builder;
pub use filter::BloomFilter;
pub use hasher::{DefaultHasher, FilterItem};
