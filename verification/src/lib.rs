//! A fast, non-cryptographic hash family in 32-bit and 64-bit variants.
//!
//! Each variant is available as a one-shot function over a whole buffer
//! (`hash32`, `hash64`) and as an incremental hasher (`State32`, `State64`)
//! that accepts input in chunks of any size and produces the same digest as
//! the one-shot function applied to the concatenation of the chunks.
//! `Hash32` and `Hash64` give every digest a canonical big-endian byte form
//! for byte-order-independent comparison and serialization.

pub mod bits;
pub mod canonical;
pub mod engine32;
pub mod engine64;

pub use bits::{le_u32_at, le_u64_at, rotl32, rotl64};
pub use canonical::{be_bytes32, be_bytes64, be_value32, be_value64};
pub use canonical::{
    lemma_canonical32_bytes_round_trip, lemma_canonical32_round_trip,
    lemma_canonical64_bytes_round_trip, lemma_canonical64_round_trip,
};
pub use canonical::{
    lemma_hash32_from_bytes, lemma_hash32_from_value, lemma_hash64_from_bytes,
    lemma_hash64_from_value,
};
pub use canonical::{Hash32, Hash64};
pub use engine32::{hash32, xxh32, State32};
pub use engine64::{hash64, xxh64, State64};
