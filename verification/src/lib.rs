//! An in-memory, content-addressed store of byte strings with signed
//! reference counts.
//!
//! Values are keyed by their Keccak-256 digest. Every entry carries a count of
//! the owners that still refer to it; the count may fall below zero, in which
//! case it records removals that a later insertion has yet to balance.

pub mod digest_map;
pub mod hash;
pub mod laws;
pub mod memorydb;
pub mod model;

pub use digest_map::DigestMap;
pub use hash::{DBValue, H256, SHA3_NULL_RLP};
pub use memorydb::MemoryDB;
