//! Map types used internally: a deterministic FNV-1a hasher for hash maps
//! that need no OS randomness, and [`VecMap`], an insertion-order-preserving
//! map backed by a `Vec`.

pub mod fnv;
pub mod vec_map;

pub use fnv::{FnvHasher, FNV_OFFSET_BASIS, FNV_PRIME};
pub use vec_map::{OccupiedEntry, VacantEntry, VecMap, VecMapEntry};
