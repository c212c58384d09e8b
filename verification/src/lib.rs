//! Support code for `halo2`: byte-oriented I/O traits, insertion-ordered
//! maps and a deterministic FNV-1a hasher, and a sequential stand-in for the
//! parallelism interface.

pub mod io;

pub mod collections;
pub mod multicore;
