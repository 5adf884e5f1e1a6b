//! Vector storage: append-only arenas with tombstone bitsets.

pub mod binary;
pub mod tombstone;

pub use binary::{BinaryStorageError, BinaryVectorStorage};
