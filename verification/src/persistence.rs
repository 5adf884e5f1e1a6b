//! Crash-safe persistence: a versioned, CRC-verified snapshot header
//! and an append-only write-ahead log of CRC-framed records.

pub mod checksum;
pub mod chunking;
pub mod entry;
pub mod header;
pub mod reader;
pub mod snapshot;
pub mod wal;
pub mod writer;

pub use header::{FileHeader, HeaderError, MAGIC, VERSION_MAJOR, VERSION_MINOR};
pub use writer::write_empty_index;

use vstd::prelude::*;

verus! {

/// Errors of persistence operations.
#[derive(Clone, Debug, PartialEq, Eq)]
pub enum PersistenceError {
    /// The buffer is smaller than what was about to be read.
    BufferTooSmall {
        /// Bytes needed.
        expected: usize,
        /// Bytes present.
        actual: usize,
    },
    /// The magic number is wrong.
    InvalidMagic {
        /// The magic expected.
        expected: [u8; 4],
        /// The magic found.
        actual: [u8; 4],
    },
    /// A checksum does not match its data.
    ChecksumMismatch {
        /// Checksum stored.
        expected: u32,
        /// Checksum calculated.
        actual: u32,
    },
    /// The snapshot's major version is not supported.
    UnsupportedVersion(u8, u8),
    /// A section offset or count is inconsistent with the image.
    InvalidLength {
        /// The inconsistent offset.
        offset: u64,
        /// The image length.
        length: u64,
    },
}

impl PersistenceError {
    /// The error as text.
    ///
    /// Relies on std's string formatting to render the fields.
    #[verifier::external_body]
    pub fn message(&self) -> String {
        match self {
            Self::BufferTooSmall { expected, actual } => format!(
                "buffer too small: expected {expected} bytes, got {actual}"
            ),
            Self::InvalidMagic { expected, actual } => format!(
                "invalid magic number: expected {expected:?}, got {actual:?}"
            ),
            Self::ChecksumMismatch { expected, actual } => format!(
                "checksum mismatch: expected {expected:#x}, got {actual:#x}"
            ),
            Self::UnsupportedVersion(major, minor) => format!(
                "unsupported version: {major}.{minor}"
            ),
            Self::InvalidLength { offset, length } => format!(
                "invalid length: offset {offset} in an image of {length} bytes"
            ),
        }
    }
}

} // verus!
