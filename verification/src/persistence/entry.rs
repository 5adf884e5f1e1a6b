//! The fixed 16-byte header of a write-ahead log record. A record on
//! the wire is this header, the payload, and a CRC32 of both; all
//! integers are little-endian.

use vstd::prelude::*;
use vstd::bytes::{spec_u32_to_le_bytes, spec_u64_to_le_bytes, u32_to_le_bytes, u64_to_le_bytes};

verus! {

/// Write-ahead log entry header.
#[derive(Clone, Copy, Debug, PartialEq, Eq)]
pub struct WalEntry {
    /// Sequence number, strictly increasing and gapless.
    pub sequence: u64,
    /// Entry type (0 = insert, 1 = delete, 2 = checkpoint).
    pub entry_type: u8,
    /// Padding for alignment; written as zero.
    pub _pad: [u8; 3],
    /// Payload length in bytes.
    pub payload_len: u32,
}

/// The 16 wire bytes of an entry header.
pub open spec fn spec_entry_bytes(e: WalEntry) -> Seq<u8> {
    spec_u64_to_le_bytes(e.sequence) + seq![e.entry_type, 0u8, 0u8, 0u8] + spec_u32_to_le_bytes(
        e.payload_len,
    )
}

impl WalEntry {
    /// Creates an entry header with zero padding.
    pub fn new(sequence: u64, entry_type: u8, payload_len: u32) -> (r: Self)
        ensures
            r.sequence == sequence,
            r.entry_type == entry_type,
            r.payload_len == payload_len,
            r._pad == [0u8, 0u8, 0u8],
    {
        WalEntry { sequence, entry_type, _pad: [0u8, 0u8, 0u8], payload_len }
    }

    /// The 16 wire bytes of this header.
    pub fn as_bytes(&self) -> (r: Vec<u8>)
        ensures
            r@ == spec_entry_bytes(*self),
            r@.len() == 16,
    {
        proof {
            vstd::bytes::lemma_auto_spec_u64_to_from_le_bytes();
            vstd::bytes::lemma_auto_spec_u32_to_from_le_bytes();
        }
        let mut out = u64_to_le_bytes(self.sequence);
        out.push(self.entry_type);
        out.push(0u8);
        out.push(0u8);
        out.push(0u8);
        let mut tail = u32_to_le_bytes(self.payload_len);
        out.append(&mut tail);
        proof {
            assert(out@ =~= spec_entry_bytes(*self));
        }
        out
    }
}

} // verus!
