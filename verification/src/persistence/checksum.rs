//! The CRC32 checksum that guards the snapshot header, the snapshot
//! payload, and every log record.

use vstd::prelude::*;

verus! {

/// The IEEE CRC32 of a byte sequence: a function of the bytes alone.
pub uninterp spec fn crc32_of(bytes: Seq<u8>) -> u32;

/// Relies on crc32fast's `hash`: the IEEE CRC32 checksum of the given
/// bytes, which depends on the bytes alone.
#[verifier::external_body]
pub fn crc32(bytes: &[u8]) -> (r: u32)
    ensures
        r == crc32_of(bytes@),
{
    crc32fast::hash(bytes)
}

} // verus!
