//! The fixed 64-byte snapshot file header, CRC-guarded and versioned.
//! All integers are little-endian.

use vstd::prelude::*;
use vstd::bytes::{
    spec_u16_to_le_bytes, spec_u32_to_le_bytes, spec_u64_to_le_bytes, u16_to_le_bytes,
    u32_to_le_bytes, u64_to_le_bytes,
};
use crate::persistence::checksum::{crc32, crc32_of};

verus! {

/// First magic byte, 'E'.
pub const MAGIC_0: u8 = 0x45;

/// Second magic byte, 'V'.
pub const MAGIC_1: u8 = 0x56;

/// Third magic byte, 'E'.
pub const MAGIC_2: u8 = 0x45;

/// Fourth magic byte, 'C'.
pub const MAGIC_3: u8 = 0x43;

/// Magic number: the bytes of "EVEC".
pub const MAGIC: [u8; 4] = [MAGIC_0, MAGIC_1, MAGIC_2, MAGIC_3];

/// Current major version.
pub const VERSION_MAJOR: u8 = 0;

/// Current minor version.
pub const VERSION_MINOR: u8 = 4;

/// Snapshot file header.
///
/// Invariants: `magic` must be "EVEC", `version_major` must match the
/// current major version, and `header_crc` must be the CRC32 of the
/// 64 header bytes with the `header_crc` field itself zeroed.
#[derive(Clone, Copy, Debug, PartialEq, Eq)]
pub struct FileHeader {
    /// Magic number "EVEC".
    pub magic: [u8; 4],
    /// Format version, major part.
    pub version_major: u8,
    /// Format version, minor part.
    pub version_minor: u8,
    /// Flags bitfield (bit 0: has metadata).
    pub flags: u16,
    /// Number of vectors in the file.
    pub vector_count: u64,
    /// Byte offset of the index section.
    pub index_offset: u64,
    /// Byte offset of the metadata section, 0 when absent.
    pub metadata_offset: u64,
    /// RNG seed for deterministic replay.
    pub rng_seed: u64,
    /// Vector dimensionality.
    pub dimensions: u32,
    /// CRC32 of the header bytes with this field zeroed.
    pub header_crc: u32,
    /// Graph parameter M.
    pub hnsw_m: u32,
    /// Graph parameter M0.
    pub hnsw_m0: u32,
    /// CRC32 of the payload after the header.
    pub data_crc: u32,
    /// Number of deleted vectors.
    pub deleted_count: u32,
}

/// Errors of header parsing.
#[derive(Clone, Debug, PartialEq, Eq)]
pub enum HeaderError {
    /// Invalid magic number.
    InvalidMagic([u8; 4]),
    /// Unsupported major version.
    UnsupportedVersion(u8, u8),
    /// Header checksum does not match.
    ChecksumMismatch {
        /// Checksum stored in the header.
        expected: u32,
        /// Checksum calculated over the bytes.
        actual: u32,
    },
    /// Buffer shorter than 64 bytes.
    BufferTooShort(usize),
}

/// The 64 wire bytes of a header.
pub open spec fn spec_header_bytes(h: FileHeader) -> Seq<u8> {
    h.magic@ + seq![h.version_major, h.version_minor] + spec_u16_to_le_bytes(h.flags)
        + spec_u64_to_le_bytes(h.vector_count) + spec_u64_to_le_bytes(h.index_offset)
        + spec_u64_to_le_bytes(h.metadata_offset) + spec_u64_to_le_bytes(h.rng_seed)
        + spec_u32_to_le_bytes(h.dimensions) + spec_u32_to_le_bytes(h.header_crc)
        + spec_u32_to_le_bytes(h.hnsw_m) + spec_u32_to_le_bytes(h.hnsw_m0) + spec_u32_to_le_bytes(
        h.data_crc,
    ) + spec_u32_to_le_bytes(h.deleted_count)
}

/// The header read back from wire bytes (the first 64 bytes).
pub open spec fn spec_parse_header(bytes: Seq<u8>) -> FileHeader {
    FileHeader {
        magic: [bytes[0], bytes[1], bytes[2], bytes[3]],
        version_major: bytes[4],
        version_minor: bytes[5],
        flags: vstd::bytes::spec_u16_from_le_bytes(bytes.subrange(6, 8)),
        vector_count: vstd::bytes::spec_u64_from_le_bytes(bytes.subrange(8, 16)),
        index_offset: vstd::bytes::spec_u64_from_le_bytes(bytes.subrange(16, 24)),
        metadata_offset: vstd::bytes::spec_u64_from_le_bytes(bytes.subrange(24, 32)),
        rng_seed: vstd::bytes::spec_u64_from_le_bytes(bytes.subrange(32, 40)),
        dimensions: vstd::bytes::spec_u32_from_le_bytes(bytes.subrange(40, 44)),
        header_crc: vstd::bytes::spec_u32_from_le_bytes(bytes.subrange(44, 48)),
        hnsw_m: vstd::bytes::spec_u32_from_le_bytes(bytes.subrange(48, 52)),
        hnsw_m0: vstd::bytes::spec_u32_from_le_bytes(bytes.subrange(52, 56)),
        data_crc: vstd::bytes::spec_u32_from_le_bytes(bytes.subrange(56, 60)),
        deleted_count: vstd::bytes::spec_u32_from_le_bytes(bytes.subrange(60, 64)),
    }
}

/// A header with zero padding round-trips: parsing its wire bytes,
/// whatever follows them, yields the header back.
pub proof fn lemma_header_round_trip(h: FileHeader, rest: Seq<u8>)
    ensures
        spec_header_bytes(h).len() == 64,
        spec_parse_header(spec_header_bytes(h) + rest) == h,
{
    vstd::bytes::lemma_auto_spec_u16_to_from_le_bytes();
    vstd::bytes::lemma_auto_spec_u64_to_from_le_bytes();
    vstd::bytes::lemma_auto_spec_u32_to_from_le_bytes();
    let b = spec_header_bytes(h) + rest;
    assert(b.subrange(6, 8) =~= spec_u16_to_le_bytes(h.flags));
    assert(b.subrange(8, 16) =~= spec_u64_to_le_bytes(h.vector_count));
    assert(b.subrange(16, 24) =~= spec_u64_to_le_bytes(h.index_offset));
    assert(b.subrange(24, 32) =~= spec_u64_to_le_bytes(h.metadata_offset));
    assert(b.subrange(32, 40) =~= spec_u64_to_le_bytes(h.rng_seed));
    assert(b.subrange(40, 44) =~= spec_u32_to_le_bytes(h.dimensions));
    assert(b.subrange(44, 48) =~= spec_u32_to_le_bytes(h.header_crc));
    assert(b.subrange(48, 52) =~= spec_u32_to_le_bytes(h.hnsw_m));
    assert(b.subrange(52, 56) =~= spec_u32_to_le_bytes(h.hnsw_m0));
    assert(b.subrange(56, 60) =~= spec_u32_to_le_bytes(h.data_crc));
    assert(b.subrange(60, 64) =~= spec_u32_to_le_bytes(h.deleted_count));
    assert(spec_parse_header(b).magic =~= h.magic);
}

impl FileHeader {
    /// The header with the `header_crc` field zeroed, whose bytes the
    /// stored checksum is taken over.
    pub open spec fn crc_input(&self) -> FileHeader {
        FileHeader { header_crc: 0, ..*self }
    }

    /// Whether the stored header checksum matches the header bytes.
    pub open spec fn crc_ok(&self) -> bool {
        self.header_crc == crc32_of(spec_header_bytes(self.crc_input()))
    }

    /// Creates a header with default values for the given
    /// dimensionality, its checksum already set.
    pub fn new(dimensions: u32) -> (r: Self)
        ensures
            r == (FileHeader { header_crc: r.header_crc, ..FileHeader::spec_default(dimensions) }),
            r.crc_ok(),
    {
        let mut header = FileHeader {
            magic: MAGIC,
            version_major: VERSION_MAJOR,
            version_minor: VERSION_MINOR,
            flags: 0,
            vector_count: 0,
            index_offset: 0,
            metadata_offset: 0,
            rng_seed: 0,
            dimensions,
            header_crc: 0,
            hnsw_m: 16,
            hnsw_m0: 32,
            data_crc: 0,
            deleted_count: 0,
        };
        header.update_checksum();
        header
    }

    /// The default header fields for a dimensionality, before the
    /// checksum is taken.
    pub open spec fn spec_default(dimensions: u32) -> FileHeader {
        FileHeader {
            magic: [MAGIC_0, MAGIC_1, MAGIC_2, MAGIC_3],
            version_major: VERSION_MAJOR,
            version_minor: VERSION_MINOR,
            flags: 0,
            vector_count: 0,
            index_offset: 0,
            metadata_offset: 0,
            rng_seed: 0,
            dimensions,
            header_crc: 0,
            hnsw_m: 16,
            hnsw_m0: 32,
            data_crc: 0,
            deleted_count: 0,
        }
    }

    /// The 64 wire bytes of this header.
    pub fn as_bytes(&self) -> (r: Vec<u8>)
        ensures
            r@ == spec_header_bytes(*self),
            r@.len() == 64,
    {
        proof {
            vstd::bytes::lemma_auto_spec_u16_to_from_le_bytes();
            vstd::bytes::lemma_auto_spec_u64_to_from_le_bytes();
            vstd::bytes::lemma_auto_spec_u32_to_from_le_bytes();
        }
        let mut out: Vec<u8> = Vec::new();
        out.push(self.magic[0]);
        out.push(self.magic[1]);
        out.push(self.magic[2]);
        out.push(self.magic[3]);
        out.push(self.version_major);
        out.push(self.version_minor);
        let mut part = u16_to_le_bytes(self.flags);
        out.append(&mut part);
        let mut part = u64_to_le_bytes(self.vector_count);
        out.append(&mut part);
        let mut part = u64_to_le_bytes(self.index_offset);
        out.append(&mut part);
        let mut part = u64_to_le_bytes(self.metadata_offset);
        out.append(&mut part);
        let mut part = u64_to_le_bytes(self.rng_seed);
        out.append(&mut part);
        let mut part = u32_to_le_bytes(self.dimensions);
        out.append(&mut part);
        let mut part = u32_to_le_bytes(self.header_crc);
        out.append(&mut part);
        let mut part = u32_to_le_bytes(self.hnsw_m);
        out.append(&mut part);
        let mut part = u32_to_le_bytes(self.hnsw_m0);
        out.append(&mut part);
        let mut part = u32_to_le_bytes(self.data_crc);
        out.append(&mut part);
        let mut part = u32_to_le_bytes(self.deleted_count);
        out.append(&mut part);
        proof {
            assert(self.magic@ =~= seq![
                self.magic[0],
                self.magic[1],
                self.magic[2],
                self.magic[3],
            ]);
            assert(out@ =~= spec_header_bytes(*self));
        }
        out
    }

    /// Recomputes the stored checksum from the current fields.
    pub fn update_checksum(&mut self)
        ensures
            *final(self) == (FileHeader { header_crc: final(self).header_crc, ..*old(self) }),
            final(self).crc_ok(),
    {
        self.header_crc = 0;
        let bytes = self.as_bytes();
        self.header_crc = crc32(bytes.as_slice());
        proof {
            assert(self.crc_input() =~= FileHeader { header_crc: 0, ..*old(self) });
        }
    }

    /// Parses a header from the first 64 bytes, validating magic,
    /// major version, and checksum, in that order of errors.
    pub fn from_bytes(bytes: &[u8]) -> (r: Result<Self, HeaderError>)
        ensures
            match r {
                Result::Ok(h) => {
                    &&& bytes@.len() >= 64
                    &&& h == spec_parse_header(bytes@)
                    &&& h.magic == [MAGIC_0, MAGIC_1, MAGIC_2, MAGIC_3]
                    &&& h.version_major == VERSION_MAJOR
                    &&& h.crc_ok()
                },
                Result::Err(e) => match e {
                    HeaderError::BufferTooShort(n) => bytes@.len() < 64 && n == bytes@.len(),
                    HeaderError::InvalidMagic(m) => bytes@.len() >= 64 && m == spec_parse_header(
                        bytes@,
                    ).magic && m != [MAGIC_0, MAGIC_1, MAGIC_2, MAGIC_3],
                    HeaderError::UnsupportedVersion(maj, min) => bytes@.len() >= 64
                        && spec_parse_header(bytes@).magic == [
                        MAGIC_0,
                        MAGIC_1,
                        MAGIC_2,
                        MAGIC_3,
                    ] && maj == spec_parse_header(bytes@).version_major && min
                        == spec_parse_header(bytes@).version_minor && maj != VERSION_MAJOR,
                    HeaderError::ChecksumMismatch { expected, actual } => {
                        let h = spec_parse_header(bytes@);
                        &&& bytes@.len() >= 64
                        &&& h.magic == [MAGIC_0, MAGIC_1, MAGIC_2, MAGIC_3]
                        &&& h.version_major == VERSION_MAJOR
                        &&& !h.crc_ok()
                        &&& expected == h.header_crc
                        &&& actual == crate::persistence::checksum::crc32_of(
                            spec_header_bytes(h.crc_input()),
                        )
                    },
                },
            },
    {
        if bytes.len() < 64 {
            return Err(HeaderError::BufferTooShort(bytes.len()));
        }
        let h = parse_header_fields(bytes);
        if !(h.magic[0] == MAGIC_0 && h.magic[1] == MAGIC_1 && h.magic[2] == MAGIC_2 && h.magic[3]
            == MAGIC_3) {
            proof {
                assert(h.magic != [MAGIC_0, MAGIC_1, MAGIC_2, MAGIC_3]) by {
                    if h.magic == [MAGIC_0, MAGIC_1, MAGIC_2, MAGIC_3] {
                        assert(h.magic[0] == MAGIC_0 && h.magic[1] == MAGIC_1 && h.magic[2]
                            == MAGIC_2 && h.magic[3] == MAGIC_3);
                    }
                }
            }
            return Err(HeaderError::InvalidMagic(h.magic));
        }
        proof {
            assert(h.magic =~= [MAGIC_0, MAGIC_1, MAGIC_2, MAGIC_3]);
        }
        if h.version_major != VERSION_MAJOR {
            return Err(HeaderError::UnsupportedVersion(h.version_major, h.version_minor));
        }
        let mut verify_header = h;
        verify_header.header_crc = 0;
        let verify_bytes = verify_header.as_bytes();
        let calculated = crc32(verify_bytes.as_slice());
        proof {
            assert(verify_header =~= h.crc_input());
        }
        if h.header_crc != calculated {
            return Err(HeaderError::ChecksumMismatch { expected: h.header_crc, actual: calculated });
        }
        Ok(h)
    }
}

/// Reads the fourteen header fields from the first 64 bytes.
pub(crate) fn parse_header_fields(bytes: &[u8]) -> (h: FileHeader)
    requires
        bytes@.len() >= 64,
    ensures
        h == spec_parse_header(bytes@),
{
    proof {
        vstd::bytes::lemma_auto_spec_u16_to_from_le_bytes();
        vstd::bytes::lemma_auto_spec_u64_to_from_le_bytes();
        vstd::bytes::lemma_auto_spec_u32_to_from_le_bytes();
    }
    let magic = [bytes[0], bytes[1], bytes[2], bytes[3]];
    let h = FileHeader {
        magic,
        version_major: bytes[4],
        version_minor: bytes[5],
        flags: vstd::bytes::u16_from_le_bytes(vstd::slice::slice_subrange(bytes, 6, 8)),
        vector_count: vstd::bytes::u64_from_le_bytes(vstd::slice::slice_subrange(bytes, 8, 16)),
        index_offset: vstd::bytes::u64_from_le_bytes(vstd::slice::slice_subrange(bytes, 16, 24)),
        metadata_offset: vstd::bytes::u64_from_le_bytes(vstd::slice::slice_subrange(bytes, 24, 32)),
        rng_seed: vstd::bytes::u64_from_le_bytes(vstd::slice::slice_subrange(bytes, 32, 40)),
        dimensions: vstd::bytes::u32_from_le_bytes(vstd::slice::slice_subrange(bytes, 40, 44)),
        header_crc: vstd::bytes::u32_from_le_bytes(vstd::slice::slice_subrange(bytes, 44, 48)),
        hnsw_m: vstd::bytes::u32_from_le_bytes(vstd::slice::slice_subrange(bytes, 48, 52)),
        hnsw_m0: vstd::bytes::u32_from_le_bytes(vstd::slice::slice_subrange(bytes, 52, 56)),
        data_crc: vstd::bytes::u32_from_le_bytes(vstd::slice::slice_subrange(bytes, 56, 60)),
        deleted_count: vstd::bytes::u32_from_le_bytes(vstd::slice::slice_subrange(bytes, 60, 64)),
    };
    proof {
        assert(h.magic =~= spec_parse_header(bytes@).magic);
        assert(h =~= spec_parse_header(bytes@));
    }
    h
}

} // verus!
