//! Reading and validating the snapshot header.

use vstd::prelude::*;
use crate::hnsw::config::HnswConfig;
use crate::persistence::checksum::crc32;
use crate::persistence::header::{
    parse_header_fields, FileHeader, MAGIC_0, MAGIC_1, MAGIC_2, MAGIC_3, VERSION_MAJOR,
};
use crate::persistence::PersistenceError;

verus! {

/// Reads and validates the raw header from a byte slice: the magic
/// first, then the header checksum, then the major version; the
/// contract fixes that order, so a corrupted version byte reports the
/// corruption rather than an unsupported version.
pub fn read_file_header(data: &[u8]) -> (r: Result<FileHeader, PersistenceError>)
    ensures
        match r {
            Result::Ok(h) => {
                &&& data@.len() >= 64
                &&& h == crate::persistence::header::spec_parse_header(data@)
                &&& h.magic == [MAGIC_0, MAGIC_1, MAGIC_2, MAGIC_3]
                &&& h.version_major == VERSION_MAJOR
                &&& h.crc_ok()
            },
            Result::Err(e) => match e {
                PersistenceError::BufferTooSmall { expected, actual } => data@.len() < 64
                    && expected == 64 && actual == data@.len(),
                PersistenceError::InvalidMagic { expected, actual } => data@.len() >= 64 && actual
                    == crate::persistence::header::spec_parse_header(data@).magic && actual != [
                    MAGIC_0,
                    MAGIC_1,
                    MAGIC_2,
                    MAGIC_3,
                ] && expected == [MAGIC_0, MAGIC_1, MAGIC_2, MAGIC_3],
                PersistenceError::ChecksumMismatch { expected, actual } => {
                    let h = crate::persistence::header::spec_parse_header(data@);
                    &&& data@.len() >= 64
                    &&& h.magic == [MAGIC_0, MAGIC_1, MAGIC_2, MAGIC_3]
                    &&& !h.crc_ok()
                    &&& expected == h.header_crc
                    &&& actual == crate::persistence::checksum::crc32_of(
                        crate::persistence::header::spec_header_bytes(h.crc_input()),
                    )
                },
                PersistenceError::UnsupportedVersion(maj, min) => {
                    let h = crate::persistence::header::spec_parse_header(data@);
                    &&& data@.len() >= 64
                    &&& h.magic == [MAGIC_0, MAGIC_1, MAGIC_2, MAGIC_3]
                    &&& h.crc_ok()
                    &&& maj == h.version_major
                    &&& min == h.version_minor
                    &&& maj != VERSION_MAJOR
                },
                PersistenceError::InvalidLength { offset, length } => false,
            },
        },
{
    if data.len() < 64 {
        return Err(PersistenceError::BufferTooSmall { expected: 64, actual: data.len() });
    }
    let h = parse_header_fields(data);
    if !(h.magic[0] == MAGIC_0 && h.magic[1] == MAGIC_1 && h.magic[2] == MAGIC_2 && h.magic[3]
        == MAGIC_3) {
        proof {
            assert(h.magic != [MAGIC_0, MAGIC_1, MAGIC_2, MAGIC_3]) by {
                if h.magic == [MAGIC_0, MAGIC_1, MAGIC_2, MAGIC_3] {
                    assert(h.magic[0] == MAGIC_0 && h.magic[1] == MAGIC_1 && h.magic[2] == MAGIC_2
                        && h.magic[3] == MAGIC_3);
                }
            }
        }
        return Err(
            PersistenceError::InvalidMagic {
                expected: [MAGIC_0, MAGIC_1, MAGIC_2, MAGIC_3],
                actual: h.magic,
            },
        );
    }
    proof {
        assert(h.magic =~= [MAGIC_0, MAGIC_1, MAGIC_2, MAGIC_3]);
    }
    let mut verify_header = h;
    verify_header.header_crc = 0;
    let verify_bytes = verify_header.as_bytes();
    let calculated = crc32(verify_bytes.as_slice());
    proof {
        assert(verify_header =~= h.crc_input());
    }
    if h.header_crc != calculated {
        return Err(PersistenceError::ChecksumMismatch { expected: h.header_crc, actual: calculated });
    }
    if h.version_major != VERSION_MAJOR {
        return Err(PersistenceError::UnsupportedVersion(h.version_major, h.version_minor));
    }
    Ok(h)
}

/// Reads the header and lifts it into a graph configuration: the
/// stored M, M0, and dimensions, defaults for the rest. It fails
/// exactly when reading the header fails, with the same error.
pub fn read_index_header(data: &[u8]) -> (r: Result<HnswConfig, PersistenceError>)
    ensures
        match r {
            Result::Ok(c) => {
                &&& data@.len() >= 64
                &&& {
                    let h = crate::persistence::header::spec_parse_header(data@);
                    &&& h.magic == [MAGIC_0, MAGIC_1, MAGIC_2, MAGIC_3]
                    &&& h.version_major == VERSION_MAJOR
                    &&& h.crc_ok()
                    &&& c.m == h.hnsw_m
                    &&& c.m0 == h.hnsw_m0
                    &&& c.dimensions == h.dimensions
                    &&& c.ef_construction == 200
                    &&& c.ef_search == 50
                    &&& c.metric == 0
                }
            },
            Result::Err(e) => match e {
                PersistenceError::BufferTooSmall { expected, actual } => data@.len() < 64
                    && expected == 64 && actual == data@.len(),
                PersistenceError::InvalidMagic { expected, actual } => data@.len() >= 64 && actual
                    == crate::persistence::header::spec_parse_header(data@).magic && actual != [
                    MAGIC_0,
                    MAGIC_1,
                    MAGIC_2,
                    MAGIC_3,
                ] && expected == [MAGIC_0, MAGIC_1, MAGIC_2, MAGIC_3],
                PersistenceError::ChecksumMismatch { expected, actual } => {
                    let h = crate::persistence::header::spec_parse_header(data@);
                    &&& data@.len() >= 64
                    &&& h.magic == [MAGIC_0, MAGIC_1, MAGIC_2, MAGIC_3]
                    &&& !h.crc_ok()
                    &&& expected == h.header_crc
                    &&& actual == crate::persistence::checksum::crc32_of(
                        crate::persistence::header::spec_header_bytes(h.crc_input()),
                    )
                },
                PersistenceError::UnsupportedVersion(maj, min) => {
                    let h = crate::persistence::header::spec_parse_header(data@);
                    &&& data@.len() >= 64
                    &&& h.magic == [MAGIC_0, MAGIC_1, MAGIC_2, MAGIC_3]
                    &&& h.crc_ok()
                    &&& maj == h.version_major
                    &&& min == h.version_minor
                    &&& maj != VERSION_MAJOR
                },
                PersistenceError::InvalidLength { offset, length } => false,
            },
        },
{
    let header = read_file_header(data)?;
    Ok(
        HnswConfig {
            m: header.hnsw_m,
            m0: header.hnsw_m0,
            ef_construction: 200,
            ef_search: 50,
            dimensions: header.dimensions,
            metric: 0,
            _reserved: [0u8, 0u8],
        },
    )
}

} // verus!
