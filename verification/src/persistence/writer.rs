//! Writing the snapshot header.

use vstd::prelude::*;
use crate::hnsw::config::HnswConfig;
use crate::persistence::checksum::crc32_of;
use crate::persistence::header::{spec_header_bytes, FileHeader};

verus! {

/// The header of an empty index for a configuration, checksum set.
pub open spec fn spec_empty_index_header(config: HnswConfig) -> FileHeader {
    let base = FileHeader {
        vector_count: 0,
        index_offset: 64,
        hnsw_m: config.m,
        hnsw_m0: config.m0,
        ..FileHeader::spec_default(config.dimensions)
    };
    FileHeader { header_crc: crc32_of(spec_header_bytes(base)), ..base }
}

/// Serializes an empty index: the 64-byte header alone, holding the
/// configuration's dimensions, M, and M0, with its checksum set.
pub fn write_empty_index(config: &HnswConfig) -> (r: Vec<u8>)
    ensures
        r@.len() == 64,
        r@ == spec_header_bytes(spec_empty_index_header(*config)),
        spec_empty_index_header(*config).crc_ok(),
{
    let mut header = FileHeader::new(config.dimensions);
    header.hnsw_m = config.m;
    header.hnsw_m0 = config.m0;
    header.vector_count = 0;
    header.index_offset = 64;
    header.update_checksum();
    proof {
        let base = FileHeader {
            vector_count: 0,
            index_offset: 64,
            hnsw_m: config.m,
            hnsw_m0: config.m0,
            ..FileHeader::spec_default(config.dimensions)
        };
        assert(header.crc_input() =~= base);
        assert(header =~= spec_empty_index_header(*config));
    }
    header.as_bytes()
}

} // verus!
