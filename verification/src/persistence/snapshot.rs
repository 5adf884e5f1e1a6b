//! Loading a snapshot image: header validation plus a CRC check of
//! the payload that follows it.

use vstd::prelude::*;
use crate::persistence::checksum::{crc32, crc32_of};
use crate::persistence::header::FileHeader;
use crate::persistence::reader::read_file_header;
use crate::persistence::PersistenceError;

verus! {

/// Validates a snapshot image with full integrity checks and splits
/// it into its header and its payload. The caller hands in the bytes
/// its backend read. It succeeds exactly on an image of at least 64
/// bytes whose magic, header checksum, major version, and payload
/// checksum are all valid, checked in that order, and each failure
/// names its cause.
pub fn load_snapshot(data: &[u8]) -> (r: Result<(FileHeader, Vec<u8>), PersistenceError>)
    ensures
        match r {
            Result::Ok((h, payload)) => {
                &&& data@.len() >= 64
                &&& h == crate::persistence::header::spec_parse_header(data@)
                &&& h.magic == [
                    crate::persistence::header::MAGIC_0,
                    crate::persistence::header::MAGIC_1,
                    crate::persistence::header::MAGIC_2,
                    crate::persistence::header::MAGIC_3,
                ]
                &&& h.version_major == crate::persistence::header::VERSION_MAJOR
                &&& h.crc_ok()
                &&& payload@ == data@.subrange(64, data@.len() as int)
                &&& h.data_crc == crc32_of(payload@)
            },
            Result::Err(e) => {
                let h = crate::persistence::header::spec_parse_header(data@);
                let magic = [
                    crate::persistence::header::MAGIC_0,
                    crate::persistence::header::MAGIC_1,
                    crate::persistence::header::MAGIC_2,
                    crate::persistence::header::MAGIC_3,
                ];
                match e {
                    PersistenceError::BufferTooSmall { expected, actual } => data@.len() < 64
                        && expected == 64 && actual == data@.len(),
                    PersistenceError::InvalidMagic { expected, actual } => data@.len() >= 64
                        && actual == h.magic && actual != magic && expected == magic,
                    PersistenceError::UnsupportedVersion(maj, min) => {
                        &&& data@.len() >= 64
                        &&& h.magic == magic
                        &&& h.crc_ok()
                        &&& maj == h.version_major
                        &&& min == h.version_minor
                        &&& maj != crate::persistence::header::VERSION_MAJOR
                    },
                    PersistenceError::ChecksumMismatch { expected, actual } => {
                        &&& data@.len() >= 64
                        &&& h.magic == magic
                        &&& ((!h.crc_ok() && expected == h.header_crc && actual == crc32_of(
                            crate::persistence::header::spec_header_bytes(h.crc_input()),
                        )) || (h.crc_ok() && h.version_major
                            == crate::persistence::header::VERSION_MAJOR && expected == h.data_crc
                            && actual == crc32_of(data@.subrange(64, data@.len() as int))
                            && expected != actual))
                    },
                    PersistenceError::InvalidLength { offset, length } => false,
                }
            },
        },
{
    let header = read_file_header(data)?;
    let payload = vstd::slice::slice_to_vec(
        vstd::slice::slice_subrange(data, 64, data.len()),
    );
    let calculated = crc32(payload.as_slice());
    if calculated != header.data_crc {
        return Err(
            PersistenceError::ChecksumMismatch { expected: header.data_crc, actual: calculated },
        );
    }
    Ok((header, payload))
}

} // verus!

verus! {

/// The 16 wire bytes of one node record: vector id, block offset,
/// block capacity, maximum layer, padding.
pub open spec fn spec_node_record_bytes(n: crate::hnsw::graph::HnswNode) -> Seq<u8> {
    vstd::bytes::spec_u64_to_le_bytes(n.vector_id.0) + vstd::bytes::spec_u32_to_le_bytes(
        n.neighbor_offset,
    ) + vstd::bytes::spec_u16_to_le_bytes(n.neighbor_len) + seq![n.max_layer, n.pad]
}

/// The node table section: one 16-byte record per node, in id order.
pub open spec fn spec_node_table_bytes(nodes: Seq<crate::hnsw::graph::HnswNode>) -> Seq<u8>
    decreases nodes.len(),
{
    if nodes.len() == 0 {
        Seq::empty()
    } else {
        spec_node_record_bytes(nodes[0]) + spec_node_table_bytes(
            nodes.subrange(1, nodes.len() as int),
        )
    }
}

/// Byte `k` of a packed bitset: one bit per flag, little-endian
/// within the byte, zero past the end.
pub open spec fn spec_packed_byte(bits: Seq<bool>, k: int) -> u8 {
    (if 0 <= 8 * k < bits.len() && bits[8 * k] {
        1u8
    } else {
        0u8
    }) | (if 0 <= 8 * k + 1 < bits.len() && bits[8 * k + 1] {
        2u8
    } else {
        0u8
    }) | (if 0 <= 8 * k + 2 < bits.len() && bits[8 * k + 2] {
        4u8
    } else {
        0u8
    }) | (if 0 <= 8 * k + 3 < bits.len() && bits[8 * k + 3] {
        8u8
    } else {
        0u8
    }) | (if 0 <= 8 * k + 4 < bits.len() && bits[8 * k + 4] {
        16u8
    } else {
        0u8
    }) | (if 0 <= 8 * k + 5 < bits.len() && bits[8 * k + 5] {
        32u8
    } else {
        0u8
    }) | (if 0 <= 8 * k + 6 < bits.len() && bits[8 * k + 6] {
        64u8
    } else {
        0u8
    }) | (if 0 <= 8 * k + 7 < bits.len() && bits[8 * k + 7] {
        128u8
    } else {
        0u8
    })
}

/// The tombstone section: the flags packed eight to a byte.
pub open spec fn spec_packed_bits(bits: Seq<bool>) -> Seq<u8> {
    Seq::new(((bits.len() + 7) / 8) as nat, |k: int| spec_packed_byte(bits, k))
}

} // verus!

verus! {

/// Appending a node extends the node table section by one record.
proof fn lemma_node_table_push(
    nodes: Seq<crate::hnsw::graph::HnswNode>,
    n: crate::hnsw::graph::HnswNode,
)
    ensures
        spec_node_table_bytes(nodes.push(n)) == spec_node_table_bytes(nodes)
            + spec_node_record_bytes(n),
    decreases nodes.len(),
{
    let all = nodes.push(n);
    if nodes.len() == 0 {
        assert(all.subrange(1, all.len() as int)
            =~= Seq::<crate::hnsw::graph::HnswNode>::empty());
        assert(all[0] == n);
        assert(spec_node_table_bytes(Seq::<crate::hnsw::graph::HnswNode>::empty())
            == Seq::<u8>::empty());
        assert(spec_node_table_bytes(nodes) =~= Seq::<u8>::empty());
        assert(spec_node_record_bytes(n) + Seq::<u8>::empty() =~= spec_node_record_bytes(n));
        assert(Seq::<u8>::empty() + spec_node_record_bytes(n) =~= spec_node_record_bytes(n));
    } else {
        let tail = nodes.subrange(1, nodes.len() as int);
        assert(all.subrange(1, all.len() as int) =~= tail.push(n));
        lemma_node_table_push(tail, n);
        assert(all[0] == nodes[0]);
        let rb0 = spec_node_record_bytes(nodes[0]);
        assert(spec_node_table_bytes(all) == rb0 + (spec_node_table_bytes(tail)
            + spec_node_record_bytes(n)));
        assert(rb0 + (spec_node_table_bytes(tail) + spec_node_record_bytes(n)) =~= (rb0
            + spec_node_table_bytes(tail)) + spec_node_record_bytes(n));
        assert(spec_node_table_bytes(nodes) == rb0 + spec_node_table_bytes(tail));
    }
}

/// The 16 wire bytes of one node record.
fn node_record_bytes(n: &crate::hnsw::graph::HnswNode) -> (r: Vec<u8>)
    ensures
        r@ == spec_node_record_bytes(*n),
        r@.len() == 16,
{
    proof {
        vstd::bytes::lemma_auto_spec_u64_to_from_le_bytes();
        vstd::bytes::lemma_auto_spec_u32_to_from_le_bytes();
        vstd::bytes::lemma_auto_spec_u16_to_from_le_bytes();
    }
    let mut out = vstd::bytes::u64_to_le_bytes(n.vector_id.0);
    let mut part = vstd::bytes::u32_to_le_bytes(n.neighbor_offset);
    out.append(&mut part);
    let mut part = vstd::bytes::u16_to_le_bytes(n.neighbor_len);
    out.append(&mut part);
    out.push(n.max_layer);
    out.push(n.pad);
    proof {
        assert(out@ =~= spec_node_record_bytes(*n));
    }
    out
}

/// Packs the tombstone flags of a storage eight to a byte,
/// little-endian within the byte, zero-padded at the end.
fn packed_tombstones(storage: &crate::storage::binary::BinaryVectorStorage) -> (r: Vec<u8>)
    requires
        storage.wf(),
        storage.count_spec() * 16 <= usize::MAX,
    ensures
        r@ == spec_packed_bits(storage.deleted_bits()),
{
    proof {
        storage.lemma_wf_sizes();
    }
    let count = storage.len();
    let nb = (count + 7) / 8;
    let ghost bits = storage.deleted_bits();
    let mut out: Vec<u8> = Vec::new();
    let mut k: usize = 0;
    while k < nb
        invariant
            storage.wf(),
            bits == storage.deleted_bits(),
            bits.len() == count,
            count == storage.count_spec(),
            count * 16 <= usize::MAX,
            nb == (count + 7) / 8,
            0 <= k <= nb,
            out@.len() == k,
            forall|t: int| 0 <= t < k ==> out@[t] == spec_packed_byte(bits, t),
        decreases nb - k,
    {
        proof {
            assert(8 * (k as int) + 7 <= count + 7) by (nonlinear_arith)
                requires
                    k < nb,
                    nb == (count + 7) / 8,
                    count >= 0,
            ;
        }
        let base = 8 * k;
        let b0: u8 = if storage.is_deleted(base as u64) {
            1
        } else {
            0
        };
        let b1: u8 = if storage.is_deleted((base + 1) as u64) {
            2
        } else {
            0
        };
        let b2: u8 = if storage.is_deleted((base + 2) as u64) {
            4
        } else {
            0
        };
        let b3: u8 = if storage.is_deleted((base + 3) as u64) {
            8
        } else {
            0
        };
        let b4: u8 = if storage.is_deleted((base + 4) as u64) {
            16
        } else {
            0
        };
        let b5: u8 = if storage.is_deleted((base + 5) as u64) {
            32
        } else {
            0
        };
        let b6: u8 = if storage.is_deleted((base + 6) as u64) {
            64
        } else {
            0
        };
        let b7: u8 = if storage.is_deleted((base + 7) as u64) {
            128
        } else {
            0
        };
        let byte: u8 = b0 | b1 | b2 | b3 | b4 | b5 | b6 | b7;
        proof {
            assert(byte == spec_packed_byte(bits, k as int));
        }
        out.push(byte);
        k = k + 1;
    }
    proof {
        assert(out@ =~= spec_packed_bits(bits));
    }
    out
}

} // verus!

verus! {

/// The payload that follows the header in a snapshot image: the
/// vector arena, the node table, the neighbor pool, the tombstones.
pub open spec fn spec_snapshot_payload(
    index: crate::hnsw::graph::HnswIndex,
    storage: crate::storage::binary::BinaryVectorStorage,
) -> Seq<u8> {
    storage.data_bytes() + spec_node_table_bytes(index.nodes_seq()) + index.pool_content()
        + spec_packed_bits(storage.deleted_bits())
}

/// Serializes a snapshot of the graph and its storage: the 64-byte
/// header, the vector arena, one 16-byte record per node, the
/// neighbor pool, and the tombstone bitset, the payload guarded by the
/// header's data checksum. The bounds are machine limits on the image
/// size; the count equality is the data model's: node ids are dense
/// and bijective with vector ids.
#[verifier::rlimit(50)]
pub fn write_snapshot(
    index: &crate::hnsw::graph::HnswIndex,
    storage: &crate::storage::binary::BinaryVectorStorage,
) -> (r: Vec<u8>)
    requires
        index.wf(),
        storage.wf(),
        index.node_count_spec() == storage.count_spec(),
        storage.count_spec() <= u32::MAX,
        64 + storage.data_bytes().len() + 16 * storage.count_spec() + index.pool_bytes_spec() + (
        storage.count_spec() + 7) / 8 <= usize::MAX,
    ensures
        ({
            let payload = spec_snapshot_payload(*index, *storage);
            let h = crate::persistence::header::spec_parse_header(r@);
            &&& r@ == crate::persistence::header::spec_header_bytes(h) + payload
            &&& r@.len() == 64 + payload.len()
            &&& h.magic == [0x45u8, 0x56u8, 0x45u8, 0x43u8]
            &&& h.version_major == crate::persistence::header::VERSION_MAJOR
            &&& h.crc_ok()
            &&& h.vector_count == storage.count_spec()
            &&& h.index_offset == 64 + storage.data_bytes().len()
            &&& h.dimensions == storage.dim()
            &&& h.hnsw_m == index.config_spec().m
            &&& h.hnsw_m0 == index.config_spec().m0
            &&& h.deleted_count == crate::storage::tombstone::count_trues(storage.deleted_bits())
            &&& h.data_crc == crc32_of(payload)
        }),
{
    proof {
        storage.lemma_wf_sizes();
        storage.lemma_wf_dim();
        index.lemma_pool_content_len();
        crate::storage::tombstone::lemma_count_trues_bounds(storage.deleted_bits());
    }
    let count = storage.len();
    // payload: arena, node records, pool, tombstones
    let mut payload = storage.arena_bytes();
    let mut records: Vec<u8> = Vec::new();
    let mut i: usize = 0;
    while i < count
        invariant
            index.wf(),
            count == index.node_count_spec(),
            count <= u32::MAX,
            16 * count <= usize::MAX,
            0 <= i <= count,
            records@.len() == 16 * i,
            records@ == spec_node_table_bytes(index.nodes_seq().subrange(0, i as int)),
        decreases count - i,
    {
        let node = match index.get_node(crate::hnsw::graph::NodeId(i as u32)) {
            Option::Some(n) => *n,
            Option::None => {
                proof {
                    assert(false);
                }
                crate::hnsw::graph::HnswNode {
                    vector_id: crate::hnsw::graph::VectorId(0),
                    neighbor_offset: 0,
                    neighbor_len: 0,
                    max_layer: 0,
                    pad: 0,
                }
            },
        };
        let mut rec = node_record_bytes(&node);
        proof {
            assert(node == index.nodes_seq()[i as int]);
            let pre = index.nodes_seq().subrange(0, i as int);
            let ext = index.nodes_seq().subrange(0, i + 1);
            assert(ext.len() == i + 1);
            assert forall|t: int| 0 <= t < i + 1 implies ext[t] == pre.push(node)[t] by {
                assert(ext[t] == index.nodes_seq()[t]);
                if t < i {
                    assert(pre.push(node)[t] == pre[t]);
                    assert(pre[t] == index.nodes_seq()[t]);
                } else {
                    assert(pre.push(node)[t] == node);
                }
            }
            assert(ext =~= pre.push(node));
            lemma_node_table_push(pre, node);
        }
        records.append(&mut rec);
        i = i + 1;
    }
    proof {
        assert(index.nodes_seq().subrange(0, index.nodes_seq().len() as int)
            =~= index.nodes_seq());
    }
    let mut pool = index.pool_bytes();
    let mut tombs = packed_tombstones(storage);
    let arena_len = payload.len();
    payload.append(&mut records);
    payload.append(&mut pool);
    payload.append(&mut tombs);
    proof {
        assert(payload@ =~= spec_snapshot_payload(*index, *storage));
    }
    // the header, with the payload checksum
    let mut header = crate::persistence::header::FileHeader::new(storage.dimension() as u32);
    header.vector_count = count as u64;
    header.index_offset = 64u64 + (arena_len as u64);
    let config = index.config_value();
    header.hnsw_m = config.m;
    header.hnsw_m0 = config.m0;
    header.deleted_count = storage.deleted_count() as u32;
    header.data_crc = crc32(payload.as_slice());
    header.update_checksum();
    let mut image = header.as_bytes();
    let ghost hv = header;
    image.append(&mut payload);
    proof {
        crate::persistence::header::lemma_header_round_trip(
            hv,
            spec_snapshot_payload(*index, *storage),
        );
        assert(image@ =~= crate::persistence::header::spec_header_bytes(hv)
            + spec_snapshot_payload(*index, *storage));
    }
    image
}

} // verus!

verus! {

/// Splits a validated snapshot image into its sections: header,
/// vector arena, node table, neighbor pool, tombstone bitset. The
/// section boundaries come from the header's offset and count; a
/// boundary outside the image is an `InvalidLength` error. It
/// succeeds exactly on an image whose header and payload checksums
/// pass and whose section boundaries fit, and each failure names its
/// cause.
pub fn read_snapshot_sections(data: &[u8]) -> (r: Result<
    (FileHeader, Vec<u8>, Vec<u8>, Vec<u8>, Vec<u8>),
    PersistenceError,
>)
    ensures
        ({
            let h = crate::persistence::header::spec_parse_header(data@);
            let magic = [
                crate::persistence::header::MAGIC_0,
                crate::persistence::header::MAGIC_1,
                crate::persistence::header::MAGIC_2,
                crate::persistence::header::MAGIC_3,
            ];
            let len = data@.len() as int;
            let io = h.index_offset as int;
            let vc = h.vector_count as int;
            let tomb = (vc + 7) / 8;
            match r {
                Result::Ok((rh, vectors, records, pool, tombs)) => {
                    &&& rh == h
                    &&& h.magic == magic
                    &&& h.version_major == crate::persistence::header::VERSION_MAJOR
                    &&& h.crc_ok()
                    &&& h.data_crc == crc32_of(data@.subrange(64, len))
                    &&& 64 <= io <= len
                    &&& 16 * vc + tomb <= len - io
                    &&& vectors@ == data@.subrange(64, io)
                    &&& records@ == data@.subrange(io, io + 16 * vc)
                    &&& pool@ == data@.subrange(io + 16 * vc, len - tomb)
                    &&& tombs@ == data@.subrange(len - tomb, len)
                },
                Result::Err(e) => match e {
                    PersistenceError::BufferTooSmall { expected, actual } => data@.len() < 64
                        && expected == 64 && actual == data@.len(),
                    PersistenceError::InvalidMagic { expected, actual } => data@.len() >= 64
                        && actual == h.magic && actual != magic && expected == magic,
                    PersistenceError::UnsupportedVersion(maj, min) => {
                        &&& data@.len() >= 64
                        &&& h.magic == magic
                        &&& h.crc_ok()
                        &&& maj == h.version_major
                        &&& min == h.version_minor
                        &&& maj != crate::persistence::header::VERSION_MAJOR
                    },
                    PersistenceError::ChecksumMismatch { expected, actual } => {
                        &&& data@.len() >= 64
                        &&& h.magic == magic
                        &&& ((!h.crc_ok() && expected == h.header_crc && actual == crc32_of(
                            crate::persistence::header::spec_header_bytes(h.crc_input()),
                        )) || (h.crc_ok() && h.version_major
                            == crate::persistence::header::VERSION_MAJOR && expected == h.data_crc
                            && actual == crc32_of(data@.subrange(64, len)) && expected != actual))
                    },
                    PersistenceError::InvalidLength { offset, length } => {
                        &&& data@.len() >= 64
                        &&& h.magic == magic
                        &&& h.version_major == crate::persistence::header::VERSION_MAJOR
                        &&& h.crc_ok()
                        &&& h.data_crc == crc32_of(data@.subrange(64, len))
                        &&& length == data@.len()
                        &&& ((!(64 <= io <= len) && offset == h.index_offset) || (64 <= io <= len
                            && vc > (len - io) / 16 && offset == h.vector_count) || (64 <= io
                            <= len && vc <= (len - io) / 16 && tomb > (len - io) - 16 * vc
                            && offset == tomb))
                    },
                },
            }
        }),
{
    let header = read_file_header(data)?;
    let payload_crc = crc32(vstd::slice::slice_subrange(data, 64, data.len()));
    if payload_crc != header.data_crc {
        return Err(
            PersistenceError::ChecksumMismatch { expected: header.data_crc, actual: payload_crc },
        );
    }
    let len64 = data.len() as u64;
    let io64 = header.index_offset;
    if io64 < 64 || io64 > len64 {
        return Err(PersistenceError::InvalidLength { offset: io64, length: len64 });
    }
    let rest = len64 - io64;
    let vc = header.vector_count;
    if vc > rest / 16 {
        return Err(PersistenceError::InvalidLength { offset: vc, length: len64 });
    }
    proof {
        assert(16 * (vc as int) <= rest) by (nonlinear_arith)
            requires
                vc as int <= (rest as int) / 16,
                rest >= 0,
                vc >= 0,
        ;
    }
    let rec_len = 16 * vc;
    let tomb_len = (vc + 7) / 8;
    if tomb_len > rest - rec_len {
        return Err(PersistenceError::InvalidLength { offset: tomb_len, length: len64 });
    }
    let io = io64 as usize;
    let rec_end = io + (rec_len as usize);
    let tomb_start = data.len() - (tomb_len as usize);
    let vectors = vstd::slice::slice_to_vec(vstd::slice::slice_subrange(data, 64, io));
    let records = vstd::slice::slice_to_vec(vstd::slice::slice_subrange(data, io, rec_end));
    let pool = vstd::slice::slice_to_vec(vstd::slice::slice_subrange(data, rec_end, tomb_start));
    let tombs = vstd::slice::slice_to_vec(
        vstd::slice::slice_subrange(data, tomb_start, data.len()),
    );
    Ok((header, vectors, records, pool, tombs))
}

/// Snapshot round trip, bytewise: reading back a written image splits
/// it into exactly the sections that were written, byte for byte: the
/// vector arena, the node table, the neighbor pool, the tombstones.
pub proof fn lemma_snapshot_sections_round_trip(
    h: FileHeader,
    vectors: Seq<u8>,
    records: Seq<u8>,
    pool: Seq<u8>,
    tombs: Seq<u8>,
)
    requires
        h.index_offset == 64 + vectors.len(),
        records.len() == 16 * h.vector_count,
        tombs.len() == (h.vector_count + 7) / 8,
    ensures
        ({
            let image = crate::persistence::header::spec_header_bytes(h) + (vectors + records
                + pool + tombs);
            let len = image.len() as int;
            let io = h.index_offset as int;
            let vc = h.vector_count as int;
            &&& image.len() == 64 + vectors.len() + records.len() + pool.len() + tombs.len()
            &&& image.subrange(64, io) == vectors
            &&& image.subrange(io, io + 16 * vc) == records
            &&& image.subrange(io + 16 * vc, len - (vc + 7) / 8) == pool
            &&& image.subrange(len - (vc + 7) / 8, len) == tombs
        }),
{
    crate::persistence::header::lemma_header_round_trip(h, vectors + records + pool + tombs);
    let image = crate::persistence::header::spec_header_bytes(h) + (vectors + records + pool
        + tombs);
    let io = h.index_offset as int;
    let vc = h.vector_count as int;
    let len = image.len() as int;
    assert(image.subrange(64, io) =~= vectors);
    assert(image.subrange(io, io + 16 * vc) =~= records);
    assert(image.subrange(io + 16 * vc, len - (vc + 7) / 8) =~= pool);
    assert(image.subrange(len - (vc + 7) / 8, len) =~= tombs);
}

} // verus!
