use edgevec::hnsw::{HnswConfig, HnswIndex, NodeId, VectorId};
use edgevec::persistence::reader::{read_file_header, read_index_header};
use edgevec::persistence::snapshot::{read_snapshot_sections, write_snapshot};
use edgevec::storage::binary::BinaryVectorStorage;
use edgevec::persistence::snapshot::load_snapshot;
use edgevec::persistence::{write_empty_index, FileHeader, HeaderError, PersistenceError, MAGIC};

#[test]
fn test_header_layout() {
    assert_eq!(core::mem::size_of::<FileHeader>(), 64);
    assert_eq!(core::mem::align_of::<FileHeader>(), 8);
}

#[test]
fn test_new_header_validity() {
    let header = FileHeader::new(128);
    assert_eq!(header.magic, MAGIC);
    assert_eq!(header.dimensions, 128);

    // the checksum is set
    assert_ne!(header.header_crc, 0);

    // and the bytes parse back
    let bytes = header.as_bytes();
    let decoded = FileHeader::from_bytes(&bytes).unwrap();
    assert_eq!(decoded.dimensions, 128);
}

#[test]
fn test_invalid_magic() {
    let mut header = FileHeader::new(128);
    header.magic = [0x00, 0x00, 0x00, 0x00];
    header.update_checksum(); // keep the checksum valid so magic is the error

    let bytes = header.as_bytes();
    let result = FileHeader::from_bytes(&bytes);
    assert!(matches!(result, Err(HeaderError::InvalidMagic(_))));
}

#[test]
fn test_checksum_mismatch() {
    let mut header = FileHeader::new(128);
    // corrupt a field without updating the checksum
    header.dimensions = 256;

    let bytes = header.as_bytes();
    let result = FileHeader::from_bytes(&bytes);
    assert!(matches!(result, Err(HeaderError::ChecksumMismatch { .. })));
}

#[test]
fn test_header_round_trip_bytewise() {
    // serializing and parsing gives the header back, byte for byte
    let mut header = FileHeader::new(32);
    header.vector_count = 17;
    header.index_offset = 64;
    header.rng_seed = 42;
    header.hnsw_m = 12;
    header.hnsw_m0 = 24;
    header.update_checksum();
    let bytes = header.as_bytes();
    assert_eq!(bytes.len(), 64);
    let parsed = FileHeader::from_bytes(&bytes).unwrap();
    assert_eq!(parsed, header);
    assert_eq!(parsed.as_bytes(), bytes);
}

#[test]
fn test_read_valid_header() {
    let config = HnswConfig::new(128);
    let bytes = write_empty_index(&config);

    let read_config = read_index_header(&bytes).unwrap();

    assert_eq!(read_config.dimensions, 128);
    assert_eq!(read_config.m, 12);
    assert_eq!(read_config.m0, 24);
}

#[test]
fn test_read_invalid_magic() {
    let mut bytes = [0u8; 64];
    bytes[0] = 0x00; // break the magic

    let result = read_index_header(&bytes);
    assert!(matches!(result, Err(PersistenceError::InvalidMagic { .. })));
}

#[test]
fn test_read_invalid_crc() {
    let config = HnswConfig::new(128);
    let mut bytes = write_empty_index(&config);

    // corrupt a byte in the header (the dimensions field)
    bytes[40] = 0xFF;

    let result = read_index_header(&bytes);
    assert!(matches!(
        result,
        Err(PersistenceError::ChecksumMismatch { .. })
    ));
}

#[test]
fn test_read_corrupted_version_is_checksum_error() {
    let config = HnswConfig::new(128);
    let mut bytes = write_empty_index(&config);

    // corrupt the major version byte without fixing the checksum: the
    // checksum is validated before the version, so the corruption is
    // what gets reported
    bytes[4] = 9;

    let result = read_file_header(&bytes);
    assert!(matches!(
        result,
        Err(PersistenceError::ChecksumMismatch { .. })
    ));
}

#[test]
fn test_write_empty_index() {
    let config = HnswConfig::new(128);
    let bytes = write_empty_index(&config);

    assert_eq!(bytes.len(), 64);
    assert_eq!(&bytes[0..4], &MAGIC);

    // dimensions at offset 40
    let dims = u32::from_le_bytes(bytes[40..44].try_into().unwrap());
    assert_eq!(dims, 128);

    // the checksum is set
    let crc = u32::from_le_bytes(bytes[44..48].try_into().unwrap());
    assert_ne!(crc, 0);

    // and the header parses back
    let header = FileHeader::from_bytes(&bytes).expect("Should parse valid header");
    assert_eq!(header.dimensions, 128);
    assert_eq!(header.hnsw_m, 12);
}

#[test]
fn test_load_snapshot_round_trip() {
    // a header plus payload loads back; flipping a payload byte is caught
    let mut header = FileHeader::new(32);
    let payload = vec![1u8, 2, 3, 4, 5, 6, 7, 8];
    header.data_crc = crc32fast::hash(&payload);
    header.update_checksum();

    let mut image = header.as_bytes();
    image.extend_from_slice(&payload);

    let (loaded, loaded_payload) = load_snapshot(&image).unwrap();
    assert_eq!(loaded, header);
    assert_eq!(loaded_payload, payload);

    // flip one payload byte: the load refuses
    let mut corrupt = image.clone();
    corrupt[64 + 3] ^= 0xFF;
    assert!(matches!(
        load_snapshot(&corrupt),
        Err(PersistenceError::ChecksumMismatch { .. })
    ));

    // an image shorter than the header is refused too
    assert!(matches!(
        load_snapshot(&image[..10]),
        Err(PersistenceError::BufferTooSmall { .. })
    ));
}

#[test]
fn test_snapshot_sections_round_trip() {
    // a small graph over three stored vectors, one deleted
    let mut storage = BinaryVectorStorage::new(64).unwrap();
    let mut index = HnswIndex::new(HnswConfig::new(64), &storage).unwrap();
    for v in 1..=3u64 {
        let sid = storage.insert_raw(&vec![v as u8; 8]).unwrap();
        index.add_node(VectorId(sid + 1), 0).unwrap();
    }
    index
        .set_neighbors(NodeId(0), &[NodeId(1), NodeId(2)])
        .unwrap();
    index.set_entry_point(NodeId(0));
    storage.delete(1).unwrap();

    let image = write_snapshot(&index, &storage);
    let (header, vectors, records, pool, tombs) = read_snapshot_sections(&image).unwrap();

    // the sections come back bytewise
    assert_eq!(header.vector_count, 3);
    assert_eq!(header.dimensions, 64);
    assert_eq!(header.deleted_count, 1);
    assert_eq!(vectors.len(), 3 * 8);
    assert_eq!(&vectors[0..8], &[1u8; 8]);
    assert_eq!(records.len(), 3 * 16);
    // node 0's record: vector id 1, then its block offset and capacity
    assert_eq!(u64::from_le_bytes(records[0..8].try_into().unwrap()), 1);
    assert_eq!(pool, index.pool_bytes());
    assert_eq!(tombs, vec![0b010u8]);

    // a corrupted payload byte is refused
    let mut corrupt = image.clone();
    corrupt[70] ^= 0x01;
    assert!(read_snapshot_sections(&corrupt).is_err());
}

#[test]
fn test_load_snapshot_header_errors() {
    // each kind of header damage maps to its own error
    let mut header = FileHeader::new(32);
    let payload = vec![9u8; 4];
    header.data_crc = crc32fast::hash(&payload);
    header.update_checksum();
    let mut image = header.as_bytes();
    image.extend_from_slice(&payload);
    assert!(load_snapshot(&image).is_ok());

    // the header checksum covers the magic, so damage the magic and
    // recompute the checksum so that the magic is what fails
    let mut h2 = header;
    h2.magic = [0, header.magic[1], header.magic[2], header.magic[3]];
    h2.update_checksum();
    let mut bad_magic = h2.as_bytes();
    bad_magic.extend_from_slice(&payload);
    assert!(matches!(
        load_snapshot(&bad_magic),
        Err(PersistenceError::InvalidMagic { .. })
    ));

    let mut h3 = header;
    h3.version_major = 9;
    h3.update_checksum();
    let mut bad_version = h3.as_bytes();
    bad_version.extend_from_slice(&payload);
    assert!(matches!(
        load_snapshot(&bad_version),
        Err(PersistenceError::UnsupportedVersion(9, _))
    ));

    let mut bad_header_crc = image.clone();
    bad_header_crc[32] ^= 0xFF; // rng seed byte: covered by the header checksum
    assert!(matches!(
        load_snapshot(&bad_header_crc),
        Err(PersistenceError::ChecksumMismatch { .. })
    ));
}
