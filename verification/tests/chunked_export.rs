use edgevec::persistence::chunking::{assemble_chunks, chunk_bytes};

#[test]
fn test_chunking_round_trip_uneven() {
    let data: Vec<u8> = (0..100u8).collect();
    let chunks = chunk_bytes(&data, 33);
    assert_eq!(chunks.len(), 4); // 33 + 33 + 33 + 1
    assert!(chunks.iter().all(|c| c.len() <= 33));
    assert_eq!(chunks[0].len(), 33);
    assert_eq!(chunks[3].len(), 1);
    assert_eq!(assemble_chunks(&chunks), data);
}

#[test]
fn test_chunking_exact_multiple() {
    let data: Vec<u8> = (0..96u8).collect();
    let chunks = chunk_bytes(&data, 32);
    assert_eq!(chunks.len(), 3);
    assert!(chunks.iter().all(|c| c.len() == 32));
    assert_eq!(assemble_chunks(&chunks), data);
}

#[test]
fn test_chunking_one_big_chunk() {
    let data = vec![7u8; 10];
    let chunks = chunk_bytes(&data, 1000);
    assert_eq!(chunks.len(), 1);
    assert_eq!(assemble_chunks(&chunks), data);
}

#[test]
fn test_chunking_empty_input() {
    let data: Vec<u8> = Vec::new();
    let chunks = chunk_bytes(&data, 16);
    assert!(chunks.is_empty());
    assert_eq!(assemble_chunks(&chunks), data);
}

#[test]
fn test_chunked_snapshot_image_reassembles() {
    // chunking a header image and reassembling is byte-identical
    let config = edgevec::hnsw::HnswConfig::new(128);
    let image = edgevec::persistence::write_empty_index(&config);
    let chunks = chunk_bytes(&image, 7);
    let rebuilt = assemble_chunks(&chunks);
    assert_eq!(rebuilt, image);
    assert!(edgevec::persistence::reader::read_index_header(&rebuilt).is_ok());
}
