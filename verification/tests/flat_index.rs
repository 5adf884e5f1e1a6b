use edgevec::flat::BinaryFlatIndex;
use edgevec::hnsw::VectorId;

#[test]
fn test_new() {
    let index = BinaryFlatIndex::new(1024);
    assert_eq!(index.dimensions(), 1024);
    assert_eq!(index.bytes_per_vector(), 128);
    assert_eq!(index.len(), 0);
    assert!(index.is_empty());
}

#[test]
fn mod_test_insert_and_get() {
    let mut index = BinaryFlatIndex::new(64); // 8 bytes per vector
    let v1 = vec![0xFF; 8];
    let v2 = vec![0x00; 8];

    let id1 = index.insert(&v1);
    let id2 = index.insert(&v2);

    assert_eq!(id1, VectorId(1)); // ids are 1-based
    assert_eq!(id2, VectorId(2));
    assert_eq!(index.len(), 2);
    assert_eq!(index.get(id1), Some(v1.as_slice()));
    assert_eq!(index.get(id2), Some(v2.as_slice()));
    assert_eq!(index.get(VectorId(99)), None);
}

#[test]
fn test_search_exact_match() {
    let mut index = BinaryFlatIndex::new(64);

    let v1 = vec![0xFF; 8];
    let v2 = vec![0x00; 8];
    let v3 = vec![0xAA; 8];

    index.insert(&v1);
    index.insert(&v2);
    index.insert(&v3);

    let results = index.search(&v2, 1);
    assert_eq!(results.len(), 1);
    assert_eq!(results[0].id, VectorId(2)); // v2 is second insert, id 2
    assert_eq!(results[0].distance, 0);
}

#[test]
fn test_search_ordering() {
    let mut index = BinaryFlatIndex::new(64);

    let query = vec![0x00; 8]; // all zeros
    let v1 = vec![0xFF; 8]; // 64 bits different
    let v2 = vec![0x0F; 8]; // 32 bits different
    let v3 = vec![0x01; 8]; // 8 bits different

    index.insert(&v1); // id 1, distance 64
    index.insert(&v2); // id 2, distance 32
    index.insert(&v3); // id 3, distance 8

    let results = index.search(&query, 3);

    assert_eq!(results[0].id, VectorId(3)); // closest
    assert_eq!(results[0].distance, 8);
    assert_eq!(results[1].id, VectorId(2));
    assert_eq!(results[1].distance, 32);
    assert_eq!(results[2].id, VectorId(1)); // farthest
    assert_eq!(results[2].distance, 64);
}

#[test]
fn test_search_k_limit() {
    let mut index = BinaryFlatIndex::new(64);

    for i in 0..100 {
        let v: Vec<u8> = (0..8).map(|j| ((i + j) % 256) as u8).collect();
        index.insert(&v);
    }

    let query = vec![0x00; 8];
    let results = index.search(&query, 5);

    assert_eq!(results.len(), 5);
    for i in 1..results.len() {
        assert!(results[i - 1].distance <= results[i].distance);
    }
}

#[test]
fn test_empty_search() {
    let index = BinaryFlatIndex::new(64);
    let query = vec![0x00; 8];
    let results = index.search(&query, 10);
    assert!(results.is_empty());
}

#[test]
fn test_search_k_zero() {
    let mut index = BinaryFlatIndex::new(64);
    for _ in 0..20 {
        index.insert(&vec![0xFF; 8]);
    }
    // k = 0 yields nothing
    let results = index.search(&vec![0x00; 8], 0);
    assert!(results.is_empty());
}

#[test]
fn test_search_k_beyond_count() {
    // asking for more hits than vectors yields exactly the count
    let mut index = BinaryFlatIndex::new(64);
    for i in 0..4 {
        index.insert(&vec![i as u8; 8]);
    }
    let results = index.search(&vec![0x00; 8], 100);
    assert_eq!(results.len(), 4);
}

#[test]
fn test_search_tie_broken_by_id() {
    let mut index = BinaryFlatIndex::new(64);
    index.insert(&vec![0x01; 8]); // id 1, distance 8
    index.insert(&vec![0x01; 8]); // id 2, distance 8 (tie)
    let results = index.search(&vec![0x00; 8], 2);
    assert_eq!(results[0].id, VectorId(1));
    assert_eq!(results[1].id, VectorId(2));
}

#[test]
fn test_clear() {
    let mut index = BinaryFlatIndex::new(64);
    index.insert(&vec![0xFF; 8]);
    index.insert(&vec![0x00; 8]);

    assert_eq!(index.len(), 2);

    index.clear();

    assert_eq!(index.len(), 0);
    assert!(index.is_empty());
}

#[test]
fn test_memory_usage() {
    let mut index = BinaryFlatIndex::with_capacity(1024, 1000);
    assert!(index.memory_usage() > 0);

    for _ in 0..100 {
        index.insert(&vec![0xAA; 128]);
    }

    let usage = index.memory_usage();
    // at least 100 * 128 = 12,800 bytes
    assert!(usage >= 12_800);
}

#[test]
fn test_vectors_len_and_serialized_size() {
    let mut index = BinaryFlatIndex::new(64);
    index.insert(&vec![0xAB; 8]);
    assert_eq!(index.vectors_len(), 8);
    assert_eq!(index.serialized_size(), 16);
    index.shrink_to_fit();
    assert_eq!(index.vectors_len(), 8);
}
