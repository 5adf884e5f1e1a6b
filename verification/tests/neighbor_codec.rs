use edgevec::hnsw::NeighborPool;

#[test]
fn test_vbyte_roundtrip_dedup() {
    // decoding an encoding yields the input sorted with duplicates removed
    let input = vec![13u32, 5, 5, 0, 8, 3, 2, 1, 13];
    let encoded = NeighborPool::encode_neighbors(&input);
    let decoded = NeighborPool::decode_neighbors(&encoded);
    assert_eq!(decoded, vec![0, 1, 2, 3, 5, 8, 13]);
}

#[test]
fn test_vbyte_dense_deltas() {
    // seven entries with small gaps take at most eight bytes
    let input = vec![0u32, 1, 2, 3, 5, 8, 13];
    let encoded = NeighborPool::encode_neighbors(&input);
    assert!(encoded.len() <= 8);
    let decoded = NeighborPool::decode_neighbors(&encoded);
    assert_eq!(decoded, input);
}

#[test]
fn test_edge_case_large_gap() {
    // a gap of the full u32 range round-trips
    let input = vec![0u32, u32::MAX];
    let encoded = NeighborPool::encode_neighbors(&input);
    let decoded = NeighborPool::decode_neighbors(&encoded);
    assert_eq!(decoded, input);
}

#[test]
fn test_edge_case_empty() {
    let input: Vec<u32> = vec![];
    let encoded = NeighborPool::encode_neighbors(&input);
    let decoded = NeighborPool::decode_neighbors(&encoded);
    assert_eq!(decoded, input);
}

#[test]
fn test_decode_tolerates_trailing_bytes() {
    // allocated capacity may exceed the logical content
    let input = vec![7u32, 9, 300];
    let mut encoded = NeighborPool::encode_neighbors(&input);
    encoded.extend_from_slice(&[0xAB, 0xCD, 0xEF, 0x01]);
    let decoded = NeighborPool::decode_neighbors(&encoded);
    assert_eq!(decoded, input);
}

#[test]
fn test_decode_layer_skips_prior_lists() {
    // two concatenated lists: layer 1 starts past layer 0's count prefix
    let layer0 = NeighborPool::encode_neighbors(&[1u32, 2, 3]);
    let layer1 = NeighborPool::encode_neighbors(&[10u32, 20]);
    let mut block = layer0.clone();
    block.extend_from_slice(&layer1);
    assert_eq!(NeighborPool::decode_layer(&block, 0), vec![1, 2, 3]);
    assert_eq!(NeighborPool::decode_layer(&block, 1), vec![10, 20]);
}

#[test]
fn test_recycling_reuse_exact_fit() {
    let mut pool = NeighborPool::new();

    let (off_a, cap_a) = pool.allocate(10).unwrap();
    assert_eq!(cap_a, 16); // rounded up to 16

    pool.free(off_a, cap_a);

    let (off_b, cap_b) = pool.allocate(10).unwrap();

    assert_eq!(off_a, off_b, "a freed slot of the same class is reused");
    assert_eq!(cap_b, 16);
}

#[test]
fn test_recycling_fragmentation_no_reuse() {
    let mut pool = NeighborPool::new();

    let (off_a, cap_a) = pool.allocate(10).unwrap();
    pool.free(off_a, cap_a);

    // too big for the freed slot: the buffer grows instead
    let (off_b, _cap_b) = pool.allocate(20).unwrap();
    assert_ne!(off_a, off_b, "a too-small slot is not reused");
}

#[test]
fn test_allocate_size_classes() {
    let mut pool = NeighborPool::new();
    assert_eq!(pool.allocate(1).unwrap().1, 16);
    assert_eq!(pool.allocate(16).unwrap().1, 16);
    assert_eq!(pool.allocate(17).unwrap().1, 32);
    assert_eq!(pool.allocate(40000).unwrap().1, 65535);
    assert!(pool.allocate(65536).is_err());
}

#[test]
fn test_allocations_do_not_overlap() {
    // a trace of allocations and frees: live ranges never overlap
    let mut pool = NeighborPool::new();
    let mut active: Vec<(u32, u16)> = Vec::new();
    let sizes = [10usize, 40, 10, 100, 16, 33, 10, 64, 200, 17];
    for (step, size) in sizes.iter().enumerate() {
        if step % 3 == 2 && !active.is_empty() {
            let (off, cap) = active.swap_remove(step % active.len());
            pool.free(off, cap);
        }
        let (off, cap) = pool.allocate(*size).unwrap();
        for (eoff, ecap) in &active {
            let overlaps =
                off < *eoff + u32::from(*ecap) && *eoff < off + u32::from(cap);
            assert!(!overlaps, "live ranges must stay disjoint");
        }
        active.push((off, cap));
    }
}
