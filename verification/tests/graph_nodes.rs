use edgevec::hnsw::{GraphError, HnswConfig, HnswIndex, NodeId, VectorId};
use edgevec::storage::binary::BinaryVectorStorage;

#[test]
fn test_initialization() {
    let config = HnswConfig::new(128);
    let storage = BinaryVectorStorage::new(128).unwrap();

    let index = HnswIndex::new(config, &storage).unwrap();

    assert_eq!(index.node_count(), 0);
    assert_eq!(index.entry_point(), None);
    assert_eq!(index.max_layer(), 0);
}

#[test]
fn test_dimension_mismatch() {
    let config_idx = HnswConfig::new(128);
    let storage = BinaryVectorStorage::new(64).unwrap();

    let result = HnswIndex::new(config_idx, &storage);
    assert!(matches!(
        result,
        Err(GraphError::ConfigMismatch {
            expected: 64,
            actual: 128
        })
    ));
}

#[test]
fn test_invalid_config_rejected() {
    let mut config = HnswConfig::new(128);
    config.m = 1;
    let storage = BinaryVectorStorage::new(128).unwrap();
    assert!(matches!(
        HnswIndex::new(config, &storage),
        Err(GraphError::InvalidConfig { m: 1, m0: 24 })
    ));

    let mut config = HnswConfig::new(128);
    config.m0 = 2;
    assert!(matches!(
        HnswIndex::new(config, &storage),
        Err(GraphError::InvalidConfig { m: 12, m0: 2 })
    ));
}

#[test]
fn test_neighbor_roundtrip() {
    let config = HnswConfig::new(128);
    let storage = BinaryVectorStorage::new(128).unwrap();
    let mut index = HnswIndex::new(config, &storage).unwrap();

    let id1 = index.add_node(VectorId(1), 0).unwrap();
    let id2 = index.add_node(VectorId(2), 0).unwrap();
    let id3 = index.add_node(VectorId(3), 0).unwrap();

    // neighbors: [2, 3]
    let neighbors = vec![id2, id3];
    index.set_neighbors(id1, &neighbors).unwrap();

    {
        let node1 = *index.get_node(id1).unwrap();
        let retrieved = index.get_neighbors(&node1).unwrap();
        assert_eq!(retrieved, neighbors);
    }

    // update neighbors: [3] (shrink, the old block is recycled)
    let neighbors2 = vec![id3];
    index.set_neighbors(id1, &neighbors2).unwrap();

    {
        let node1 = *index.get_node(id1).unwrap();
        let retrieved2 = index.get_neighbors(&node1).unwrap();
        assert_eq!(retrieved2, neighbors2);
    }
}

#[test]
fn test_set_neighbors_sorts_and_dedups() {
    let config = HnswConfig::new(128);
    let storage = BinaryVectorStorage::new(128).unwrap();
    let mut index = HnswIndex::new(config, &storage).unwrap();

    let n0 = index.add_node(VectorId(1), 0).unwrap();
    for v in 2..6 {
        index.add_node(VectorId(v), 0).unwrap();
    }
    index
        .set_neighbors(n0, &[NodeId(4), NodeId(2), NodeId(4), NodeId(1), NodeId(3)])
        .unwrap();
    let node = *index.get_node(n0).unwrap();
    let list = index.get_neighbors(&node).unwrap();
    assert_eq!(list, vec![NodeId(1), NodeId(2), NodeId(3), NodeId(4)]);
}

#[test]
fn test_add_node_rejects_invalid_vector_id() {
    let config = HnswConfig::new(128);
    let storage = BinaryVectorStorage::new(128).unwrap();
    let mut index = HnswIndex::new(config, &storage).unwrap();
    assert!(matches!(
        index.add_node(VectorId(0), 0),
        Err(GraphError::InvalidVectorId)
    ));
}

#[test]
fn test_max_layer_rises_with_nodes() {
    let config = HnswConfig::new(128);
    let storage = BinaryVectorStorage::new(128).unwrap();
    let mut index = HnswIndex::new(config, &storage).unwrap();
    index.add_node(VectorId(1), 0).unwrap();
    assert_eq!(index.max_layer(), 0);
    index.add_node(VectorId(2), 3).unwrap();
    assert_eq!(index.max_layer(), 3);
    index.add_node(VectorId(3), 1).unwrap();
    assert_eq!(index.max_layer(), 3);
}

#[test]
fn test_entry_point_set_and_get() {
    let config = HnswConfig::new(128);
    let storage = BinaryVectorStorage::new(128).unwrap();
    let mut index = HnswIndex::new(config, &storage).unwrap();
    let id = index.add_node(VectorId(7), 2).unwrap();
    index.set_entry_point(id);
    assert_eq!(index.entry_point(), Some(id));
}

#[test]
fn test_get_node_invalid_sentinel() {
    let config = HnswConfig::new(128);
    let storage = BinaryVectorStorage::new(128).unwrap();
    let mut index = HnswIndex::new(config, &storage).unwrap();
    index.add_node(VectorId(1), 0).unwrap();
    assert!(index.get_node(NodeId(u32::MAX)).is_none());
    assert!(index.get_node(NodeId(5)).is_none());
    assert!(index.get_node(NodeId(0)).is_some());
}

#[test]
fn test_delete_routes_through_storage() {
    // the graph's delete marks the tombstone; the node stays routable
    let config = HnswConfig::new(128);
    let mut storage = BinaryVectorStorage::new(128).unwrap();
    let mut index = HnswIndex::new(config, &storage).unwrap();
    let sid = storage.insert_raw(&vec![0xFF; 16]).unwrap();
    let nid = index.add_node(VectorId(sid + 1), 0).unwrap();

    assert!(index.delete(VectorId(sid), &mut storage));
    assert!(!index.delete(VectorId(sid), &mut storage));
    assert!(storage.is_deleted(sid));
    assert!(index.get_node(nid).is_some());
    assert!(index.memory_usage() > 0);
}

#[test]
fn test_set_neighbors_out_of_bounds_node() {
    let config = HnswConfig::new(128);
    let storage = BinaryVectorStorage::new(128).unwrap();
    let mut index = HnswIndex::new(config, &storage).unwrap();
    index.add_node(VectorId(1), 0).unwrap();

    let result = index.set_neighbors(NodeId(5), &[NodeId(0)]);
    assert!(matches!(result, Err(GraphError::NodeIdOutOfBounds)));
    // nothing changed
    assert_eq!(index.node_count(), 1);
    let node = *index.get_node(NodeId(0)).unwrap();
    assert_eq!(index.get_neighbors(&node).unwrap(), Vec::<NodeId>::new());
}
