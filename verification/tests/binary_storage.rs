use edgevec::quantization::variable::BinaryVector;
use edgevec::storage::binary::{BinaryStorageError, BinaryVectorStorage};

fn make_vector(dimension: usize, value: f32) -> BinaryVector {
    // sign quantization of a constant vector: all bits set iff positive
    let bits: Vec<bool> = (0..dimension).map(|_| value > 0.0).collect();
    BinaryVector::from_bits(&bits).unwrap()
}

#[test]
fn test_new_valid_dimensions() {
    assert!(BinaryVectorStorage::new(128).is_ok());
    assert!(BinaryVectorStorage::new(384).is_ok());
    assert!(BinaryVectorStorage::new(768).is_ok());
    assert!(BinaryVectorStorage::new(1024).is_ok());
    assert!(BinaryVectorStorage::new(1536).is_ok());
}

#[test]
fn test_new_invalid_dimension_not_divisible() {
    let result = BinaryVectorStorage::new(100);
    assert!(matches!(
        result,
        Err(BinaryStorageError::InvalidDimension { dimension: 100 })
    ));
}

#[test]
fn test_new_invalid_dimension_zero() {
    let result = BinaryVectorStorage::new(0);
    assert!(matches!(
        result,
        Err(BinaryStorageError::InvalidDimension { dimension: 0 })
    ));
}

#[test]
fn test_insert_and_get() {
    let mut storage = BinaryVectorStorage::new(128).unwrap();
    let bv = make_vector(128, 1.0);

    let id = storage.insert(&bv).unwrap();
    assert_eq!(id, 0);
    assert_eq!(storage.len(), 1);

    let retrieved = storage.get(id).unwrap();
    assert_eq!(retrieved.dimension(), 128);
    assert_eq!(retrieved.data(), bv.data());
}

#[test]
fn test_insert_multiple() {
    let mut storage = BinaryVectorStorage::new(128).unwrap();

    for i in 0..5 {
        let bv = make_vector(128, i as f32);
        let id = storage.insert(&bv).unwrap();
        assert_eq!(id, i);
    }

    assert_eq!(storage.len(), 5);
}

#[test]
fn test_insert_dimension_mismatch() {
    let mut storage = BinaryVectorStorage::new(128).unwrap();
    let bv = make_vector(256, 1.0);

    let result = storage.insert(&bv);
    assert!(matches!(
        result,
        Err(BinaryStorageError::DimensionMismatch {
            expected: 128,
            actual: 256
        })
    ));
}

#[test]
fn test_insert_raw() {
    let mut storage = BinaryVectorStorage::new(128).unwrap();
    let data = vec![0xFF; 16];

    let id = storage.insert_raw(&data).unwrap();
    assert_eq!(id, 0);

    let raw = storage.get_raw(id).unwrap();
    assert_eq!(raw, &data[..]);
}

#[test]
fn test_insert_raw_dimension_mismatch() {
    let mut storage = BinaryVectorStorage::new(128).unwrap();
    let data = vec![0xFF; 32]; // 256 bits instead of 128

    let result = storage.insert_raw(&data);
    assert!(matches!(
        result,
        Err(BinaryStorageError::DimensionMismatch { .. })
    ));
}

#[test]
fn test_get_nonexistent() {
    let storage = BinaryVectorStorage::new(128).unwrap();
    assert!(storage.get(0).is_none());
    assert!(storage.get(100).is_none());
}

#[test]
fn test_get_raw() {
    let mut storage = BinaryVectorStorage::new(128).unwrap();
    let bv = make_vector(128, 1.0);

    let id = storage.insert(&bv).unwrap();
    let raw = storage.get_raw(id).unwrap();

    assert_eq!(raw.len(), 16); // 128 / 8
    assert_eq!(raw, bv.data());
}

#[test]
fn test_get_raw_nonexistent() {
    let storage = BinaryVectorStorage::new(128).unwrap();
    assert!(storage.get_raw(0).is_none());
}

#[test]
fn test_delete() {
    let mut storage = BinaryVectorStorage::new(128).unwrap();
    let bv = make_vector(128, 1.0);

    let id = storage.insert(&bv).unwrap();
    assert!(storage.get(id).is_some());

    storage.delete(id).unwrap();
    assert!(storage.get(id).is_none());
    assert!(storage.is_deleted(id));
}

#[test]
fn test_delete_not_found() {
    let mut storage = BinaryVectorStorage::new(128).unwrap();
    let result = storage.delete(0);
    assert!(matches!(
        result,
        Err(BinaryStorageError::NotFound { id: 0 })
    ));
}

#[test]
fn test_delete_already_deleted() {
    let mut storage = BinaryVectorStorage::new(128).unwrap();
    let bv = make_vector(128, 1.0);

    let id = storage.insert(&bv).unwrap();
    storage.delete(id).unwrap();

    let result = storage.delete(id);
    assert!(matches!(
        result,
        Err(BinaryStorageError::AlreadyDeleted { id: 0 })
    ));
}

#[test]
fn test_mark_deleted_idempotent() {
    // marking twice: first reports true, second reports false and
    // leaves the tombstones unchanged
    let mut storage = BinaryVectorStorage::new(128).unwrap();
    let bv = make_vector(128, 1.0);
    let id = storage.insert(&bv).unwrap();

    assert!(storage.mark_deleted(id));
    assert!(storage.is_deleted(id));
    assert_eq!(storage.deleted_count(), 1);

    assert!(!storage.mark_deleted(id));
    assert!(storage.is_deleted(id));
    assert_eq!(storage.deleted_count(), 1);

    // unknown ids report false and change nothing
    assert!(!storage.mark_deleted(99));
    assert_eq!(storage.deleted_count(), 1);
}

#[test]
fn test_is_deleted() {
    let mut storage = BinaryVectorStorage::new(128).unwrap();
    let bv = make_vector(128, 1.0);

    let id = storage.insert(&bv).unwrap();
    assert!(!storage.is_deleted(id));

    storage.delete(id).unwrap();
    assert!(storage.is_deleted(id));
}

#[test]
fn test_is_deleted_out_of_bounds() {
    let storage = BinaryVectorStorage::new(128).unwrap();
    assert!(!storage.is_deleted(100));
}

#[test]
fn test_live_count() {
    let mut storage = BinaryVectorStorage::new(128).unwrap();

    for i in 0..5 {
        let bv = make_vector(128, i as f32);
        storage.insert(&bv).unwrap();
    }

    assert_eq!(storage.len(), 5);
    assert_eq!(storage.live_count(), 5);
    assert_eq!(storage.deleted_count(), 0);

    storage.delete(1).unwrap();
    storage.delete(3).unwrap();

    assert_eq!(storage.len(), 5);
    assert_eq!(storage.live_count(), 3);
    assert_eq!(storage.deleted_count(), 2);
}

#[test]
fn test_iter_live() {
    let mut storage = BinaryVectorStorage::new(128).unwrap();

    for i in 0..5 {
        let bv = make_vector(128, i as f32);
        storage.insert(&bv).unwrap();
    }

    storage.delete(1).unwrap();
    storage.delete(3).unwrap();

    let live_ids: Vec<u64> = storage.iter_live().into_iter().map(|(id, _)| id).collect();
    assert_eq!(live_ids, vec![0, 2, 4]);
}

#[test]
fn test_iter_all() {
    let mut storage = BinaryVectorStorage::new(128).unwrap();

    for i in 0..3 {
        let bv = make_vector(128, i as f32);
        storage.insert(&bv).unwrap();
    }

    storage.delete(1).unwrap();

    let all: Vec<(u64, Vec<u8>, bool)> = storage.iter_all();
    assert_eq!(all.len(), 3);
    assert!(!all[0].2); // not deleted
    assert!(all[1].2); // deleted
    assert!(!all[2].2); // not deleted
}

#[test]
fn test_memory_bytes() {
    let mut storage = BinaryVectorStorage::new(768).unwrap();

    assert_eq!(storage.memory_bytes(), 0);

    let bv = make_vector(768, 1.0);
    storage.insert(&bv).unwrap();

    assert_eq!(storage.memory_bytes(), 96); // 768 / 8

    storage.insert(&bv).unwrap();
    assert_eq!(storage.memory_bytes(), 192); // 2 * 96
}

#[test]
fn test_bytes_per_vector() {
    let storage = BinaryVectorStorage::new(768).unwrap();
    assert_eq!(storage.bytes_per_vector(), 96);

    let storage = BinaryVectorStorage::new(128).unwrap();
    assert_eq!(storage.bytes_per_vector(), 16);

    let storage = BinaryVectorStorage::new(1536).unwrap();
    assert_eq!(storage.bytes_per_vector(), 192);
}

#[test]
fn test_reserve_and_capacity() {
    let mut storage = BinaryVectorStorage::new(128).unwrap();
    assert_eq!(storage.capacity(), 0);

    storage.reserve(100);
    assert!(storage.capacity() >= 100);
}

#[test]
fn test_shrink_to_fit() {
    let mut storage = BinaryVectorStorage::new(128).unwrap();
    storage.reserve(1000);

    let bv = make_vector(128, 1.0);
    storage.insert(&bv).unwrap();

    let capacity_before = storage.capacity();
    storage.shrink_to_fit();
    let capacity_after = storage.capacity();

    assert!(capacity_after <= capacity_before);
}

#[test]
fn binary_test_error_display() {
    let err = BinaryStorageError::InvalidDimension { dimension: 100 };
    let msg = err.message();
    assert!(msg.contains("100"));
    assert!(msg.contains("divisible by 8"));

    let err = BinaryStorageError::DimensionMismatch {
        expected: 128,
        actual: 256,
    };
    let msg = err.message();
    assert!(msg.contains("128"));
    assert!(msg.contains("256"));

    let err = BinaryStorageError::NotFound { id: 42 };
    let msg = err.message();
    assert!(msg.contains("42"));

    let err = BinaryStorageError::AlreadyDeleted { id: 42 };
    let msg = err.message();
    assert!(msg.contains("42"));
}
