use edgevec::quantization::variable::{BinaryVector, QuantizationError};

#[test]
fn variable_test_from_bytes_valid() {
    let data = vec![0xFF; 16];
    let bv = BinaryVector::from_bytes(data, 128).unwrap();
    assert_eq!(bv.dimension(), 128);
    assert_eq!(bv.bytes(), 16);
}

#[test]
fn variable_test_from_bytes_length_mismatch() {
    let data = vec![0xFF; 16];
    let result = BinaryVector::from_bytes(data, 256);
    assert!(matches!(
        result,
        Err(QuantizationError::ByteLengthMismatch {
            expected: 32,
            actual: 16
        })
    ));
}

#[test]
fn variable_test_error_display() {
    let err = QuantizationError::InvalidDimension { dimension: 100 };
    let msg = err.message();
    assert!(msg.contains("100"));
    assert!(msg.contains("divisible by 8"));
}

#[test]
fn test_from_bits_packs_little_endian() {
    // alternating +/- signs pack to 0x55 per byte
    let bits: Vec<bool> = (0..8).map(|i| i % 2 == 0).collect();
    let bv = BinaryVector::from_bits(&bits).unwrap();
    assert_eq!(bv.dimension(), 8);
    assert_eq!(bv.bytes(), 1);
    assert_eq!(bv.data()[0], 0x55);
}

#[test]
fn test_from_bits_invalid_dimension() {
    let bits = vec![true; 100];
    let result = BinaryVector::from_bits(&bits);
    assert!(matches!(
        result,
        Err(QuantizationError::InvalidDimension { dimension: 100 })
    ));
}

#[test]
fn test_hamming_distance_zero() {
    let bv = BinaryVector::from_bytes(vec![0xFF; 16], 128).unwrap();
    assert_eq!(bv.hamming_distance(&bv).unwrap(), 0);
}

#[test]
fn test_hamming_distance_max() {
    let bv1 = BinaryVector::from_bytes(vec![0xFF; 16], 128).unwrap();
    let bv2 = BinaryVector::from_bytes(vec![0x00; 16], 128).unwrap();
    assert_eq!(bv1.hamming_distance(&bv2).unwrap(), 128);
}

#[test]
fn test_hamming_distance_extremes_768() {
    // dimension 768: all positive signs against all negative signs
    let up: Vec<bool> = vec![true; 768];
    let down: Vec<bool> = vec![false; 768];
    let bv1 = BinaryVector::from_bits(&up).unwrap();
    let bv2 = BinaryVector::from_bits(&down).unwrap();
    assert_eq!(bv1.hamming_distance(&bv2).unwrap(), 768);
    assert_eq!(bv1.hamming_distance(&bv1).unwrap(), 0);
}

#[test]
fn test_hamming_distance_symmetric() {
    let bv1 = BinaryVector::from_bytes(vec![0x12, 0x34], 16).unwrap();
    let bv2 = BinaryVector::from_bytes(vec![0x56, 0x78], 16).unwrap();
    assert_eq!(
        bv1.hamming_distance(&bv2).unwrap(),
        bv2.hamming_distance(&bv1).unwrap()
    );
}

#[test]
fn test_hamming_distance_dimension_mismatch() {
    let bv1 = BinaryVector::from_bytes(vec![0xFF; 16], 128).unwrap();
    let bv2 = BinaryVector::from_bytes(vec![0xFF; 32], 256).unwrap();
    let result = bv1.hamming_distance(&bv2);
    assert!(matches!(
        result,
        Err(QuantizationError::DimensionMismatch {
            expected: 128,
            actual: 256
        })
    ));
}
