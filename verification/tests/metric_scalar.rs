use edgevec::metric::scalar::{dot_product_u8, l2_squared_u8};
use edgevec::metric::Hamming;

#[test]
fn test_l2_squared_u8_scalar() {
    let a = vec![1, 2, 3];
    let b = vec![4, 2, 1];
    // (1-4)^2 + (2-2)^2 + (3-1)^2 = 9 + 0 + 4 = 13
    assert_eq!(l2_squared_u8(&a, &b), 13);
}

#[test]
fn test_dot_product_u8_scalar() {
    let a = vec![1, 2, 3];
    let b = vec![4, 2, 1];
    // 1*4 + 2*2 + 3*1 = 4 + 4 + 3 = 11
    assert_eq!(dot_product_u8(&a, &b), 11);
}

#[test]
fn test_overflow_protection() {
    // 255^2 * 1000 = 65,025,000 fits comfortably in u32.
    let n = 1000;
    let a = vec![255; n];
    let b = vec![0; n];
    assert_eq!(l2_squared_u8(&a, &b), 65_025_000);
}

#[test]
fn test_hamming_basic() {
    // 0xAA ^ 0x55 = 0xFF: 8 differing bits per byte.
    let a = [0xAA, 0xAA];
    let b = [0x55, 0x55];
    assert_eq!(Hamming::distance(&a, &b), 16);
}

#[test]
fn test_hamming_exact_match() {
    let a = [0xFF, 0x00];
    assert_eq!(Hamming::distance(&a, &a), 0);
}

#[test]
fn test_hamming_symmetry_concrete() {
    let a = [0x12, 0x34, 0x56];
    let b = [0x65, 0x43, 0x21];
    assert_eq!(Hamming::distance(&a, &b), Hamming::distance(&b, &a));
    assert!(Hamming::distance(&a, &b) <= 8 * 3);
}

#[test]
fn test_l2_triangle_inequality_concrete() {
    // sqrt(l2(a,c)) <= sqrt(l2(a,b)) + sqrt(l2(b,c)) on concrete triples
    let triples: [(&[u8], &[u8], &[u8]); 3] = [
        (&[0, 0, 0], &[3, 4, 0], &[6, 8, 0]),
        (&[1, 2, 3, 4], &[200, 100, 50, 25], &[255, 255, 255, 255]),
        (&[10, 20], &[10, 20], &[30, 40]),
    ];
    for (a, b, c) in triples {
        let ab = f64::from(l2_squared_u8(a, b)).sqrt();
        let bc = f64::from(l2_squared_u8(b, c)).sqrt();
        let ac = f64::from(l2_squared_u8(a, c)).sqrt();
        assert!(ac <= ab + bc + 1e-9);
    }
}

#[test]
fn test_l2_squared_u8_symmetry_concrete() {
    let a = vec![10, 200, 30, 4];
    let b = vec![90, 8, 70, 255];
    assert_eq!(l2_squared_u8(&a, &b), l2_squared_u8(&b, &a));
}
