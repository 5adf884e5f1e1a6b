//! Hamming distance over packed binary vectors.

use vstd::prelude::*;

verus! {

/// Number of set bits in one byte.
pub open spec fn pop8(x: u8) -> int {
    (x & 1) + ((x >> 1) & 1) + ((x >> 2) & 1) + ((x >> 3) & 1) + ((x >> 4) & 1) + ((x >> 5) & 1)
        + ((x >> 6) & 1) + ((x >> 7) & 1)
}

/// Number of differing bits over the first `n` byte pairs.
pub open spec fn hamming_partial(a: Seq<u8>, b: Seq<u8>, n: int) -> int
    decreases n,
{
    if n <= 0 {
        0
    } else {
        hamming_partial(a, b, n - 1) + pop8(a[n - 1] ^ b[n - 1])
    }
}

/// Hamming distance between two packed binary vectors of equal length:
/// the number of bit positions where they differ.
pub open spec fn spec_hamming(a: Seq<u8>, b: Seq<u8>) -> int {
    hamming_partial(a, b, a.len() as int)
}

proof fn lemma_pop8_bounds(x: u8)
    ensures
        0 <= pop8(x) <= 8,
{
    assert(0 <= (x & 1) + ((x >> 1) & 1) + ((x >> 2) & 1) + ((x >> 3) & 1) + ((x >> 4) & 1) + ((x
        >> 5) & 1) + ((x >> 6) & 1) + ((x >> 7) & 1) <= 8) by (bit_vector);
}

proof fn lemma_hamming_partial_bounds(a: Seq<u8>, b: Seq<u8>, n: int)
    requires
        0 <= n,
    ensures
        0 <= hamming_partial(a, b, n) <= 8 * n,
    decreases n,
{
    if n > 0 {
        lemma_hamming_partial_bounds(a, b, n - 1);
        lemma_pop8_bounds(a[n - 1] ^ b[n - 1]);
    }
}

/// The Hamming distance is symmetric: the differing bits between `a` and
/// `b` are the differing bits between `b` and `a`.
pub proof fn lemma_hamming_symmetric(a: Seq<u8>, b: Seq<u8>)
    requires
        a.len() == b.len(),
    ensures
        spec_hamming(a, b) == spec_hamming(b, a),
{
    lemma_hamming_partial_symmetric(a, b, a.len() as int);
}

proof fn lemma_hamming_partial_symmetric(a: Seq<u8>, b: Seq<u8>, n: int)
    ensures
        hamming_partial(a, b, n) == hamming_partial(b, a, n),
    decreases n,
{
    if n > 0 {
        lemma_hamming_partial_symmetric(a, b, n - 1);
        let x = a[n - 1];
        let y = b[n - 1];
        assert((x ^ y) == (y ^ x)) by (bit_vector);
    }
}

/// A vector is at Hamming distance zero from itself.
pub proof fn lemma_hamming_self(a: Seq<u8>)
    ensures
        spec_hamming(a, a) == 0,
{
    lemma_hamming_partial_self(a, a.len() as int);
}

proof fn lemma_hamming_partial_self(a: Seq<u8>, n: int)
    ensures
        hamming_partial(a, a, n) == 0,
    decreases n,
{
    if n > 0 {
        lemma_hamming_partial_self(a, n - 1);
        let x = a[n - 1];
        assert((x ^ x) == 0) by (bit_vector);
        assert((0u8 & 1) + ((0u8 >> 1) & 1) + ((0u8 >> 2) & 1) + ((0u8 >> 3) & 1) + ((0u8 >> 4) & 1)
            + ((0u8 >> 5) & 1) + ((0u8 >> 6) & 1) + ((0u8 >> 7) & 1) == 0) by (bit_vector);
    }
}

/// The Hamming distance lies between 0 and eight bits per byte.
pub proof fn lemma_hamming_bounds(a: Seq<u8>, b: Seq<u8>)
    requires
        a.len() == b.len(),
    ensures
        0 <= spec_hamming(a, b) <= 8 * a.len(),
{
    lemma_hamming_partial_bounds(a, b, a.len() as int);
}

/// Number of differing bits between two packed binary vectors.
pub fn hamming_distance_u8(a: &[u8], b: &[u8]) -> (r: u32)
    requires
        a@.len() == b@.len(),
        a@.len() * 8 <= u32::MAX,
    ensures
        r == spec_hamming(a@, b@),
{
    let n = a.len();
    let mut sum: u32 = 0;
    let mut i: usize = 0;
    while i < n
        invariant
            n == a@.len() == b@.len(),
            n * 8 <= u32::MAX,
            0 <= i <= n,
            sum == hamming_partial(a@, b@, i as int),
        decreases n - i,
    {
        proof {
            lemma_hamming_partial_bounds(a@, b@, i as int);
            lemma_hamming_partial_bounds(a@, b@, i + 1);
            assert(8 * i <= n * 8 && 8 * (i + 1) <= n * 8) by (nonlinear_arith)
                requires
                    0 <= i < n,
            ;
        }
        let x: u8 = a[i] ^ b[i];
        let p: u32 = ((x & 1) as u32) + (((x >> 1) & 1) as u32) + (((x >> 2) & 1) as u32) + (((x
            >> 3) & 1) as u32) + (((x >> 4) & 1) as u32) + (((x >> 5) & 1) as u32) + (((x >> 6)
            & 1) as u32) + (((x >> 7) & 1) as u32);
        assert(p == pop8(x));
        sum = sum + p;
        i = i + 1;
    }
    sum
}

/// Hamming distance metric over packed binary vectors.
pub struct Hamming;

impl Hamming {
    /// Number of differing bits between two equal-length binary vectors.
    pub fn distance(a: &[u8], b: &[u8]) -> (r: u32)
        requires
            a@.len() == b@.len(),
            a@.len() * 8 <= u32::MAX,
        ensures
            r == spec_hamming(a@, b@),
    {
        hamming_distance_u8(a, b)
    }
}

} // verus!
