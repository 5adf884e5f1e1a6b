//! Scalar implementations of the integer distance kernels.

use vstd::prelude::*;

verus! {

/// Sum of squared differences over the first `n` elements.
pub open spec fn l2_squared_u8_partial(a: Seq<u8>, b: Seq<u8>, n: int) -> int
    decreases n,
{
    if n <= 0 {
        0
    } else {
        l2_squared_u8_partial(a, b, n - 1) + (a[n - 1] - b[n - 1]) * (a[n - 1] - b[n - 1])
    }
}

/// Squared L2 distance between two byte vectors of equal length.
pub open spec fn spec_l2_squared_u8(a: Seq<u8>, b: Seq<u8>) -> int {
    l2_squared_u8_partial(a, b, a.len() as int)
}

/// Sum of products over the first `n` elements.
pub open spec fn dot_product_u8_partial(a: Seq<u8>, b: Seq<u8>, n: int) -> int
    decreases n,
{
    if n <= 0 {
        0
    } else {
        dot_product_u8_partial(a, b, n - 1) + a[n - 1] * b[n - 1]
    }
}

/// Dot product of two byte vectors of equal length.
pub open spec fn spec_dot_product_u8(a: Seq<u8>, b: Seq<u8>) -> int {
    dot_product_u8_partial(a, b, a.len() as int)
}

/// Each partial sum of squared differences lies between 0 and n * 255².
proof fn lemma_l2_partial_bounds(a: Seq<u8>, b: Seq<u8>, n: int)
    requires
        0 <= n,
    ensures
        0 <= l2_squared_u8_partial(a, b, n) <= n * 65025,
    decreases n,
{
    if n > 0 {
        lemma_l2_partial_bounds(a, b, n - 1);
        let d = a[n - 1] - b[n - 1];
        assert(-255 <= d <= 255);
        assert(d * d <= 65025 && d * d >= 0) by (nonlinear_arith)
            requires
                -255 <= d <= 255,
        ;
        assert((n - 1) * 65025 + 65025 == n * 65025) by (nonlinear_arith);
    }
}

/// Each partial dot product lies between 0 and n * 255².
proof fn lemma_dot_partial_bounds(a: Seq<u8>, b: Seq<u8>, n: int)
    requires
        0 <= n,
    ensures
        0 <= dot_product_u8_partial(a, b, n) <= n * 65025,
    decreases n,
{
    if n > 0 {
        lemma_dot_partial_bounds(a, b, n - 1);
        let x = a[n - 1] as int;
        let y = b[n - 1] as int;
        assert(0 <= x * y <= 65025) by (nonlinear_arith)
            requires
                0 <= x <= 255,
                0 <= y <= 255,
        ;
        assert((n - 1) * 65025 + 65025 == n * 65025) by (nonlinear_arith);
    }
}

/// The squared L2 distance is symmetric: each squared difference is.
pub proof fn lemma_l2_symmetric(a: Seq<u8>, b: Seq<u8>)
    requires
        a.len() == b.len(),
    ensures
        spec_l2_squared_u8(a, b) == spec_l2_squared_u8(b, a),
{
    lemma_l2_partial_symmetric(a, b, a.len() as int);
}

proof fn lemma_l2_partial_symmetric(a: Seq<u8>, b: Seq<u8>, n: int)
    ensures
        l2_squared_u8_partial(a, b, n) == l2_squared_u8_partial(b, a, n),
    decreases n,
{
    if n > 0 {
        lemma_l2_partial_symmetric(a, b, n - 1);
        let d = a[n - 1] - b[n - 1];
        let e = b[n - 1] - a[n - 1];
        assert(d * d == e * e) by (nonlinear_arith)
            requires
                d == -e,
        ;
    }
}

/// Sum over the first `n` elements of the products of stepwise
/// differences, `(a[i] - b[i]) * (b[i] - c[i])`: the cross term that
/// appears when the squared distance from `a` to `c` is split over `b`.
spec fn l2_cross_partial(a: Seq<u8>, b: Seq<u8>, c: Seq<u8>, n: int) -> int
    decreases n,
{
    if n <= 0 {
        0
    } else {
        l2_cross_partial(a, b, c, n - 1) + (a[n - 1] - b[n - 1]) * (b[n - 1] - c[n - 1])
    }
}

/// The squared distance from `a` to `c` splits over `b` into the two
/// legs plus twice the cross term, elementwise from
/// `(x + y)^2 == x^2 + 2xy + y^2`.
proof fn lemma_l2_split(a: Seq<u8>, b: Seq<u8>, c: Seq<u8>, n: int)
    ensures
        l2_squared_u8_partial(a, c, n) == l2_squared_u8_partial(a, b, n) + 2 * l2_cross_partial(
            a,
            b,
            c,
            n,
        ) + l2_squared_u8_partial(b, c, n),
    decreases n,
{
    if n > 0 {
        lemma_l2_split(a, b, c, n - 1);
        let u = a[n - 1] - b[n - 1];
        let v = b[n - 1] - c[n - 1];
        let w = a[n - 1] - c[n - 1];
        assert(w * w == u * u + 2 * (u * v) + v * v) by (nonlinear_arith)
            requires
                w == u + v,
        ;
    }
}

/// Cauchy-Schwarz for the stepwise differences: the square of the
/// cross term is at most the product of the two squared legs.
proof fn lemma_l2_cauchy_schwarz(a: Seq<u8>, b: Seq<u8>, c: Seq<u8>, n: int)
    requires
        0 <= n,
    ensures
        l2_cross_partial(a, b, c, n) * l2_cross_partial(a, b, c, n) <= l2_squared_u8_partial(
            a,
            b,
            n,
        ) * l2_squared_u8_partial(b, c, n),
    decreases n,
{
    if n > 0 {
        lemma_l2_cauchy_schwarz(a, b, c, n - 1);
        lemma_l2_partial_bounds(a, b, n - 1);
        lemma_l2_partial_bounds(b, c, n - 1);
        let s = l2_cross_partial(a, b, c, n - 1);
        let p = l2_squared_u8_partial(a, b, n - 1);
        let q = l2_squared_u8_partial(b, c, n - 1);
        let u = a[n - 1] - b[n - 1];
        let v = b[n - 1] - c[n - 1];
        let pa = p * (v * v);
        let qb = q * (u * u);
        let x = pa + qb;
        let y = 2 * (s * (u * v));
        // x dominates y: x^2 - 4(pv^2)(qu^2) is the square of their
        // difference, and (pv^2)(qu^2) = pq(uv)^2 dominates (suv)^2
        // because s^2 <= pq
        assert(x * x - 4 * (pa * qb) == (pa - qb) * (pa - qb)) by (nonlinear_arith)
            requires
                x == pa + qb,
        ;
        assert((pa - qb) * (pa - qb) >= 0) by (nonlinear_arith);
        assert(pa * qb == (p * q) * ((u * v) * (u * v))) by (nonlinear_arith)
            requires
                pa == p * (v * v),
                qb == q * (u * u),
        ;
        assert(4 * ((p * q) * ((u * v) * (u * v))) >= 4 * ((s * s) * ((u * v) * (u * v)))) by (nonlinear_arith)
            requires
                s * s <= p * q,
        ;
        assert(y * y == 4 * ((s * s) * ((u * v) * (u * v)))) by (nonlinear_arith)
            requires
                y == 2 * (s * (u * v)),
        ;
        assert(x >= 0) by (nonlinear_arith)
            requires
                x == p * (v * v) + q * (u * u),
                p >= 0,
                q >= 0,
        ;
        assert(x >= y) by (nonlinear_arith)
            requires
                x >= 0,
                x * x >= y * y,
        ;
        // assemble the step: expand both sides and compare termwise
        assert((s + u * v) * (s + u * v) == s * s + y + (u * v) * (u * v)) by (nonlinear_arith)
            requires
                y == 2 * (s * (u * v)),
        ;
        assert((p + u * u) * (q + v * v) == p * q + x + (u * v) * (u * v)) by (nonlinear_arith)
            requires
                x == p * (v * v) + q * (u * u),
        ;
    }
}

/// Triangle inequality for the metric the squared L2 distance induces,
/// in exact integer form: for every integer `r` at least 0 whose square
/// dominates the product of the two squared legs, the squared distance
/// from `a` to `c` is at most `l2(a,b) + l2(b,c) + 2r`. Instantiated at
/// the real `r = sqrt(l2(a,b) * l2(b,c))` this reads
/// `sqrt(l2(a,c)) <= sqrt(l2(a,b)) + sqrt(l2(b,c))`.
pub proof fn lemma_l2_triangle(a: Seq<u8>, b: Seq<u8>, c: Seq<u8>, r: int)
    requires
        a.len() == b.len(),
        b.len() == c.len(),
        r >= 0,
        spec_l2_squared_u8(a, b) * spec_l2_squared_u8(b, c) <= r * r,
    ensures
        spec_l2_squared_u8(a, c) <= spec_l2_squared_u8(a, b) + spec_l2_squared_u8(b, c) + 2 * r,
{
    let n = a.len() as int;
    lemma_l2_split(a, b, c, n);
    lemma_l2_cauchy_schwarz(a, b, c, n);
    let s = l2_cross_partial(a, b, c, n);
    let p = l2_squared_u8_partial(a, b, n);
    let q = l2_squared_u8_partial(b, c, n);
    assert(s <= r) by (nonlinear_arith)
        requires
            s * s <= p * q,
            p * q <= r * r,
            r >= 0,
    ;
}

/// Squared L2 distance for u8 vectors (scalar reference).
///
/// The sum fits in a `u32` because each term is at most 255² and the
/// length is bounded accordingly.
pub fn l2_squared_u8(a: &[u8], b: &[u8]) -> (r: u32)
    requires
        a@.len() == b@.len(),
        a@.len() * 65025 <= u32::MAX,
    ensures
        r == spec_l2_squared_u8(a@, b@),
{
    let n = a.len();
    let mut sum: u32 = 0;
    let mut i: usize = 0;
    while i < n
        invariant
            n == a@.len() == b@.len(),
            n * 65025 <= u32::MAX,
            0 <= i <= n,
            sum == l2_squared_u8_partial(a@, b@, i as int),
        decreases n - i,
    {
        proof {
            lemma_l2_partial_bounds(a@, b@, i as int);
            lemma_l2_partial_bounds(a@, b@, i + 1);
            assert(i * 65025 <= n * 65025 && (i + 1) * 65025 <= n * 65025) by (nonlinear_arith)
                requires
                    0 <= i < n,
            ;
        }
        let ai = a[i] as i32;
        let bi = b[i] as i32;
        let diff: i32 = ai - bi;
        proof {
            let d: int = a@[i as int] - b@[i as int];
            assert(0 <= d * d <= 65025) by (nonlinear_arith)
                requires
                    -255 <= d <= 255,
            ;
        }
        sum = sum + ((diff * diff) as u32);
        i = i + 1;
    }
    sum
}

/// Dot product for u8 vectors (scalar reference).
///
/// The sum fits in a `u32` because each term is at most 255² and the
/// length is bounded accordingly.
pub fn dot_product_u8(a: &[u8], b: &[u8]) -> (r: u32)
    requires
        a@.len() == b@.len(),
        a@.len() * 65025 <= u32::MAX,
    ensures
        r == spec_dot_product_u8(a@, b@),
{
    let n = a.len();
    let mut sum: u32 = 0;
    let mut i: usize = 0;
    while i < n
        invariant
            n == a@.len() == b@.len(),
            n * 65025 <= u32::MAX,
            0 <= i <= n,
            sum == dot_product_u8_partial(a@, b@, i as int),
        decreases n - i,
    {
        proof {
            lemma_dot_partial_bounds(a@, b@, i as int);
            lemma_dot_partial_bounds(a@, b@, i + 1);
            assert(i * 65025 <= n * 65025 && (i + 1) * 65025 <= n * 65025) by (nonlinear_arith)
                requires
                    0 <= i < n,
            ;
        }
        let prod: u32 = (a[i] as u32) * (b[i] as u32);
        sum = sum + prod;
        i = i + 1;
    }
    sum
}

} // verus!
