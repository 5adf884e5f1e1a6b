//! Flat (brute-force) index for binary vectors: O(1) insert and an
//! O(n) scan under Hamming distance, exact by construction. Suited to
//! insert-heavy workloads and small-to-medium collections.

use vstd::prelude::*;
use crate::hnsw::graph::VectorId;
use crate::metric::hamming;
use crate::metric::hamming::Hamming;
use crate::quantization::variable::valid_dimension;
use crate::storage::binary::vec_capacity;

verus! {

/// One search hit: a vector id and its Hamming distance to the query.
#[derive(Clone, Copy, Debug, PartialEq, Eq, Structural)]
pub struct FlatSearchResult {
    /// Vector id (ids count from 1 in insertion order).
    pub id: VectorId,
    /// Hamming distance to the query; lower is more similar.
    pub distance: u32,
}

/// Search hits are ordered by distance, ties broken by ascending id.
pub open spec fn result_le(a: FlatSearchResult, b: FlatSearchResult) -> bool {
    a.distance < b.distance || (a.distance == b.distance && a.id.0 <= b.id.0)
}

/// A flat index: all vectors in one contiguous byte arena, scanned
/// linearly on search.
pub struct BinaryFlatIndex {
    vectors: Vec<u8>,
    dimensions: usize,
    bytes_per_vector: usize,
    count: usize,
}

impl BinaryFlatIndex {
    /// The dimension in bits.
    pub closed spec fn dim(&self) -> int {
        self.dimensions as int
    }

    /// Bytes per stored vector.
    pub closed spec fn bpv(&self) -> int {
        self.bytes_per_vector as int
    }

    /// Number of vectors stored.
    pub closed spec fn count_spec(&self) -> int {
        self.count as int
    }

    /// The whole arena.
    pub closed spec fn data_bytes(&self) -> Seq<u8> {
        self.vectors@
    }

    /// The bytes of the vector with 0-based index `i`.
    pub open spec fn vector_at(&self, i: int) -> Seq<u8> {
        self.data_bytes().subrange(i * self.bpv(), (i + 1) * self.bpv())
    }

    /// The Hamming distance of the query to the vector with 0-based
    /// index `i`.
    pub open spec fn dist_of(&self, q: Seq<u8>, i: int) -> int {
        hamming::spec_hamming(q, self.vector_at(i))
    }

    /// Every constructed index satisfies this: an accepted dimension
    /// and one record of `dimensions / 8` bytes per vector.
    pub closed spec fn wf(&self) -> bool {
        &&& valid_dimension(self.dim())
        &&& self.bpv() * 8 == self.dim()
        &&& self.data_bytes().len() == self.count_spec() * self.bpv()
    }

    /// What well-formedness gives of the sizes: an accepted dimension,
    /// eight bits per record byte, and an arena of one record per
    /// vector.
    pub proof fn lemma_wf_sizes(&self)
        requires
            self.wf(),
        ensures
            valid_dimension(self.dim()),
            self.bpv() * 8 == self.dim(),
            self.data_bytes().len() == self.count_spec() * self.bpv(),
    {
    }

    /// Creates an index for vectors of `dimensions` bits, which must
    /// be positive, divisible by 8, and fit in 32 bits.
    pub fn new(dimensions: usize) -> (r: Self)
        requires
            valid_dimension(dimensions as int),
        ensures
            r.wf(),
            r.dim() == dimensions,
            r.count_spec() == 0,
    {
        proof {
            assert((dimensions / 8) * 8 == dimensions) by (nonlinear_arith)
                requires
                    dimensions % 8 == 0,
                    dimensions >= 0,
            ;
        }
        BinaryFlatIndex {
            vectors: Vec::new(),
            dimensions,
            bytes_per_vector: dimensions / 8,
            count: 0,
        }
    }

    /// Creates an index with room reserved for `capacity` vectors.
    pub fn with_capacity(dimensions: usize, capacity: usize) -> (r: Self)
        requires
            valid_dimension(dimensions as int),
            capacity * (dimensions as int / 8) <= usize::MAX,
        ensures
            r.wf(),
            r.dim() == dimensions,
            r.count_spec() == 0,
    {
        proof {
            assert((dimensions / 8) * 8 == dimensions) by (nonlinear_arith)
                requires
                    dimensions % 8 == 0,
                    dimensions >= 0,
            ;
        }
        let bytes_per_vector = dimensions / 8;
        BinaryFlatIndex {
            vectors: Vec::with_capacity(capacity * bytes_per_vector),
            dimensions,
            bytes_per_vector,
            count: 0,
        }
    }

    /// Appends a vector, whose length must match, and returns its
    /// 1-based id. The bound on the count is a machine limit.
    pub fn insert(&mut self, vector: &[u8]) -> (r: VectorId)
        requires
            old(self).wf(),
            vector@.len() == old(self).bpv(),
            old(self).count_spec() < usize::MAX,
        ensures
            final(self).wf(),
            final(self).dim() == old(self).dim(),
            r.0 == old(self).count_spec() + 1,
            final(self).count_spec() == old(self).count_spec() + 1,
            final(self).vector_at(old(self).count_spec()) == vector@,
            final(self).data_bytes() == old(self).data_bytes() + vector@,
    {
        let ghost oldcount = self.count as int;
        proof {
            assert(oldcount * self.bpv() + self.bpv() == (oldcount + 1) * self.bpv())
                by (nonlinear_arith);
            assert(oldcount * self.bpv() >= 0) by (nonlinear_arith)
                requires
                    oldcount >= 0,
                    self.bpv() >= 0,
            ;
        }
        let n = vector.len();
        let mut k: usize = 0;
        while k < n
            invariant
                0 <= k <= n,
                n == vector@.len(),
                self.vectors@ == old(self).vectors@ + vector@.subrange(0, k as int),
                *self == (BinaryFlatIndex { vectors: self.vectors, ..*old(self) }),
            decreases n - k,
        {
            self.vectors.push(vector[k]);
            proof {
                assert(self.vectors@ =~= old(self).vectors@ + vector@.subrange(0, k + 1));
            }
            k = k + 1;
        }
        proof {
            assert(vector@.subrange(0, vector@.len() as int) =~= vector@);
        }
        self.count = self.count + 1;
        proof {
            assert(self.vectors@.len() == (oldcount + 1) * self.bpv()) by (nonlinear_arith)
                requires
                    self.vectors@.len() == oldcount * self.bpv() + self.bpv(),
            ;
            assert(self.vector_at(oldcount) =~= vector@) by {
                assert(oldcount * self.bpv() + self.bpv() == (oldcount + 1) * self.bpv())
                    by (nonlinear_arith);
            }
        }
        VectorId(self.count as u64)
    }

    /// The vector with the given 1-based id, or `None` when the id is
    /// 0 or out of bounds.
    pub fn get(&self, id: VectorId) -> (r: Option<&[u8]>)
        requires
            self.wf(),
        ensures
            match r {
                Option::Some(s) => 1 <= id.0 <= self.count_spec() && s@ == self.vector_at(
                    id.0 - 1,
                ),
                Option::None => id.0 == 0 || id.0 > self.count_spec(),
            },
    {
        if id.0 == 0 || id.0 > self.count as u64 {
            return None;
        }
        let idx = (id.0 - 1) as usize;
        proof {
            assert(0 <= (idx as int) * self.bpv() && ((idx as int) + 1) * self.bpv()
                <= self.count_spec() * self.bpv() && (idx as int) * self.bpv() + self.bpv() == ((
            idx as int) + 1) * self.bpv()) by (nonlinear_arith)
                requires
                    0 <= (idx as int) && (idx as int) < self.count_spec(),
                    self.bpv() >= 0,
            ;
        }
        let dlen = self.vectors.len();
        let start = idx * self.bytes_per_vector;
        let end = start + self.bytes_per_vector;
        Some(vstd::slice::slice_subrange(self.vectors.as_slice(), start, end))
    }

    /// Number of vectors in the index.
    pub fn len(&self) -> (r: usize)
        ensures
            r == self.count_spec(),
    {
        self.count
    }

    /// Whether the index is empty.
    pub fn is_empty(&self) -> (r: bool)
        ensures
            r == (self.count_spec() == 0),
    {
        self.count == 0
    }

    /// The dimension in bits.
    pub fn dimensions(&self) -> (r: usize)
        ensures
            r == self.dim(),
    {
        self.dimensions
    }

    /// Bytes per stored vector.
    pub fn bytes_per_vector(&self) -> (r: usize)
        ensures
            r == self.bpv(),
    {
        self.bytes_per_vector
    }

    /// Approximate memory use: the struct itself plus the arena's
    /// allocation.
    pub fn memory_usage(&self) -> (r: usize)
        ensures
            r >= self.data_bytes().len(),
            r > 0,
    {
        let cap = vec_capacity(&self.vectors);
        if cap > usize::MAX - 32 {
            usize::MAX
        } else {
            32 + cap
        }
    }

    /// Length of the internal byte arena.
    pub fn vectors_len(&self) -> (r: usize)
        ensures
            r == self.data_bytes().len(),
    {
        self.vectors.len()
    }

    /// Estimated serialized size: an 8-byte header plus the arena.
    pub fn serialized_size(&self) -> (r: usize)
        ensures
            self.data_bytes().len() + 8 <= usize::MAX ==> r == 8 + self.data_bytes().len(),
    {
        let n = self.vectors.len();
        if n > usize::MAX - 8 {
            usize::MAX
        } else {
            8 + n
        }
    }

    /// Removes all vectors.
    pub fn clear(&mut self)
        requires
            old(self).wf(),
        ensures
            final(self).wf(),
            final(self).count_spec() == 0,
            final(self).dim() == old(self).dim(),
    {
        self.vectors.clear();
        self.count = 0;
    }

    /// Releases spare capacity of the arena.
    pub fn shrink_to_fit(&mut self)
        requires
            old(self).wf(),
        ensures
            final(self).wf(),
            final(self).data_bytes() == old(self).data_bytes(),
            final(self).count_spec() == old(self).count_spec(),
            final(self).dim() == old(self).dim(),
    {
        crate::storage::binary::vec_shrink_to_fit(&mut self.vectors);
    }
}

} // verus!

verus! {

/// Strict order on search hits: nearer first, ties by ascending id.
pub open spec fn result_lt(a: FlatSearchResult, b: FlatSearchResult) -> bool {
    a.distance < b.distance || (a.distance == b.distance && a.id.0 < b.id.0)
}

/// Whether a 1-based id appears among the hits.
pub open spec fn result_has_id(r: Seq<FlatSearchResult>, id: int) -> bool {
    exists|t: int| 0 <= t < r.len() && (#[trigger] r[t]).id.0 == id
}

impl BinaryFlatIndex {
    /// Searches for the `k` nearest vectors to the query by Hamming
    /// distance: exactly `min(k, len)` hits, sorted nearer-first with
    /// ties broken by ascending id, and no vector left out that is
    /// nearer than a returned one. An empty index yields no hits, and
    /// a `k` beyond the count yields every vector.
    #[verifier::rlimit(60)]
    pub fn search(&self, query: &[u8], k: usize) -> (r: Vec<FlatSearchResult>)
        requires
            self.wf(),
            query@.len() == self.bpv(),
        ensures
            r@.len() == if k <= self.count_spec() {
                k as int
            } else {
                self.count_spec()
            },
            forall|t: int|
                0 <= t < r@.len() ==> {
                    &&& 1 <= (#[trigger] r@[t]).id.0 <= self.count_spec()
                    &&& r@[t].distance == self.dist_of(query@, r@[t].id.0 - 1)
                },
            forall|t1: int, t2: int| 0 <= t1 < t2 < r@.len() ==> result_lt(r@[t1], r@[t2]),
            forall|id: int|
                1 <= id <= self.count_spec() && k > 0 && !(#[trigger] result_has_id(r@, id)) ==> k
                    < self.count_spec() && r@.len() > 0 && (r@[r@.len() - 1].distance
                    < self.dist_of(query@, id - 1) || (r@[r@.len() - 1].distance == self.dist_of(
                    query@,
                    id - 1,
                ) && r@[r@.len() - 1].id.0 < id)),
    {
        let n = self.count;
        let ghost q = query@;
        let mut results: Vec<FlatSearchResult> = Vec::new();
        let mut i: usize = 0;
        while i < n
            invariant
                self.wf(),
                q == query@,
                q.len() == self.bpv(),
                n == self.count_spec(),
                0 <= i <= n,
                results@.len() == i,
                forall|t: int|
                    0 <= t < i ==> (#[trigger] results@[t]).id.0 == t + 1
                        && results@[t].distance == self.dist_of(q, t),
            decreases n - i,
        {
            proof {
                assert(0 <= (i as int) * self.bpv() && ((i as int) + 1) * self.bpv()
                    <= self.count_spec() * self.bpv() && (i as int) * self.bpv() + self.bpv() == ((
                i as int) + 1) * self.bpv()) by (nonlinear_arith)
                    requires
                        0 <= (i as int) && (i as int) < self.count_spec(),
                        self.bpv() >= 0,
                ;
                crate::metric::hamming::lemma_hamming_bounds(q, self.vector_at(i as int));
            }
            let dlen = self.vectors.len();
            let start = i * self.bytes_per_vector;
            let end = start + self.bytes_per_vector;
            let stored = vstd::slice::slice_subrange(self.vectors.as_slice(), start, end);
            let dist = Hamming::distance(query, stored);
            results.push(FlatSearchResult { id: VectorId((i + 1) as u64), distance: dist });
            i = i + 1;
        }
        proof {
            assert forall|id: int| 1 <= id <= n implies #[trigger] result_has_id(
                results@,
                id,
            ) by {
                assert(results@[id - 1].id.0 == id);
            }
        }
        // insertion sort, nearer first, ties by ascending id
        let mut i: usize = 1;
        while i < n
            invariant
                self.wf(),
                q.len() == self.bpv(),
                n == self.count_spec(),
                1 <= i <= n || (n == 0 && i == 1),
                results@.len() == n,
                forall|t: int|
                    0 <= t < n ==> 1 <= (#[trigger] results@[t]).id.0 <= n
                        && results@[t].distance == self.dist_of(q, results@[t].id.0 - 1),
                forall|t1: int, t2: int|
                    0 <= t1 < t2 < n ==> results@[t1].id.0 != results@[t2].id.0,
                forall|id: int| 1 <= id <= n ==> #[trigger] result_has_id(results@, id),
                forall|t1: int, t2: int|
                    0 <= t1 < t2 < i && t2 < n ==> result_le(results@[t1], results@[t2]),
            decreases n - i,
        {
            let mut j: usize = i;
            while j > 0 && (results[j - 1].distance > results[j].distance || (results[j
                - 1].distance == results[j].distance && results[j - 1].id.0 > results[j].id.0))
                invariant
                    self.wf(),
                    q.len() == self.bpv(),
                    n == self.count_spec(),
                    1 <= i < n,
                    0 <= j <= i,
                    results@.len() == n,
                    forall|t: int|
                        0 <= t < n ==> 1 <= (#[trigger] results@[t]).id.0 <= n
                            && results@[t].distance == self.dist_of(q, results@[t].id.0 - 1),
                    forall|t1: int, t2: int|
                        0 <= t1 < t2 < n ==> results@[t1].id.0 != results@[t2].id.0,
                    forall|id: int| 1 <= id <= n ==> #[trigger] result_has_id(results@, id),
                    forall|t1: int, t2: int|
                        0 <= t1 < t2 <= i && t2 < n && t2 != j ==> result_le(
                            results@[t1],
                            results@[t2],
                        ),
                decreases j,
            {
                let ghost before = results@;
                let a = results[j - 1];
                let b = results[j];
                results[j - 1] = b;
                results[j] = a;
                proof {
                    assert forall|id: int| 1 <= id <= n implies #[trigger] result_has_id(
                        results@,
                        id,
                    ) by {
                        assert(result_has_id(before, id));
                        let w = choose|w: int| 0 <= w < before.len() && before[w].id.0 == id;
                        if w == j - 1 {
                            assert(results@[j as int].id.0 == id);
                        } else if w == j {
                            assert(results@[j - 1].id.0 == id);
                        } else {
                            assert(results@[w].id.0 == id);
                        }
                    }
                }
                j = j - 1;
            }
            proof {
                assert forall|t1: int, t2: int|
                    0 <= t1 < t2 < i + 1 && t2 < n implies result_le(
                    results@[t1],
                    results@[t2],
                ) by {
                    if t2 == j as int && j > 0 {
                        if t1 < j - 1 {
                            assert(result_le(results@[t1], results@[j - 1]));
                        }
                        assert(result_le(results@[j - 1], results@[j as int]));
                    }
                }
            }
            i = i + 1;
        }
        proof {
            // non-strict order plus distinct ids gives strict order
            assert forall|t1: int, t2: int|
                0 <= t1 < t2 < n implies result_lt(results@[t1], results@[t2]) by {
                assert(result_le(results@[t1], results@[t2]));
            }
        }
        let ghost full = results@;
        if k < n {
            results.truncate(k);
        }
        proof {
            assert forall|id: int|
                1 <= id <= n && k > 0 && !(#[trigger] result_has_id(results@, id)) implies k < n
                    && results@.len() > 0 && (results@[results@.len() - 1].distance < self.dist_of(
                    q,
                    id - 1,
                ) || (results@[results@.len() - 1].distance == self.dist_of(q, id - 1) && results@[
                results@.len() - 1].id.0 < id)) by {
                assert(result_has_id(full, id));
                let w = choose|w: int| 0 <= w < full.len() && full[w].id.0 == id;
                if k < n {
                    assert(results@ == full.subrange(0, k as int));
                    if w < k {
                        assert(results@[w].id.0 == id);
                        assert(result_has_id(results@, id));
                    }
                    assert(w >= k);
                    assert(results@[k - 1] == full[k - 1]);
                    assert(result_lt(full[k - 1], full[w]));
                    assert(full[w].distance == self.dist_of(q, id - 1));
                } else {
                    assert(results@ == full);
                    assert(results@[w].id.0 == id);
                    assert(result_has_id(results@, id));
                }
            }
        }
        results
    }
}

} // verus!
