//! Storage for binary quantized vectors: a contiguous byte arena of
//! fixed-size records plus a tombstone bitset. Deletion is soft: it
//! sets the tombstone bit and leaves the bytes in place.

use vstd::prelude::*;
use crate::quantization::variable::{valid_dimension, BinaryVector};
use crate::storage::tombstone;
use crate::storage::tombstone::{bitvec_bits, count_trues};

verus! {

/// Errors of binary storage operations.
#[derive(Clone, Debug, PartialEq, Eq, Structural)]
pub enum BinaryStorageError {
    /// Dimension must be positive, divisible by 8, and fit in 32 bits.
    InvalidDimension {
        /// The dimension provided.
        dimension: usize,
    },
    /// Vector dimension does not match the storage dimension.
    DimensionMismatch {
        /// Dimension the storage holds.
        expected: usize,
        /// Dimension provided.
        actual: usize,
    },
    /// Vector id not found.
    NotFound {
        /// The id that was not found.
        id: u64,
    },
    /// Vector already deleted.
    AlreadyDeleted {
        /// The id that was already deleted.
        id: u64,
    },
}

impl BinaryStorageError {
    /// The error as text.
    ///
    /// Relies on std's string formatting to render the fields.
    #[verifier::external_body]
    pub fn message(&self) -> String {
        match self {
            Self::InvalidDimension { dimension } => format!(
                "dimension must be divisible by 8, got {dimension}. \
                 Try using a dimension like 128, 384, 768, 1024, or 1536."
            ),
            Self::DimensionMismatch { expected, actual } => format!(
                "dimension mismatch: expected {expected}, got {actual}"
            ),
            Self::NotFound { id } => format!("vector with id {id} not found"),
            Self::AlreadyDeleted { id } => format!("vector with id {id} is already deleted"),
        }
    }
}

/// What marking a vector deleted does to the tombstone bits: a valid,
/// not yet deleted id has its bit set and the call reports true; any
/// other id leaves the bits unchanged and the call reports false.
pub open spec fn spec_mark_deleted(bits: Seq<bool>, id: int) -> (Seq<bool>, bool) {
    if 0 <= id < bits.len() && !bits[id] {
        (bits.update(id, true), true)
    } else {
        (bits, false)
    }
}

/// Marking a vector deleted is idempotent: after one marking, marking
/// the same id again reports false and leaves the tombstone bits
/// unchanged.
pub proof fn lemma_mark_deleted_idempotent(bits: Seq<bool>, id: int)
    ensures
        spec_mark_deleted(spec_mark_deleted(bits, id).0, id) == (
            spec_mark_deleted(bits, id).0,
            false,
        ),
{
}

/// Storage for binary quantized vectors of one dimension. Records are
/// `dimension / 8` bytes, stored back to back; ids count from zero in
/// insertion order and are never reused.
pub struct BinaryVectorStorage {
    data: Vec<u8>,
    dimension: usize,
    bytes_per_vector: usize,
    deleted: tombstone::Tombstones,
    count: usize,
    next_id: u64,
}

impl BinaryVectorStorage {
    /// The dimension of stored vectors, in bits.
    pub closed spec fn dim(&self) -> int {
        self.dimension as int
    }

    /// Bytes per stored vector.
    pub closed spec fn bpv(&self) -> int {
        self.bytes_per_vector as int
    }

    /// Number of vectors stored, deleted ones included.
    pub closed spec fn count_spec(&self) -> int {
        self.count as int
    }

    /// The whole arena.
    pub closed spec fn data_bytes(&self) -> Seq<u8> {
        self.data@
    }

    /// The tombstone bits, one per stored vector.
    pub closed spec fn deleted_bits(&self) -> Seq<bool> {
        bitvec_bits(self.deleted)
    }

    /// The bytes of the vector with id `i`.
    pub open spec fn vector_at(&self, i: int) -> Seq<u8> {
        self.data_bytes().subrange(i * self.bpv(), (i + 1) * self.bpv())
    }

    /// Every constructed storage satisfies this: an accepted
    /// dimension, one record of `dimension / 8` bytes and one
    /// tombstone bit per vector, and ids issued densely from zero.
    pub closed spec fn wf(&self) -> bool {
        &&& valid_dimension(self.dim())
        &&& self.bpv() * 8 == self.dim()
        &&& self.data@.len() == self.count_spec() * self.bpv()
        &&& self.deleted_bits().len() == self.count_spec()
        &&& self.next_id == self.count
    }

    /// What well-formedness gives of the dimension: it is positive,
    /// divisible by 8, and fits in 32 bits.
    pub proof fn lemma_wf_dim(&self)
        requires
            self.wf(),
        ensures
            valid_dimension(self.dim()),
    {
    }

    /// What well-formedness gives of the sizes: one tombstone bit and
    /// one record of `dimension / 8` bytes per vector.
    pub proof fn lemma_wf_sizes(&self)
        requires
            self.wf(),
        ensures
            self.deleted_bits().len() == self.count_spec(),
            self.data_bytes().len() == self.count_spec() * self.bpv(),
            self.bpv() * 8 == self.dim(),
    {
    }

    /// Creates a storage for vectors of the given dimension.
    pub fn new(dimension: usize) -> (r: Result<Self, BinaryStorageError>)
        ensures
            match r {
                Result::Ok(s) => {
                    &&& valid_dimension(dimension as int)
                    &&& s.wf()
                    &&& s.dim() == dimension
                    &&& s.count_spec() == 0
                    &&& s.deleted_bits() == Seq::<bool>::empty()
                },
                Result::Err(e) => {
                    &&& !valid_dimension(dimension as int)
                    &&& e == (BinaryStorageError::InvalidDimension { dimension })
                },
            },
    {
        if dimension == 0 || dimension % 8 != 0 || dimension > u32::MAX as usize {
            return Err(BinaryStorageError::InvalidDimension { dimension });
        }
        let bytes_per_vector = dimension / 8;
        proof {
            assert((dimension / 8) * 8 == dimension) by (nonlinear_arith)
                requires
                    dimension % 8 == 0,
                    dimension >= 0,
            ;
        }
        Ok(
            BinaryVectorStorage {
                data: Vec::new(),
                dimension,
                bytes_per_vector,
                deleted: tombstone::bits_new(),
                count: 0,
                next_id: 0,
            },
        )
    }

    /// The dimension of stored vectors, in bits.
    pub fn dimension(&self) -> (r: usize)
        ensures
            r == self.dim(),
    {
        self.dimension
    }

    /// Bytes per stored vector.
    pub fn bytes_per_vector(&self) -> (r: usize)
        ensures
            r == self.bpv(),
    {
        self.bytes_per_vector
    }

    /// Number of vectors stored, deleted ones included.
    pub fn len(&self) -> (r: usize)
        ensures
            r == self.count_spec(),
    {
        self.count
    }

    /// Whether the storage is empty.
    pub fn is_empty(&self) -> (r: bool)
        ensures
            r == (self.count_spec() == 0),
    {
        self.count == 0
    }

    /// A copy of the whole arena, deleted records included, for
    /// serialization.
    pub fn arena_bytes(&self) -> (r: Vec<u8>)
        ensures
            r@ == self.data_bytes(),
    {
        vstd::slice::slice_to_vec(self.data.as_slice())
    }

    /// Bytes of vector data held.
    pub fn memory_bytes(&self) -> (r: usize)
        ensures
            r == self.data_bytes().len(),
    {
        self.data.len()
    }

    /// Appends a vector and returns its id: ids count from zero in
    /// insertion order. The bound on the current count is a machine
    /// limit of the tombstone bitset.
    pub fn insert(&mut self, vector: &BinaryVector) -> (r: Result<u64, BinaryStorageError>)
        requires
            old(self).wf(),
            vector.wf(),
            old(self).count_spec() < usize::MAX / 8,
        ensures
            final(self).wf(),
            final(self).dim() == old(self).dim(),
            match r {
                Result::Ok(id) => {
                    &&& vector.dim() == old(self).dim()
                    &&& id == old(self).count_spec()
                    &&& final(self).count_spec() == old(self).count_spec() + 1
                    &&& final(self).vector_at(id as int) == vector.data_bytes()
                    &&& final(self).data_bytes() == old(self).data_bytes() + vector.data_bytes()
                    &&& final(self).deleted_bits() == old(self).deleted_bits().push(false)
                },
                Result::Err(e) => {
                    &&& vector.dim() != old(self).dim()
                    &&& e == (BinaryStorageError::DimensionMismatch {
                        expected: old(self).dim() as usize,
                        actual: vector.dim() as usize,
                    })
                    &&& *final(self) == *old(self)
                },
            },
    {
        if vector.dimension() != self.dimension {
            return Err(BinaryStorageError::DimensionMismatch {
                expected: self.dimension,
                actual: vector.dimension(),
            });
        }
        proof {
            vector.lemma_wf();
            let vl = vector.data_bytes().len() as int;
            let vd = vector.dim();
            let b = self.bpv();
            let d = self.dim();
            assert(vl == b) by (nonlinear_arith)
                requires
                    vl * 8 == vd,
                    b * 8 == d,
                    vd == d,
            ;
        }
        self.insert_bytes(vector.data())
    }

    /// Appends raw record bytes and returns the new id.
    pub fn insert_raw(&mut self, data: &[u8]) -> (r: Result<u64, BinaryStorageError>)
        requires
            old(self).wf(),
            old(self).count_spec() < usize::MAX / 8,
        ensures
            final(self).wf(),
            final(self).dim() == old(self).dim(),
            match r {
                Result::Ok(id) => {
                    &&& data@.len() == old(self).bpv()
                    &&& id == old(self).count_spec()
                    &&& final(self).count_spec() == old(self).count_spec() + 1
                    &&& final(self).vector_at(id as int) == data@
                    &&& final(self).data_bytes() == old(self).data_bytes() + data@
                    &&& final(self).deleted_bits() == old(self).deleted_bits().push(false)
                },
                Result::Err(e) => {
                    &&& data@.len() != old(self).bpv()
                    &&& e == (BinaryStorageError::DimensionMismatch {
                        expected: old(self).dim() as usize,
                        actual: if data@.len() <= usize::MAX / 8 {
                            (data@.len() * 8) as usize
                        } else {
                            usize::MAX
                        },
                    })
                    &&& *final(self) == *old(self)
                },
            },
    {
        if data.len() != self.bytes_per_vector {
            if data.len() <= usize::MAX / 8 {
                proof {
                    let dl = data@.len() as int;
                    assert(dl * 8 <= (usize::MAX / 8) * 8 && (usize::MAX / 8) * 8 <= usize::MAX)
                        by (nonlinear_arith)
                        requires
                            dl <= usize::MAX / 8,
                            dl >= 0,
                    ;
                }
                return Err(BinaryStorageError::DimensionMismatch {
                    expected: self.dimension,
                    actual: data.len() * 8,
                });
            } else {
                return Err(BinaryStorageError::DimensionMismatch {
                    expected: self.dimension,
                    actual: usize::MAX,
                });
            }
        }
        self.insert_bytes(data)
    }

    /// Appends one record's bytes.
    fn insert_bytes(&mut self, data: &[u8]) -> (r: Result<u64, BinaryStorageError>)
        requires
            old(self).wf(),
            old(self).count_spec() < usize::MAX / 8,
            data@.len() == old(self).bpv(),
        ensures
            final(self).wf(),
            final(self).dim() == old(self).dim(),
            match r {
                Result::Ok(id) => {
                    &&& id == old(self).count_spec()
                    &&& final(self).count_spec() == old(self).count_spec() + 1
                    &&& final(self).vector_at(id as int) == data@
                    &&& final(self).data_bytes() == old(self).data_bytes() + data@
                    &&& final(self).deleted_bits() == old(self).deleted_bits().push(false)
                },
                Result::Err(e) => false,
            },
    {
        let ghost oldcount = self.count as int;
        let id = self.next_id;
        proof {
            assert(oldcount * self.bpv() + self.bpv() == (oldcount + 1) * self.bpv())
                by (nonlinear_arith);
            assert(oldcount * self.bpv() >= 0) by (nonlinear_arith)
                requires
                    oldcount >= 0,
                    self.bpv() >= 0,
            ;
        }
        let mut k: usize = 0;
        let n = data.len();
        while k < n
            invariant
                0 <= k <= n,
                n == data@.len(),
                self.data@ == old(self).data@ + data@.subrange(0, k as int),
                *self == (BinaryVectorStorage { data: self.data, ..*old(self) }),
            decreases n - k,
        {
            self.data.push(data[k]);
            proof {
                assert(self.data@ =~= old(self).data@ + data@.subrange(0, k + 1));
            }
            k = k + 1;
        }
        proof {
            assert(data@.subrange(0, data@.len() as int) =~= data@);
        }
        tombstone::bits_push(&mut self.deleted, false);
        self.count = self.count + 1;
        self.next_id = self.next_id + 1;
        proof {
            assert(self.data@.len() == (oldcount + 1) * self.bpv()) by (nonlinear_arith)
                requires
                    self.data@.len() == oldcount * self.bpv() + self.bpv(),
            ;
            assert(self.vector_at(oldcount) =~= data@) by {
                assert(oldcount * self.bpv() + self.bpv() == (oldcount + 1) * self.bpv())
                    by (nonlinear_arith);
            }
        }
        Ok(id)
    }

    /// The vector with id `id`, or `None` when the id is out of bounds
    /// or the vector is deleted.
    pub fn get(&self, id: u64) -> (r: Option<BinaryVector>)
        requires
            self.wf(),
        ensures
            match r {
                Option::Some(bv) => {
                    &&& id < self.count_spec()
                    &&& !self.deleted_bits()[id as int]
                    &&& bv.wf()
                    &&& bv.dim() == self.dim()
                    &&& bv.data_bytes() == self.vector_at(id as int)
                },
                Option::None => id >= self.count_spec() || self.deleted_bits()[id as int],
            },
    {
        match self.get_raw(id) {
            Option::None => None,
            Option::Some(slice) => {
                let copied = vstd::slice::slice_to_vec(slice);
                proof {
                    assert(copied@.len() * 8 == self.dim()) by (nonlinear_arith)
                        requires
                            copied@.len() == self.bpv(),
                            self.bpv() * 8 == self.dim(),
                    ;
                }
                match BinaryVector::from_bytes(copied, self.dimension) {
                    Result::Ok(bv) => Some(bv),
                    Result::Err(e) => {
                        proof {
                            assert(false);
                        }
                        None
                    },
                }
            },
        }
    }

    /// A borrowed view of the record bytes of `id`, or `None` when the
    /// id is out of bounds or the vector is deleted.
    pub fn get_raw(&self, id: u64) -> (r: Option<&[u8]>)
        requires
            self.wf(),
        ensures
            match r {
                Option::Some(s) => {
                    &&& id < self.count_spec()
                    &&& !self.deleted_bits()[id as int]
                    &&& s@ == self.vector_at(id as int)
                    &&& s@.len() == self.bpv()
                },
                Option::None => id >= self.count_spec() || self.deleted_bits()[id as int],
            },
    {
        if id >= self.count as u64 {
            return None;
        }
        let idx = id as usize;
        if tombstone::bits_get(&self.deleted, idx) {
            return None;
        }
        proof {
            assert(0 <= idx as int * self.bpv() && (idx as int + 1) * self.bpv() <= self.count_spec()
                * self.bpv() && idx as int * self.bpv() + self.bpv() == (idx as int + 1)
                * self.bpv()) by (nonlinear_arith)
                requires
                    0 <= (idx as int) && (idx as int) < self.count_spec(),
                    self.bpv() >= 0,
            ;
        }
        let dlen = self.data.len();
        proof {
            assert((idx as int + 1) * self.bpv() <= self.count_spec() * self.bpv())
                by (nonlinear_arith)
                requires
                    (idx as int) < self.count_spec(),
                    self.bpv() >= 0,
            ;
        }
        let start = idx * self.bytes_per_vector;
        let end = start + self.bytes_per_vector;
        Some(vstd::slice::slice_subrange(self.data.as_slice(), start, end))
    }

    /// Marks a vector deleted, failing on an unknown or already
    /// deleted id.
    pub fn delete(&mut self, id: u64) -> (r: Result<(), BinaryStorageError>)
        requires
            old(self).wf(),
        ensures
            final(self).wf(),
            match r {
                Result::Ok(()) => {
                    &&& id < old(self).count_spec()
                    &&& !old(self).deleted_bits()[id as int]
                    &&& final(self).deleted_bits() == old(self).deleted_bits().update(id as int, true)
                    &&& final(self).data_bytes() == old(self).data_bytes()
                    &&& final(self).count_spec() == old(self).count_spec()
                    &&& final(self).dim() == old(self).dim()
                },
                Result::Err(e) => {
                    &&& *final(self) == *old(self)
                    &&& if id >= old(self).count_spec() {
                        e == (BinaryStorageError::NotFound { id })
                    } else {
                        old(self).deleted_bits()[id as int] && e == (
                        BinaryStorageError::AlreadyDeleted { id })
                    }
                },
            },
    {
        if id >= self.count as u64 {
            return Err(BinaryStorageError::NotFound { id });
        }
        let idx = id as usize;
        if tombstone::bits_get(&self.deleted, idx) {
            return Err(BinaryStorageError::AlreadyDeleted { id });
        }
        tombstone::bits_set(&mut self.deleted, idx, true);
        Ok(())
    }

    /// Marks a vector deleted: reports true on the first marking of a
    /// valid id, false for an unknown or already deleted id, which
    /// leaves the storage unchanged.
    pub fn mark_deleted(&mut self, id: u64) -> (r: bool)
        requires
            old(self).wf(),
        ensures
            final(self).wf(),
            (final(self).deleted_bits(), r) == spec_mark_deleted(old(self).deleted_bits(), id as int),
            final(self).data_bytes() == old(self).data_bytes(),
            final(self).count_spec() == old(self).count_spec(),
            final(self).dim() == old(self).dim(),
            !r ==> *final(self) == *old(self),
    {
        if id >= self.count as u64 {
            return false;
        }
        let idx = id as usize;
        if tombstone::bits_get(&self.deleted, idx) {
            return false;
        }
        tombstone::bits_set(&mut self.deleted, idx, true);
        true
    }

    /// Whether `id` is deleted; false for an out-of-bounds id.
    pub fn is_deleted(&self, id: u64) -> (r: bool)
        requires
            self.wf(),
        ensures
            r == (id < self.count_spec() && self.deleted_bits()[id as int]),
    {
        if id >= self.count as u64 {
            return false;
        }
        tombstone::bits_get(&self.deleted, id as usize)
    }

    /// Number of deleted vectors.
    pub fn deleted_count(&self) -> (r: usize)
        requires
            self.wf(),
        ensures
            r == count_trues(self.deleted_bits()),
    {
        tombstone::bits_count_ones(&self.deleted)
    }

    /// Number of live (not deleted) vectors.
    pub fn live_count(&self) -> (r: usize)
        requires
            self.wf(),
        ensures
            r == self.count_spec() - count_trues(self.deleted_bits()),
    {
        proof {
            tombstone::lemma_count_trues_bounds(self.deleted_bits());
        }
        self.count - tombstone::bits_count_ones(&self.deleted)
    }

    /// Releases spare capacity of the arena and the bitset.
    pub fn shrink_to_fit(&mut self)
        requires
            old(self).wf(),
        ensures
            final(self).wf(),
            final(self).data_bytes() == old(self).data_bytes(),
            final(self).deleted_bits() == old(self).deleted_bits(),
            final(self).count_spec() == old(self).count_spec(),
            final(self).dim() == old(self).dim(),
    {
        vec_shrink_to_fit(&mut self.data);
        tombstone::bits_shrink_to_fit(&mut self.deleted);
    }

    /// Reserves room for `additional` more vectors. The bound is a
    /// machine limit of the bitset.
    pub fn reserve(&mut self, additional: usize)
        requires
            old(self).wf(),
            old(self).count_spec() + additional < usize::MAX / 8,
            old(self).count_spec() + additional <= usize::MAX && (old(self).count_spec()
                + additional) * old(self).bpv() <= usize::MAX,
        ensures
            final(self).wf(),
            final(self).data_bytes() == old(self).data_bytes(),
            final(self).deleted_bits() == old(self).deleted_bits(),
            final(self).count_spec() == old(self).count_spec(),
            final(self).dim() == old(self).dim(),
    {
        proof {
            let c = self.count_spec();
            let b = self.bpv();
            assert(additional * b <= usize::MAX) by (nonlinear_arith)
                requires
                    (c + additional) * b <= usize::MAX,
                    c >= 0,
                    additional >= 0,
                    b >= 0,
            ;
        }
        self.data.reserve(additional * self.bytes_per_vector);
        tombstone::bits_reserve(&mut self.deleted, additional);
    }

    /// Number of vectors the arena can hold before reallocating.
    pub fn capacity(&self) -> (r: usize)
        requires
            self.wf(),
        ensures
            r >= self.count_spec(),
    {
        let cap = vec_capacity(&self.data);
        proof {
            assert(cap as int / self.bpv() >= self.count_spec()) by (nonlinear_arith)
                requires
                    cap >= self.count_spec() * self.bpv(),
                    self.bpv() >= 1,
                    self.count_spec() >= 0,
            ;
        }
        cap / self.bytes_per_vector
    }

    /// Ids and record bytes of the live vectors, in id order.
    pub fn iter_live(&self) -> (r: Vec<(u64, Vec<u8>)>)
        requires
            self.wf(),
        ensures
            r@.len() <= self.count_spec(),
            forall|k: int|
                0 <= k < r@.len() ==> {
                    &&& 0 <= (#[trigger] r@[k]).0 < self.count_spec()
                    &&& !self.deleted_bits()[r@[k].0 as int]
                    &&& r@[k].1@ == self.vector_at(r@[k].0 as int)
                },
            forall|k1: int, k2: int| 0 <= k1 < k2 < r@.len() ==> r@[k1].0 < r@[k2].0,
            forall|i: int|
                0 <= i < self.count_spec() && !(#[trigger] self.deleted_bits()[i]) ==> exists|
                    k: int,
                |
                    0 <= k < r@.len() && r@[k].0 == i,
    {
        let mut out: Vec<(u64, Vec<u8>)> = Vec::new();
        let mut i: usize = 0;
        while i < self.count
            invariant
                self.wf(),
                0 <= i <= self.count_spec(),
                out@.len() <= i,
                forall|k: int|
                    0 <= k < out@.len() ==> {
                        &&& 0 <= (#[trigger] out@[k]).0 < i
                        &&& !self.deleted_bits()[out@[k].0 as int]
                        &&& out@[k].1@ == self.vector_at(out@[k].0 as int)
                    },
                forall|k1: int, k2: int| 0 <= k1 < k2 < out@.len() ==> out@[k1].0 < out@[k2].0,
                forall|t: int|
                    0 <= t < i && !(#[trigger] self.deleted_bits()[t]) ==> exists|k: int|
                        0 <= k < out@.len() && out@[k].0 == t,
            decreases self.count_spec() - i,
        {
            if !tombstone::bits_get(&self.deleted, i) {
                proof {
                    assert(0 <= i as int * self.bpv() && (i as int + 1) * self.bpv()
                        <= self.count_spec() * self.bpv() && i as int * self.bpv() + self.bpv() == (
                    i as int + 1) * self.bpv()) by (nonlinear_arith)
                        requires
                            0 <= (i as int) && (i as int) < self.count_spec(),
                            self.bpv() >= 0,
                    ;
                }
                let dlen = self.data.len();
                proof {
                    assert((i as int + 1) * self.bpv() <= self.count_spec() * self.bpv())
                        by (nonlinear_arith)
                        requires
                            (i as int) < self.count_spec(),
                            self.bpv() >= 0,
                    ;
                }
                let start = i * self.bytes_per_vector;
                let end = start + self.bytes_per_vector;
                let bytes = vstd::slice::slice_to_vec(
                    vstd::slice::slice_subrange(self.data.as_slice(), start, end),
                );
                let ghost oldout = out@;
                out.push((i as u64, bytes));
                proof {
                    assert forall|t: int|
                        0 <= t < i + 1 && !(#[trigger] self.deleted_bits()[t]) implies exists|
                        k: int,
                    |
                        0 <= k < out@.len() && out@[k].0 == t by {
                        if t == i as int {
                            assert(out@[out@.len() - 1].0 == t);
                        } else {
                            let k = choose|k: int| 0 <= k < oldout.len() && oldout[k].0 == t;
                            assert(out@[k].0 == t);
                        }
                    }
                }
            }
            i = i + 1;
        }
        out
    }

    /// Id, record bytes, and deletion flag of every vector, in id
    /// order.
    pub fn iter_all(&self) -> (r: Vec<(u64, Vec<u8>, bool)>)
        requires
            self.wf(),
        ensures
            r@.len() == self.count_spec(),
            forall|k: int|
                0 <= k < r@.len() ==> {
                    &&& (#[trigger] r@[k]).0 == k
                    &&& r@[k].1@ == self.vector_at(k)
                    &&& r@[k].2 == self.deleted_bits()[k]
                },
    {
        let mut out: Vec<(u64, Vec<u8>, bool)> = Vec::new();
        let mut i: usize = 0;
        while i < self.count
            invariant
                self.wf(),
                0 <= i <= self.count_spec(),
                out@.len() == i,
                forall|k: int|
                    0 <= k < out@.len() ==> {
                        &&& (#[trigger] out@[k]).0 == k
                        &&& out@[k].1@ == self.vector_at(k)
                        &&& out@[k].2 == self.deleted_bits()[k]
                    },
            decreases self.count_spec() - i,
        {
            proof {
                assert(0 <= i as int * self.bpv() && (i as int + 1) * self.bpv()
                    <= self.count_spec() * self.bpv() && i as int * self.bpv() + self.bpv() == (
                i as int + 1) * self.bpv()) by (nonlinear_arith)
                    requires
                        0 <= (i as int) && (i as int) < self.count_spec(),
                        self.bpv() >= 0,
                ;
            }
            let dlen = self.data.len();
            proof {
                assert((i as int + 1) * self.bpv() <= self.count_spec() * self.bpv())
                    by (nonlinear_arith)
                    requires
                        (i as int) < self.count_spec(),
                        self.bpv() >= 0,
                ;
            }
            let start = i * self.bytes_per_vector;
            let end = start + self.bytes_per_vector;
            let bytes = vstd::slice::slice_to_vec(
                vstd::slice::slice_subrange(self.data.as_slice(), start, end),
            );
            let flag = tombstone::bits_get(&self.deleted, i);
            out.push((i as u64, bytes, flag));
            i = i + 1;
        }
        out
    }
}

/// Relies on std's `Vec::capacity`: the number of elements the vector
/// can hold without reallocating, never below its length.
#[verifier::external_body]
pub(crate) fn vec_capacity(v: &Vec<u8>) -> (r: usize)
    ensures
        r >= v@.len(),
{
    v.capacity()
}

/// Relies on std's `Vec::shrink_to_fit`: releases spare capacity and
/// keeps the elements.
#[verifier::external_body]
pub(crate) fn vec_shrink_to_fit(v: &mut Vec<u8>)
    ensures
        final(v)@ == old(v)@,
{
    v.shrink_to_fit()
}

} // verus!
