//! The tombstone bitset: one bit per stored vector, set when the
//! vector is logically deleted. The bits live in a bit vector of an
//! outside crate, held in an opaque wrapper; the trusted items below
//! say what each operation does to the bits it holds.

use vstd::prelude::*;

verus! {

/// The tombstone bitset, wrapping the outside crate's packed bit
/// vector. The wrapper is opaque to the verifier; its contents are
/// named by `bitvec_bits`.
#[verifier::external_body]
pub struct Tombstones {
    bits: bitvec::vec::BitVec<u8, bitvec::order::Lsb0>,
}

/// The bits that a tombstone bitset holds, in index order.
pub uninterp spec fn bitvec_bits(bv: Tombstones) -> Seq<bool>;

/// Number of set bits in a bit sequence.
pub open spec fn count_trues(s: Seq<bool>) -> int
    decreases s.len(),
{
    if s.len() == 0 {
        0
    } else {
        count_trues(s.drop_last()) + if s.last() {
            1int
        } else {
            0int
        }
    }
}

/// The number of set bits lies between 0 and the length.
pub proof fn lemma_count_trues_bounds(s: Seq<bool>)
    ensures
        0 <= count_trues(s) <= s.len(),
    decreases s.len(),
{
    if s.len() > 0 {
        lemma_count_trues_bounds(s.drop_last());
    }
}

/// Relies on bitvec's `BitVec::new`: an empty bit vector.
#[verifier::external_body]
pub fn bits_new() -> (r: Tombstones)
    ensures
        bitvec_bits(r) == Seq::<bool>::empty(),
{
    Tombstones { bits: bitvec::vec::BitVec::new() }
}

/// Relies on bitvec's `BitVec::push`: appends one bit at the end. It
/// panics at the type's maximum length, which the bound here keeps
/// out of reach.
#[verifier::external_body]
pub fn bits_push(bv: &mut Tombstones, b: bool)
    requires
        bitvec_bits(*old(bv)).len() < usize::MAX / 8,
    ensures
        bitvec_bits(*final(bv)) == bitvec_bits(*old(bv)).push(b),
{
    bv.bits.push(b)
}

/// Relies on bitvec's `BitSlice::set` (reached through deref):
/// replaces the bit at `idx`. It panics out of bounds, which the
/// bound here rules out.
#[verifier::external_body]
pub fn bits_set(bv: &mut Tombstones, idx: usize, b: bool)
    requires
        idx < bitvec_bits(*old(bv)).len(),
    ensures
        bitvec_bits(*final(bv)) == bitvec_bits(*old(bv)).update(idx as int, b),
{
    bv.bits.set(idx, b)
}

/// Relies on bitvec's `Index` impl for `BitSlice` (reached through
/// deref): the bit at `idx`. It panics out of bounds, which the bound
/// here rules out.
#[verifier::external_body]
pub fn bits_get(bv: &Tombstones, idx: usize) -> (r: bool)
    requires
        idx < bitvec_bits(*bv).len(),
    ensures
        r == bitvec_bits(*bv)[idx as int],
{
    bv.bits[idx]
}

/// Relies on bitvec's `BitSlice::count_ones` (reached through deref):
/// the number of set bits.
#[verifier::external_body]
pub fn bits_count_ones(bv: &Tombstones) -> (r: usize)
    ensures
        r == count_trues(bitvec_bits(*bv)),
{
    bv.bits.count_ones()
}

/// Relies on bitvec's `BitVec::shrink_to_fit`: releases spare
/// capacity; the bits are unchanged.
#[verifier::external_body]
pub fn bits_shrink_to_fit(bv: &mut Tombstones)
    ensures
        bitvec_bits(*final(bv)) == bitvec_bits(*old(bv)),
{
    bv.bits.shrink_to_fit()
}

/// Relies on bitvec's `BitVec::reserve`: grows capacity; the bits are
/// unchanged. It panics past the type's maximum length, which the
/// bound here keeps out of reach.
#[verifier::external_body]
pub fn bits_reserve(bv: &mut Tombstones, additional: usize)
    requires
        bitvec_bits(*old(bv)).len() + additional < usize::MAX / 8,
    ensures
        bitvec_bits(*final(bv)) == bitvec_bits(*old(bv)),
{
    bv.bits.reserve(additional)
}

} // verus!
