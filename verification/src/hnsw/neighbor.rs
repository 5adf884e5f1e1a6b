//! The neighbor pool: one byte buffer holding every node's encoded
//! adjacency block, with power-of-two size-class free lists for O(1)
//! reuse of released blocks. No two live blocks ever overlap.

use vstd::prelude::*;
use crate::hnsw::graph::GraphError;
use crate::hnsw::vbyte;

verus! {

/// Number of size classes: 16, 32, ..., 32768, then 65535.
pub open spec fn class_count() -> int {
    13
}

/// Byte size of size class `i`: powers of two from 16 up to 32768, and
/// 65535 for the last class so that a capacity always fits in 16 bits.
pub open spec fn class_size(i: int) -> int {
    if i <= 0 {
        16
    } else if i == 1 {
        32
    } else if i == 2 {
        64
    } else if i == 3 {
        128
    } else if i == 4 {
        256
    } else if i == 5 {
        512
    } else if i == 6 {
        1024
    } else if i == 7 {
        2048
    } else if i == 8 {
        4096
    } else if i == 9 {
        8192
    } else if i == 10 {
        16384
    } else if i == 11 {
        32768
    } else {
        65535
    }
}

/// Whether `c` is the byte size of some size class.
pub open spec fn is_class_size(c: int) -> bool {
    exists|i: int| 0 <= i < class_count() && c == class_size(i)
}

/// Two byte ranges, given as (offset, length), do not overlap.
pub open spec fn ranges_disjoint(a: (u32, u16), b: (u32, u16)) -> bool {
    a.0 + a.1 <= b.0 || b.0 + b.1 <= a.0
}

/// Byte buffer plus size-class free lists. Blocks are handed out by
/// `alloc`, released by `free`, and written through `write_block`; at
/// any instant no two live blocks overlap.
pub struct NeighborPool {
    buffer: Vec<u8>,
    free_lists: Vec<Vec<u32>>,
    live: Ghost<Set<(u32, u16)>>,
}

impl NeighborPool {
    /// The blocks allocated and not yet freed, as (offset, capacity).
    pub closed spec fn live_ranges(&self) -> Set<(u32, u16)> {
        self.live@
    }

    /// The pool's byte buffer.
    pub closed spec fn buffer_bytes(&self) -> Seq<u8> {
        self.buffer@
    }

    spec fn free_entry(&self, i: int, j: int) -> (u32, u16) {
        (self.free_lists@[i]@[j], class_size(i) as u16)
    }

    spec fn free_index_ok(&self, i: int, j: int) -> bool {
        0 <= i < class_count() && 0 <= j < self.free_lists@[i]@.len()
    }

    /// Well-formedness: every free and live range lies inside the
    /// buffer, carries a class-sized capacity, and all these ranges are
    /// pairwise disjoint.
    pub closed spec fn wf(&self) -> bool {
        &&& self.free_lists@.len() == class_count()
        &&& self.buffer@.len() <= u32::MAX
        &&& forall|i: int, j: int|
            self.free_index_ok(i, j) ==> (#[trigger] self.free_entry(i, j)).0 + class_size(i)
                <= self.buffer@.len()
        &&& forall|i1: int, j1: int, i2: int, j2: int|
            #![trigger self.free_entry(i1, j1), self.free_entry(i2, j2)]
            self.free_index_ok(i1, j1) && self.free_index_ok(i2, j2) && !(i1 == i2 && j1 == j2)
                ==> ranges_disjoint(self.free_entry(i1, j1), self.free_entry(i2, j2))
        &&& forall|r: (u32, u16)|
            #[trigger] self.live@.contains(r) ==> r.0 + r.1 <= self.buffer@.len() && is_class_size(
                r.1 as int,
            )
        &&& forall|r1: (u32, u16), r2: (u32, u16)|
            #![trigger self.live@.contains(r1), self.live@.contains(r2)]
            self.live@.contains(r1) && self.live@.contains(r2) && r1 != r2 ==> ranges_disjoint(
                r1,
                r2,
            )
        &&& forall|i: int, j: int, r: (u32, u16)|
            #![trigger self.free_entry(i, j), self.live@.contains(r)]
            self.free_index_ok(i, j) && self.live@.contains(r) ==> ranges_disjoint(
                self.free_entry(i, j),
                r,
            )
    }

    /// What well-formedness gives of the buffer: its length fits in
    /// 32 bits, so offsets do.
    pub proof fn lemma_wf_bounds(&self)
        requires
            self.wf(),
        ensures
            self.buffer_bytes().len() <= u32::MAX,
    {
    }

    /// Creates an empty pool.
    pub fn new() -> (r: Self)
        ensures
            r.wf(),
            r.live_ranges() == Set::<(u32, u16)>::empty(),
            r.buffer_bytes() == Seq::<u8>::empty(),
    {
        let mut free_lists: Vec<Vec<u32>> = Vec::new();
        let mut i: usize = 0;
        while i < 13
            invariant
                0 <= i <= 13,
                free_lists@.len() == i,
                forall|k: int| 0 <= k < i ==> #[trigger] free_lists@[k]@.len() == 0,
            decreases 13 - i,
        {
            free_lists.push(Vec::new());
            i = i + 1;
        }
        let pool = NeighborPool { buffer: Vec::new(), free_lists, live: Ghost(Set::empty()) };
        proof {
            assert forall|i: int, j: int| pool.free_index_ok(i, j) implies (#[trigger] pool
                .free_entry(i, j)).0 + class_size(i) <= pool.buffer@.len() by {
                assert(pool.free_lists@[i]@.len() == 0);
            }
        }
        pool
    }

    /// Size class for a request of `bytes` bytes: the index and its
    /// capacity.
    fn class_for(bytes: usize) -> (r: (usize, u16))
        requires
            bytes <= 65535,
        ensures
            0 <= r.0 < class_count(),
            r.1 == class_size(r.0 as int),
            bytes <= r.1,
            r.1 == class_cap_for(bytes as int),
    {
        if bytes <= 16 {
            (0, 16)
        } else if bytes <= 32 {
            (1, 32)
        } else if bytes <= 64 {
            (2, 64)
        } else if bytes <= 128 {
            (3, 128)
        } else if bytes <= 256 {
            (4, 256)
        } else if bytes <= 512 {
            (5, 512)
        } else if bytes <= 1024 {
            (6, 1024)
        } else if bytes <= 2048 {
            (7, 2048)
        } else if bytes <= 4096 {
            (8, 4096)
        } else if bytes <= 8192 {
            (9, 8192)
        } else if bytes <= 16384 {
            (10, 16384)
        } else if bytes <= 32768 {
            (11, 32768)
        } else {
            (12, 65535)
        }
    }

    /// Size-class index of a capacity that came out of `alloc`.
    fn class_index_of_cap(cap: u16) -> (i: usize)
        requires
            is_class_size(cap as int),
        ensures
            0 <= i < class_count(),
            cap == class_size(i as int),
    {
        if cap == 16 {
            0
        } else if cap == 32 {
            1
        } else if cap == 64 {
            2
        } else if cap == 128 {
            3
        } else if cap == 256 {
            4
        } else if cap == 512 {
            5
        } else if cap == 1024 {
            6
        } else if cap == 2048 {
            7
        } else if cap == 4096 {
            8
        } else if cap == 8192 {
            9
        } else if cap == 16384 {
            10
        } else if cap == 32768 {
            11
        } else {
            proof {
                let i = choose|i: int| 0 <= i < class_count() && cap as int == class_size(i);
            }
            12
        }
    }
}

/// No two live ranges of a well-formed pool overlap: whatever sequence
/// of `alloc` and `free` produced the pool, two distinct blocks that
/// are both allocated and not freed occupy disjoint byte ranges.
pub proof fn lemma_live_ranges_disjoint(p: &NeighborPool, r1: (u32, u16), r2: (u32, u16))
    requires
        p.wf(),
        p.live_ranges().contains(r1),
        p.live_ranges().contains(r2),
        r1 != r2,
    ensures
        r1.0 + r1.1 <= r2.0 || r2.0 + r2.1 <= r1.0,
{
}

} // verus!

verus! {

/// Capacity that a request of `bytes` bytes is rounded up to.
pub open spec fn class_cap_for(bytes: int) -> int {
    if bytes <= 16 {
        16
    } else if bytes <= 32 {
        32
    } else if bytes <= 64 {
        64
    } else if bytes <= 128 {
        128
    } else if bytes <= 256 {
        256
    } else if bytes <= 512 {
        512
    } else if bytes <= 1024 {
        1024
    } else if bytes <= 2048 {
        2048
    } else if bytes <= 4096 {
        4096
    } else if bytes <= 8192 {
        8192
    } else if bytes <= 16384 {
        16384
    } else if bytes <= 32768 {
        32768
    } else {
        65535
    }
}

impl NeighborPool {
    /// Allocates a block of at least `bytes` bytes, rounding the size
    /// up to its class: a freed block of that class is reused, else the
    /// buffer grows. The returned block overlaps no live block.
    pub fn allocate(&mut self, bytes: usize) -> (r: Result<(u32, u16), GraphError>)
        requires
            old(self).wf(),
        ensures
            final(self).wf(),
            match r {
                Result::Ok(a) => {
                    &&& bytes <= a.1
                    &&& a.1 == class_cap_for(bytes as int)
                    &&& is_class_size(a.1 as int)
                    &&& a.0 + a.1 <= final(self).buffer_bytes().len()
                    &&& !old(self).live_ranges().contains(a)
                    &&& final(self).live_ranges() == old(self).live_ranges().insert(a)
                    &&& forall|r2: (u32, u16)|
                        old(self).live_ranges().contains(r2) ==> ranges_disjoint(a, r2)
                    &&& final(self).buffer_bytes().len() >= old(self).buffer_bytes().len()
                    &&& final(self).buffer_bytes().len() <= old(self).buffer_bytes().len()
                        + class_cap_for(bytes as int)
                    &&& final(self).buffer_bytes().subrange(0, old(self).buffer_bytes().len() as int)
                        == old(self).buffer_bytes()
                },
                Result::Err(e) => {
                    &&& *final(self) == *old(self)
                    &&& e == GraphError::CapacityExceeded
                    &&& bytes > 65535 || old(self).buffer_bytes().len() + class_cap_for(
                        bytes as int,
                    ) > u32::MAX
                },
            },
    {
        if bytes > 65535 {
            return Err(GraphError::CapacityExceeded);
        }
        let (idx, cap) = Self::class_for(bytes);
        let ghost old_self = *self;
        let has_free = self.free_lists[idx].len() > 0;
        if has_free {
            let off: u32;
            let lst: &mut Vec<u32> = &mut self.free_lists[idx];
            match lst.pop() {
                Option::Some(o) => {
                    off = o;
                },
                Option::None => {
                    proof {
                        assert(false);
                    }
                    off = 0;
                },
            }
            let ghost jlast = old_self.free_lists@[idx as int]@.len() - 1;
            let ghost a = (off, cap);
            proof {
                assert(old_self.free_index_ok(idx as int, jlast));
                assert(old_self.free_entry(idx as int, jlast) == a);
                assert(a.0 + class_size(idx as int) <= old_self.buffer@.len());
                assert(!old_self.live@.contains(a)) by {
                    if old_self.live@.contains(a) {
                        assert(ranges_disjoint(old_self.free_entry(idx as int, jlast), a));
                    }
                }
            }
            self.live = Ghost(self.live@.insert((off, cap)));
            proof {
                assert forall|r2: (u32, u16)| old_self.live@.contains(r2) implies ranges_disjoint(
                    a,
                    r2,
                ) by {
                    assert(ranges_disjoint(old_self.free_entry(idx as int, jlast), r2));
                }
                assert(is_class_size(cap as int)) by {
                    assert(0 <= (idx as int) && (idx as int) < class_count() && cap as int
                        == class_size(idx as int));
                }
                assert forall|r: (u32, u16)| #[trigger]
                    self.live@.contains(r) implies r.0 + r.1 <= self.buffer@.len()
                    && is_class_size(r.1 as int) by {
                    if r != a {
                        assert(old_self.live@.contains(r));
                    }
                }
                assert forall|r1: (u32, u16), r2: (u32, u16)|
                    #![trigger self.live@.contains(r1), self.live@.contains(r2)]
                    self.live@.contains(r1) && self.live@.contains(r2) && r1
                        != r2 implies ranges_disjoint(r1, r2) by {
                    if r1 == a {
                        assert(old_self.live@.contains(r2));
                        assert(ranges_disjoint(a, r2));
                    } else if r2 == a {
                        assert(old_self.live@.contains(r1));
                        assert(ranges_disjoint(a, r1));
                    } else {
                        assert(old_self.live@.contains(r1) && old_self.live@.contains(r2));
                    }
                }
                assert forall|i: int, j: int| self.free_index_ok(i, j) implies old_self
                    .free_index_ok(i, j) && (#[trigger] self.free_entry(i, j)) == old_self
                    .free_entry(i, j) && !(i == idx as int && j == jlast) by {
                    if i == idx as int {
                        assert(self.free_lists@[i]@ == old_self.free_lists@[i]@.subrange(
                            0,
                            jlast,
                        ));
                    }
                }
                assert forall|i: int, j: int|
                    self.free_index_ok(i, j) implies (#[trigger] self.free_entry(i, j)).0
                    + class_size(i) <= self.buffer@.len() by {
                    assert(old_self.free_entry(i, j).0 + class_size(i) <= old_self.buffer@.len());
                }
                assert forall|i1: int, j1: int, i2: int, j2: int|
                    #![trigger self.free_entry(i1, j1), self.free_entry(i2, j2)]
                    self.free_index_ok(i1, j1) && self.free_index_ok(i2, j2) && !(i1 == i2 && j1
                        == j2) implies ranges_disjoint(
                    self.free_entry(i1, j1),
                    self.free_entry(i2, j2),
                ) by {
                    assert(ranges_disjoint(
                        old_self.free_entry(i1, j1),
                        old_self.free_entry(i2, j2),
                    ));
                }
                assert forall|i: int, j: int, r: (u32, u16)|
                    #![trigger self.free_entry(i, j), self.live@.contains(r)]
                    self.free_index_ok(i, j) && self.live@.contains(r) implies ranges_disjoint(
                    self.free_entry(i, j),
                    r,
                ) by {
                    if r == a {
                        assert(ranges_disjoint(
                            old_self.free_entry(i, j),
                            old_self.free_entry(idx as int, jlast),
                        ));
                    } else {
                        assert(old_self.live@.contains(r));
                        assert(ranges_disjoint(old_self.free_entry(i, j), r));
                    }
                }
            }
            Ok((off, cap))
        } else {
            if self.buffer.len() > (u32::MAX - cap as u32) as usize {
                return Err(GraphError::CapacityExceeded);
            }
            let off: u32 = self.buffer.len() as u32;
            let ghost a = (off, cap);
            let mut k: u16 = 0;
            while k < cap
                invariant
                    0 <= k <= cap,
                    self.buffer@.len() == old_self.buffer@.len() + k,
                    self.buffer@.subrange(0, old_self.buffer@.len() as int) == old_self.buffer@,
                    old_self.buffer@.len() + cap <= u32::MAX,
                    self.free_lists@ == old_self.free_lists@,
                    self.live@ == old_self.live@,
                decreases cap - k,
            {
                self.buffer.push(0u8);
                proof {
                    assert(self.buffer@.subrange(0, old_self.buffer@.len() as int)
                        =~= old_self.buffer@);
                }
                k = k + 1;
            }
            proof {
                assert(!old_self.live@.contains(a)) by {
                    if old_self.live@.contains(a) {
                        assert(a.0 + a.1 <= old_self.buffer@.len());
                    }
                }
            }
            self.live = Ghost(self.live@.insert((off, cap)));
            proof {
                assert forall|r2: (u32, u16)| old_self.live@.contains(r2) implies ranges_disjoint(
                    a,
                    r2,
                ) by {
                    assert(r2.0 + r2.1 <= old_self.buffer@.len());
                }
                assert(is_class_size(cap as int)) by {
                    assert(0 <= (idx as int) && (idx as int) < class_count() && cap as int
                        == class_size(idx as int));
                }
                assert forall|r: (u32, u16)| #[trigger]
                    self.live@.contains(r) implies r.0 + r.1 <= self.buffer@.len()
                    && is_class_size(r.1 as int) by {
                    if r != a {
                        assert(old_self.live@.contains(r));
                    }
                }
                assert forall|r1: (u32, u16), r2: (u32, u16)|
                    #![trigger self.live@.contains(r1), self.live@.contains(r2)]
                    self.live@.contains(r1) && self.live@.contains(r2) && r1
                        != r2 implies ranges_disjoint(r1, r2) by {
                    if r1 == a {
                        assert(old_self.live@.contains(r2));
                        assert(ranges_disjoint(a, r2));
                    } else if r2 == a {
                        assert(old_self.live@.contains(r1));
                        assert(ranges_disjoint(a, r1));
                    } else {
                        assert(old_self.live@.contains(r1) && old_self.live@.contains(r2));
                    }
                }
                assert forall|i: int, j: int|
                    self.free_index_ok(i, j) implies (#[trigger] self.free_entry(i, j)).0
                    + class_size(i) <= self.buffer@.len() by {
                    assert(self.free_entry(i, j) == old_self.free_entry(i, j));
                    assert(old_self.free_entry(i, j).0 + class_size(i) <= old_self.buffer@.len());
                }
                assert forall|i1: int, j1: int, i2: int, j2: int|
                    #![trigger self.free_entry(i1, j1), self.free_entry(i2, j2)]
                    self.free_index_ok(i1, j1) && self.free_index_ok(i2, j2) && !(i1 == i2 && j1
                        == j2) implies ranges_disjoint(
                    self.free_entry(i1, j1),
                    self.free_entry(i2, j2),
                ) by {
                    assert(self.free_entry(i1, j1) == old_self.free_entry(i1, j1));
                    assert(self.free_entry(i2, j2) == old_self.free_entry(i2, j2));
                    assert(ranges_disjoint(
                        old_self.free_entry(i1, j1),
                        old_self.free_entry(i2, j2),
                    ));
                }
                assert forall|i: int, j: int, r: (u32, u16)|
                    #![trigger self.free_entry(i, j), self.live@.contains(r)]
                    self.free_index_ok(i, j) && self.live@.contains(r) implies ranges_disjoint(
                    self.free_entry(i, j),
                    r,
                ) by {
                    assert(self.free_entry(i, j) == old_self.free_entry(i, j));
                    if r == a {
                        assert(old_self.free_entry(i, j).0 + class_size(i)
                            <= old_self.buffer@.len());
                    } else {
                        assert(old_self.live@.contains(r));
                    }
                }
            }
            Ok((off, cap))
        }
    }

    /// Releases a live block onto the free list of its size class. No
    /// coalescing takes place.
    pub fn free(&mut self, offset: u32, capacity: u16)
        requires
            old(self).wf(),
            old(self).live_ranges().contains((offset, capacity)),
        ensures
            final(self).wf(),
            final(self).live_ranges() == old(self).live_ranges().remove((offset, capacity)),
            final(self).buffer_bytes() == old(self).buffer_bytes(),
    {
        let ghost old_self = *self;
        let ghost a = (offset, capacity);
        let idx = Self::class_index_of_cap(capacity);
        let lst: &mut Vec<u32> = &mut self.free_lists[idx];
        lst.push(offset);
        self.live = Ghost(self.live@.remove((offset, capacity)));
        proof {
            let jnew = old_self.free_lists@[idx as int]@.len() as int;
            assert(self.free_lists@[idx as int]@ == old_self.free_lists@[idx as int]@.push(
                offset,
            ));
            assert(self.free_entry(idx as int, jnew) == a);
            assert forall|i: int, j: int|
                self.free_index_ok(i, j) && !(i == idx as int && j == jnew) implies old_self
                .free_index_ok(i, j) && (#[trigger] self.free_entry(i, j)) == old_self.free_entry(
                i,
                j,
            ) by {
                if i == idx as int {
                    assert(self.free_lists@[i]@[j] == old_self.free_lists@[i]@[j]);
                }
            }
            assert forall|i: int, j: int|
                self.free_index_ok(i, j) implies (#[trigger] self.free_entry(i, j)).0 + class_size(
                i,
            ) <= self.buffer@.len() by {
                if i == idx as int && j == jnew {
                    assert(a.0 + a.1 <= old_self.buffer@.len());
                } else {
                    assert(old_self.free_entry(i, j).0 + class_size(i) <= old_self.buffer@.len());
                }
            }
            assert forall|i1: int, j1: int, i2: int, j2: int|
                #![trigger self.free_entry(i1, j1), self.free_entry(i2, j2)]
                self.free_index_ok(i1, j1) && self.free_index_ok(i2, j2) && !(i1 == i2 && j1
                    == j2) implies ranges_disjoint(
                self.free_entry(i1, j1),
                self.free_entry(i2, j2),
            ) by {
                if i1 == idx as int && j1 == jnew {
                    assert(ranges_disjoint(old_self.free_entry(i2, j2), a));
                } else if i2 == idx as int && j2 == jnew {
                    assert(ranges_disjoint(old_self.free_entry(i1, j1), a));
                } else {
                    assert(ranges_disjoint(
                        old_self.free_entry(i1, j1),
                        old_self.free_entry(i2, j2),
                    ));
                }
            }
            assert forall|i: int, j: int, r: (u32, u16)|
                #![trigger self.free_entry(i, j), self.live@.contains(r)]
                self.free_index_ok(i, j) && self.live@.contains(r) implies ranges_disjoint(
                self.free_entry(i, j),
                r,
            ) by {
                assert(old_self.live@.contains(r) && r != a);
                if i == idx as int && j == jnew {
                    assert(ranges_disjoint(a, r));
                } else {
                    assert(ranges_disjoint(old_self.free_entry(i, j), r));
                }
            }
        }
    }

    /// Writes `data` into the front of a live block. Bytes outside the
    /// written range keep their values.
    pub fn write_block(&mut self, offset: u32, capacity: u16, data: &[u8])
        requires
            old(self).wf(),
            old(self).live_ranges().contains((offset, capacity)),
            data@.len() <= capacity,
        ensures
            final(self).wf(),
            final(self).live_ranges() == old(self).live_ranges(),
            final(self).buffer_bytes().len() == old(self).buffer_bytes().len(),
            final(self).buffer_bytes().subrange(offset as int, offset + data@.len()) == data@,
            forall|k: int|
                0 <= k < old(self).buffer_bytes().len() && !(offset <= k < offset + data@.len())
                    ==> final(self).buffer_bytes()[k] == old(self).buffer_bytes()[k],
    {
        let ghost old_self = *self;
        let n = data.len();
        let mut k: usize = 0;
        while k < n
            invariant
                0 <= k <= n,
                n == data@.len(),
                n <= capacity,
                old_self.wf(),
                offset + capacity <= self.buffer@.len(),
                self.buffer@.len() == old_self.buffer@.len(),
                self.buffer@.len() <= u32::MAX,
                self.free_lists@ == old_self.free_lists@,
                self.live@ == old_self.live@,
                old_self.live@.contains((offset, capacity)),
                forall|t: int|
                    0 <= t < old_self.buffer@.len() && !(offset <= t < offset + k)
                        ==> self.buffer@[t] == old_self.buffer@[t],
                forall|t: int| 0 <= t < k ==> self.buffer@[offset + t] == data@[t],
            decreases n - k,
        {
            let pos = offset as usize + k;
            self.buffer[pos] = data[k];
            k = k + 1;
        }
        proof {
            assert(self.buffer@.subrange(offset as int, offset + data@.len()) =~= data@);
            assert forall|i: int, j: int|
                self.free_index_ok(i, j) implies old_self.free_index_ok(i, j) && (
            #[trigger] self.free_entry(i, j)) == old_self.free_entry(i, j) by {}
            assert forall|i: int, j: int|
                self.free_index_ok(i, j) implies (#[trigger] self.free_entry(i, j)).0 + class_size(
                i,
            ) <= self.buffer@.len() by {
                assert(self.free_entry(i, j) == old_self.free_entry(i, j));
                assert(old_self.free_entry(i, j).0 + class_size(i) <= old_self.buffer@.len());
            }
            assert forall|i1: int, j1: int, i2: int, j2: int|
                #![trigger self.free_entry(i1, j1), self.free_entry(i2, j2)]
                self.free_index_ok(i1, j1) && self.free_index_ok(i2, j2) && !(i1 == i2 && j1
                    == j2) implies ranges_disjoint(
                self.free_entry(i1, j1),
                self.free_entry(i2, j2),
            ) by {
                assert(ranges_disjoint(old_self.free_entry(i1, j1), old_self.free_entry(i2, j2)));
            }
            assert forall|i: int, j: int, r: (u32, u16)|
                #![trigger self.free_entry(i, j), self.live@.contains(r)]
                self.free_index_ok(i, j) && self.live@.contains(r) implies ranges_disjoint(
                self.free_entry(i, j),
                r,
            ) by {
                assert(ranges_disjoint(old_self.free_entry(i, j), r));
            }
        }
    }

    /// Copies `len` bytes out of the buffer starting at `offset`.
    pub fn read_block(&self, offset: u32, len: usize) -> (r: Vec<u8>)
        requires
            offset + len <= self.buffer_bytes().len(),
        ensures
            r@ == self.buffer_bytes().subrange(offset as int, offset + len),
    {
        let start = offset as usize;
        let blen = self.buffer.len();
        let mut out: Vec<u8> = Vec::new();
        let mut k: usize = 0;
        while k < len
            invariant
                0 <= k <= len,
                start == offset,
                blen == self.buffer@.len(),
                offset + len <= blen,
                out@ == self.buffer@.subrange(offset as int, offset + k),
            decreases len - k,
        {
            out.push(self.buffer[start + k]);
            proof {
                assert(out@ =~= self.buffer@.subrange(offset as int, offset + k + 1));
            }
            k = k + 1;
        }
        out
    }

    /// Number of bytes in the pool's buffer.
    pub fn buffer_len(&self) -> (r: usize)
        ensures
            r == self.buffer_bytes().len(),
    {
        self.buffer.len()
    }

    /// Bytes held by the pool's buffer, a measure of its memory use.
    pub fn memory_usage(&self) -> (r: usize)
        ensures
            r == self.buffer_bytes().len(),
    {
        self.buffer.len()
    }

    /// Sorts and deduplicates `ids`, then encodes the count and the
    /// gaps between consecutive ids as VByte.
    pub fn encode_neighbors(ids: &[u32]) -> (r: Vec<u8>)
        requires
            ids@.len() < 0x8_0000_0000,
        ensures
            r@ == vbyte::spec_encode_list(vbyte::sort_unique(ids@)),
    {
        vbyte::encode_list(ids)
    }

    /// Decodes a neighbor list, ignoring bytes past the encoded
    /// entries (an allocated block may exceed its logical content).
    pub fn decode_neighbors(bytes: &[u8]) -> (r: Vec<u32>)
        ensures
            r@ == vbyte::spec_decode_list(bytes@),
    {
        vbyte::decode_list(bytes)
    }

    /// Decodes the list of one layer out of a block that concatenates
    /// one encoded list per layer, skipping earlier lists by their
    /// count prefixes.
    pub fn decode_layer(bytes: &[u8], layer: u8) -> (r: Vec<u32>)
        ensures
            r@ == vbyte::spec_decode_layer(bytes@, layer as int),
    {
        vbyte::decode_layer_list(bytes, layer)
    }
}

/// Round trip of the adjacency codec: decoding an encoded id list
/// yields the list sorted ascending with duplicates removed, whatever
/// trailing bytes the allocated block carries after the encoding.
pub proof fn lemma_decode_encode_round_trip(ids: Seq<u32>, rest: Seq<u8>)
    requires
        ids.len() < 0x8_0000_0000,
    ensures
        vbyte::spec_decode_list(vbyte::spec_encode_list(vbyte::sort_unique(ids)) + rest)
            == vbyte::sort_unique(ids),
{
    vbyte::lemma_sort_unique_props(ids);
    vbyte::lemma_decode_of_encode(vbyte::sort_unique(ids), rest);
}

} // verus!
