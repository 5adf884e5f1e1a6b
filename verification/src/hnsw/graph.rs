//! The graph: identifiers, the flat node table, and the methods that
//! build and read adjacency through the compressed neighbor pool.

use vstd::prelude::*;

verus! {

/// Unique identifier for a vector in the database. Ids are issued
/// monotonically and never reused; 0 is the invalid sentinel.
#[derive(Clone, Copy, Debug, PartialEq, Eq, Structural, Hash)]
pub struct VectorId(pub u64);

/// Internal node identifier within the graph; `0xFFFF_FFFF` is the
/// invalid sentinel.
#[derive(Clone, Copy, Debug, PartialEq, Eq, Structural, Hash)]
pub struct NodeId(pub u32);

/// A layer level in the graph. Layer 0 is the base layer holding all
/// nodes; higher layers hold subsets for faster navigation.
#[derive(Clone, Copy, Debug, PartialEq, Eq, Structural, Hash)]
pub struct Layer(pub u8);

/// Errors of graph operations. All are recoverable: a failing call
/// leaves the index unchanged.
#[derive(Clone, Debug, PartialEq, Eq)]
pub enum GraphError {
    /// The graph reached its maximum capacity (node table or pool).
    CapacityExceeded,
    /// The provided vector id is the invalid sentinel.
    InvalidVectorId,
    /// Neighbor data is corrupted or an offset is out of bounds.
    NeighborError,
    /// A node id is out of bounds.
    NodeIdOutOfBounds,
    /// Configuration mismatch with storage.
    ConfigMismatch {
        /// Dimensions the storage holds.
        expected: u32,
        /// Dimensions the configuration asked for.
        actual: u32,
    },
    /// A query vector has the wrong dimensions.
    DimensionMismatch {
        /// Dimensions the index holds.
        expected: usize,
        /// Dimensions the query has.
        actual: usize,
    },
    /// A storage operation failed.
    Storage(String),
    /// Invalid configuration: `m` must exceed 1 and `m0` must be at
    /// least `m`.
    InvalidConfig {
        /// The `m` parameter given.
        m: u32,
        /// The `m0` parameter given.
        m0: u32,
    },
}

} // verus!

use crate::hnsw::config::HnswConfig;
use crate::hnsw::neighbor::{class_cap_for, ranges_disjoint, NeighborPool};
use crate::hnsw::vbyte;
use crate::storage::binary::BinaryVectorStorage;

verus! {

/// The id numbers of a list of node ids.
pub open spec fn ids_of(s: Seq<NodeId>) -> Seq<u32> {
    s.map_values(|n: NodeId| n.0)
}

/// A node of the graph: its vector id, the offset and allocated
/// capacity of its adjacency block inside the pool, and its maximum
/// layer.
#[derive(Clone, Copy, Debug, PartialEq, Eq, Structural)]
pub struct HnswNode {
    /// The vector this node represents.
    pub vector_id: VectorId,
    /// Offset of the node's block in the compressed neighbor pool.
    pub neighbor_offset: u32,
    /// Allocated capacity of the block in bytes (not logical length).
    pub neighbor_len: u16,
    /// The highest layer this node appears in.
    pub max_layer: u8,
    /// Padding for alignment.
    pub pad: u8,
}

/// The graph: a flat node table, the compressed neighbor pool, the
/// entry point, and the global maximum layer. All references between
/// nodes are indices; deleted vectors keep their nodes so traversal
/// stays closed.
pub struct HnswIndex {
    /// Algorithm configuration.
    pub config: HnswConfig,
    nodes: Vec<HnswNode>,
    neighbors: NeighborPool,
    entry_point: Option<NodeId>,
    max_layer: u8,
    adj: Ghost<Map<int, Seq<u32>>>,
}

impl HnswIndex {
    /// The configuration the graph was built with.
    pub closed spec fn config_spec(&self) -> HnswConfig {
        self.config
    }

    /// Number of nodes in the graph.
    pub open spec fn node_count_spec(&self) -> int {
        self.nodes_seq().len() as int
    }

    /// The node table.
    pub closed spec fn nodes_seq(&self) -> Seq<HnswNode> {
        self.nodes@
    }

    /// The adjacency list of node `i`: strictly increasing node ids.
    pub closed spec fn neighbor_list(&self, i: int) -> Seq<u32> {
        self.adj@[i]
    }

    /// The entry point, if any.
    pub closed spec fn entry_point_spec(&self) -> Option<NodeId> {
        self.entry_point
    }

    /// The global maximum layer.
    pub closed spec fn max_layer_spec(&self) -> int {
        self.max_layer as int
    }

    /// Bytes held by the neighbor pool.
    pub closed spec fn pool_bytes_spec(&self) -> int {
        self.neighbors.buffer_bytes().len() as int
    }

    /// The neighbor pool's byte content.
    pub closed spec fn pool_content(&self) -> Seq<u8> {
        self.neighbors.buffer_bytes()
    }

    /// The pool byte count is the length of the pool content.
    pub proof fn lemma_pool_content_len(&self)
        ensures
            self.pool_bytes_spec() == self.pool_content().len(),
    {
    }

    /// The block range of node `i` in the pool.
    spec fn node_range(&self, i: int) -> (u32, u16) {
        (self.nodes@[i].neighbor_offset, self.nodes@[i].neighbor_len)
    }

    /// The stored block bytes of node `i`.
    spec fn node_block(&self, i: int) -> Seq<u8> {
        self.neighbors.buffer_bytes().subrange(
            self.nodes@[i].neighbor_offset as int,
            self.nodes@[i].neighbor_offset + self.nodes@[i].neighbor_len,
        )
    }

    /// Well-formedness: a valid configuration, every node's layer
    /// within the global maximum, a valid entry point, and for every
    /// node a live, mutually disjoint block in the pool that decodes
    /// to its adjacency list, which is strictly increasing, within the
    /// layer cap, free of self-loops, and holds only valid node ids.
    pub closed spec fn wf(&self) -> bool {
        &&& self.neighbors.wf()
        &&& self.config.m > 1
        &&& self.config.m0 >= self.config.m
        &&& self.nodes@.len() <= u32::MAX
        &&& match self.entry_point {
            Option::Some(e) => e.0 < self.nodes@.len(),
            Option::None => true,
        }
        &&& forall|i: int|
            0 <= i < self.nodes@.len() ==> (#[trigger] self.nodes@[i]).max_layer
                <= self.max_layer && self.nodes@[i].vector_id.0 != 0
        &&& forall|i: int| 0 <= i < self.nodes@.len() ==> self.adj@.dom().contains(i)
        &&& forall|i: int|
            0 <= i < self.nodes@.len() ==> {
                &&& vbyte::strictly_increasing(#[trigger] self.adj@[i])
                &&& self.adj@[i].len() <= self.config.m0
                &&& forall|k: int|
                    0 <= k < self.adj@[i].len() ==> (#[trigger] self.adj@[i][k]) < self.nodes@.len()
                        && self.adj@[i][k] != i
            }
        &&& forall|i: int|
            0 <= i < self.nodes@.len() && (#[trigger] self.nodes@[i]).neighbor_len > 0 ==> {
                &&& self.neighbors.live_ranges().contains(self.node_range(i))
                &&& self.nodes@[i].neighbor_offset + self.nodes@[i].neighbor_len
                    <= self.neighbors.buffer_bytes().len()
                &&& vbyte::spec_decode_list(self.node_block(i)) == self.adj@[i]
            }
        &&& forall|i: int|
            0 <= i < self.nodes@.len() && (#[trigger] self.nodes@[i]).neighbor_len == 0 ==> self.adj@[i]
                == Seq::<u32>::empty()
        &&& forall|i: int, j: int|
            #![trigger self.node_range(i), self.node_range(j)]
            0 <= i < self.nodes@.len() && 0 <= j < self.nodes@.len() && i != j && self.nodes@[i].neighbor_len
                > 0 && self.nodes@[j].neighbor_len > 0 ==> self.node_range(i) != self.node_range(j)
    }

    /// Creates an empty graph after validating the configuration
    /// against the storage.
    pub fn new(config: HnswConfig, storage: &BinaryVectorStorage) -> (r: Result<
        Self,
        GraphError,
    >)
        requires
            storage.wf(),
        ensures
            match r {
                Result::Ok(g) => {
                    &&& config.dimensions == storage.dim()
                    &&& config.m > 1
                    &&& config.m0 >= config.m
                    &&& g.wf()
                    &&& g.config_spec() == config
                    &&& g.node_count_spec() == 0
                    &&& g.entry_point_spec() is None
                    &&& g.max_layer_spec() == 0
                    &&& g.pool_content() == Seq::<u8>::empty()
                    &&& g.pool_bytes_spec() == 0
                },
                Result::Err(e) => {
                    if config.dimensions != storage.dim() {
                        e == (GraphError::ConfigMismatch {
                            expected: storage.dim() as u32,
                            actual: config.dimensions,
                        })
                    } else {
                        !(config.m > 1 && config.m0 >= config.m) && e == (
                        GraphError::InvalidConfig { m: config.m, m0: config.m0 })
                    }
                },
            },
    {
        proof {
            storage.lemma_wf_dim();
        }
        if config.dimensions as usize != storage.dimension() {
            return Err(GraphError::ConfigMismatch {
                expected: storage.dimension() as u32,
                actual: config.dimensions,
            });
        }
        if config.m <= 1 || config.m0 < config.m {
            return Err(GraphError::InvalidConfig { m: config.m, m0: config.m0 });
        }
        Ok(
            HnswIndex {
                config,
                nodes: Vec::new(),
                neighbors: NeighborPool::new(),
                entry_point: None,
                max_layer: 0,
                adj: Ghost(Map::empty()),
            },
        )
    }

    /// Adds a node for `vector_id` with the given maximum layer and
    /// returns its dense id. The global maximum layer rises when the
    /// node's exceeds it. A failing call leaves the graph unchanged.
    pub fn add_node(&mut self, vector_id: VectorId, max_layer: u8) -> (r: Result<
        NodeId,
        GraphError,
    >)
        requires
            old(self).wf(),
        ensures
            final(self).wf(),
            match r {
                Result::Ok(id) => {
                    &&& vector_id.0 != 0
                    &&& old(self).node_count_spec() < u32::MAX
                    &&& id.0 == old(self).node_count_spec()
                    &&& final(self).node_count_spec() == old(self).node_count_spec() + 1
                    &&& final(self).nodes_seq() == old(self).nodes_seq().push(
                        HnswNode {
                            vector_id,
                            neighbor_offset: 0,
                            neighbor_len: 0,
                            max_layer,
                            pad: 0,
                        },
                    )
                    &&& final(self).neighbor_list(id.0 as int) == Seq::<u32>::empty()
                    &&& forall|i: int|
                        0 <= i < old(self).node_count_spec() ==> final(self).neighbor_list(i)
                            == old(self).neighbor_list(i)
                    &&& final(self).max_layer_spec() == if max_layer > old(self).max_layer_spec() {
                        max_layer as int
                    } else {
                        old(self).max_layer_spec()
                    }
                    &&& final(self).entry_point_spec() == old(self).entry_point_spec()
                    &&& final(self).config_spec() == old(self).config_spec()
                    &&& final(self).pool_content() == old(self).pool_content()
                    &&& final(self).pool_bytes_spec() == old(self).pool_bytes_spec()
                },
                Result::Err(e) => {
                    &&& *final(self) == *old(self)
                    &&& if vector_id.0 == 0 {
                        e == GraphError::InvalidVectorId
                    } else {
                        old(self).node_count_spec() >= u32::MAX && e
                            == GraphError::CapacityExceeded
                    }
                },
            },
    {
        if vector_id.0 == 0 {
            return Err(GraphError::InvalidVectorId);
        }
        if self.nodes.len() >= u32::MAX as usize {
            return Err(GraphError::CapacityExceeded);
        }
        let node = HnswNode { vector_id, neighbor_offset: 0, neighbor_len: 0, max_layer, pad: 0 };
        let id = NodeId(self.nodes.len() as u32);
        self.nodes.push(node);
        self.adj = Ghost(self.adj@.insert(id.0 as int, Seq::empty()));
        if max_layer > self.max_layer {
            self.max_layer = max_layer;
        }
        Ok(id)
    }

    /// The configuration the graph was built with.
    pub fn config_value(&self) -> (r: HnswConfig)
        ensures
            r == self.config_spec(),
    {
        self.config
    }

    /// Number of nodes in the graph.
    pub fn node_count(&self) -> (r: usize)
        ensures
            r == self.node_count_spec(),
    {
        self.nodes.len()
    }

    /// The entry point node, if any.
    pub fn entry_point(&self) -> (r: Option<NodeId>)
        ensures
            r == self.entry_point_spec(),
    {
        self.entry_point
    }

    /// Sets the entry point, which must name a node of the graph.
    pub fn set_entry_point(&mut self, id: NodeId)
        requires
            old(self).wf(),
            id.0 < old(self).node_count_spec(),
        ensures
            final(self).wf(),
            final(self).entry_point_spec() == Some(id),
            final(self).nodes_seq() == old(self).nodes_seq(),
            final(self).config_spec() == old(self).config_spec(),
            final(self).max_layer_spec() == old(self).max_layer_spec(),
            forall|i: int|
                0 <= i < old(self).node_count_spec() ==> final(self).neighbor_list(i) == old(self).neighbor_list(i),
    {
        self.entry_point = Some(id);
    }

    /// The current global maximum layer.
    pub fn max_layer(&self) -> (r: u8)
        ensures
            r == self.max_layer_spec(),
    {
        self.max_layer
    }

    /// The node with the given id, or `None` for the invalid sentinel
    /// or an id out of bounds.
    pub fn get_node(&self, id: NodeId) -> (r: Option<&HnswNode>)
        ensures
            match r {
                Option::Some(n) => id.0 != u32::MAX && id.0 < self.node_count_spec() && *n
                    == self.nodes_seq()[id.0 as int],
                Option::None => id.0 == u32::MAX || id.0 >= self.node_count_spec(),
            },
    {
        if id.0 == u32::MAX {
            return None;
        }
        let idx = id.0 as usize;
        if idx < self.nodes.len() {
            Some(&self.nodes[idx])
        } else {
            None
        }
    }

    /// Marks a vector deleted in the storage: the node stays in the
    /// graph for routing and search filters it from results.
    pub fn delete(&self, id: VectorId, storage: &mut BinaryVectorStorage) -> (r: bool)
        requires
            old(storage).wf(),
        ensures
            final(storage).wf(),
            (final(storage).deleted_bits(), r) == crate::storage::binary::spec_mark_deleted(
                old(storage).deleted_bits(),
                id.0 as int,
            ),
            final(storage).data_bytes() == old(storage).data_bytes(),
            final(storage).count_spec() == old(storage).count_spec(),
            final(storage).dim() == old(storage).dim(),
            !r ==> *final(storage) == *old(storage),
    {
        storage.mark_deleted(id.0)
    }

    /// A copy of the neighbor pool's bytes, for serialization.
    pub fn pool_bytes(&self) -> (r: Vec<u8>)
        ensures
            r@ == self.pool_content(),
    {
        let len = self.neighbors.buffer_len();
        let out = self.neighbors.read_block(0, len);
        proof {
            assert(self.neighbors.buffer_bytes().subrange(
                0,
                self.neighbors.buffer_bytes().len() as int,
            ) =~= self.neighbors.buffer_bytes());
        }
        out
    }

    /// Approximate memory use in bytes: the node table plus the
    /// neighbor pool.
    pub fn memory_usage(&self) -> (r: usize)
        requires
            self.wf(),
        ensures
            16 * self.node_count_spec() + self.pool_bytes_spec() <= usize::MAX ==> r == 16
                * self.node_count_spec() + self.pool_bytes_spec(),
    {
        proof {
            self.neighbors.lemma_wf_bounds();
        }
        let nodes_bytes: u64 = 16u64 * (self.nodes.len() as u64);
        let pool_bytes: u64 = self.neighbors.memory_usage() as u64;
        let total: u64 = nodes_bytes + pool_bytes;
        if total > usize::MAX as u64 {
            usize::MAX
        } else {
            total as usize
        }
    }
}

} // verus!

verus! {

impl HnswIndex {
    /// Replaces the adjacency list of `node_id` with the given
    /// neighbors, sorted and deduplicated: a fresh block is allocated
    /// and written, then the old block is freed. Every other node's
    /// list is untouched. A failing call leaves the graph unchanged.
    #[verifier::rlimit(50)]
    pub fn set_neighbors(&mut self, node_id: NodeId, neighbors: &[NodeId]) -> (r: Result<
        (),
        GraphError,
    >)
        requires
            old(self).wf(),
            forall|k: int|
                0 <= k < neighbors@.len() ==> (#[trigger] neighbors@[k]).0 < old(self).node_count_spec() && neighbors@[k].0 != node_id.0,
            neighbors@.len() <= old(self).config_spec().m0,
        ensures
            final(self).wf(),
            match r {
                Result::Ok(()) => {
                    &&& node_id.0 < old(self).node_count_spec()
                    &&& final(self).neighbor_list(node_id.0 as int) == vbyte::sort_unique(
                        ids_of(neighbors@),
                    )
                    &&& forall|i: int|
                        0 <= i < old(self).node_count_spec() && i != node_id.0 ==> final(self).neighbor_list(i) == old(self).neighbor_list(i)
                    &&& final(self).node_count_spec() == old(self).node_count_spec()
                    &&& forall|i: int|
                        0 <= i < old(self).node_count_spec() && i != node_id.0 ==> final(self).nodes_seq()[i] == old(self).nodes_seq()[i]
                    &&& final(self).nodes_seq()[node_id.0 as int].vector_id == old(self).nodes_seq()[node_id.0 as int].vector_id
                    &&& final(self).nodes_seq()[node_id.0 as int].max_layer == old(self).nodes_seq()[node_id.0 as int].max_layer
                    &&& final(self).nodes_seq()[node_id.0 as int].neighbor_len > 0
                    &&& final(self).entry_point_spec() == old(self).entry_point_spec()
                    &&& final(self).max_layer_spec() == old(self).max_layer_spec()
                    &&& final(self).config_spec() == old(self).config_spec()
                    &&& final(self).pool_bytes_spec() <= old(self).pool_bytes_spec()
                        + class_cap_for(
                        vbyte::spec_encode_list(
                            vbyte::sort_unique(ids_of(neighbors@)),
                        ).len() as int,
                    )
                },
                Result::Err(e) => {
                    &&& *final(self) == *old(self)
                    &&& if node_id.0 >= old(self).node_count_spec() {
                        e == GraphError::NodeIdOutOfBounds
                    } else {
                        let elen = vbyte::spec_encode_list(
                            vbyte::sort_unique(ids_of(neighbors@)),
                        ).len() as int;
                        e == GraphError::CapacityExceeded && (elen > 65535 || old(
                            self,
                        ).pool_bytes_spec() + class_cap_for(elen)
                            > u32::MAX)
                    }
                },
            },
    {
        if node_id.0 as usize >= self.nodes.len() {
            return Err(GraphError::NodeIdOutOfBounds);
        }
        let idx = node_id.0 as usize;
        let mut ids: Vec<u32> = Vec::new();
        let mut k: usize = 0;
        while k < neighbors.len()
            invariant
                0 <= k <= neighbors@.len(),
                ids@.len() == k,
                forall|t: int| 0 <= t < k ==> ids@[t] == (#[trigger] neighbors@[t]).0,
            decreases neighbors@.len() - k,
        {
            ids.push(neighbors[k].0);
            k = k + 1;
        }
        proof {
            assert(ids@ =~= ids_of(neighbors@));
            vbyte::lemma_sort_unique_props(ids@);
        }
        let ghost sorted = vbyte::sort_unique(ids@);
        let encoded = NeighborPool::encode_neighbors(ids.as_slice());
        let ghost s0 = *self;
        let ghost elen = encoded@.len() as int;
        match self.neighbors.allocate(encoded.len()) {
            Result::Err(e) => {
                return Err(GraphError::CapacityExceeded);
            },
            Result::Ok((off, cap)) => {
                let ghost a = (off, cap);
                let ghost pool1 = self.neighbors;
                self.neighbors.write_block(off, cap, encoded.as_slice());
                let ghost pool2 = self.neighbors;
                let old_node = self.nodes[idx];
                let ghost old_range = (old_node.neighbor_offset, old_node.neighbor_len);
                if old_node.neighbor_len > 0 {
                    proof {
                        assert(s0.neighbors.live_ranges().contains(old_range));
                        assert(old_range != a);
                    }
                    self.neighbors.free(old_node.neighbor_offset, old_node.neighbor_len);
                }
                let ghost pool3 = self.neighbors;
                let node_ref = &mut self.nodes[idx];
                *node_ref = HnswNode {
                    neighbor_offset: off,
                    neighbor_len: cap,
                    ..old_node
                };
                self.adj = Ghost(self.adj@.insert(idx as int, sorted));
                proof {
                    let count = s0.nodes@.len() as int;
                    // bytes of the fresh block
                    assert(self.node_block(idx as int) =~= encoded@ + pool2.buffer_bytes()
                        .subrange(off + elen, off + cap)) by {
                        assert forall|t: int|
                            0 <= t < cap implies self.node_block(idx as int)[t] == (encoded@
                            + pool2.buffer_bytes().subrange(off + elen, off + cap))[t] by {
                            if t < elen {
                                assert(pool2.buffer_bytes().subrange(off as int, off + elen)[t]
                                    == encoded@[t]);
                            }
                        }
                    }
                    vbyte::lemma_decode_of_encode(
                        sorted,
                        pool2.buffer_bytes().subrange(off + elen, off + cap),
                    );
                    assert(vbyte::spec_decode_list(self.node_block(idx as int)) == sorted);
                    // properties of the new list
                    assert forall|t: int| 0 <= t < sorted.len() implies (#[trigger] sorted[t])
                        < count && sorted[t] != idx as u32 by {
                        assert(sorted.contains(sorted[t]));
                        assert(ids@.contains(sorted[t]));
                        let w = choose|w: int| 0 <= w < ids@.len() && ids@[w] == sorted[t];
                        assert(neighbors@[w].0 == sorted[t]);
                    }
                    // other nodes' blocks kept their bytes
                    assert forall|i: int|
                        0 <= i < count && i != idx as int && (#[trigger] self.nodes@[i]).neighbor_len
                            > 0 implies self.node_block(i) == s0.node_block(i)
                            && self.neighbors.live_ranges().contains(self.node_range(i))
                            && self.node_range(i) != a by {
                        assert(self.nodes@[i] == s0.nodes@[i]);
                        let ri = s0.node_range(i);
                        assert(s0.neighbors.live_ranges().contains(ri));
                        assert(ri != a);
                        assert(ranges_disjoint(a, ri));
                        assert(self.node_block(i) =~= s0.node_block(i)) by {
                            assert forall|t: int|
                                ri.0 <= t < ri.0 + ri.1 implies pool3.buffer_bytes()[t]
                                == s0.neighbors.buffer_bytes()[t] by {
                                assert(pool1.buffer_bytes()[t] == s0.neighbors.buffer_bytes()[t])
                                    by {
                                    assert(pool1.buffer_bytes().subrange(
                                        0,
                                        s0.neighbors.buffer_bytes().len() as int,
                                    )[t] == pool1.buffer_bytes()[t]);
                                }
                                assert(!(off <= t < off + elen));
                                assert(pool2.buffer_bytes()[t] == pool1.buffer_bytes()[t]);
                            }
                        }
                        if s0.nodes@[i].neighbor_len > 0 {
                            assert(ri != old_range || i == idx as int);
                        }
                    }
                }
                Ok(())
            },
        }
    }

    /// The decoded adjacency list of a node, as node ids, or a
    /// `NeighborError` when the node's block reaches past the pool.
    pub fn get_neighbors(&self, node: &HnswNode) -> (r: Result<Vec<NodeId>, GraphError>)
        ensures
            match r {
                Result::Ok(v) => {
                    &&& node.neighbor_offset + node.neighbor_len <= self.pool_bytes_spec()
                    &&& ids_of(v@) == vbyte::spec_decode_list(
                        self.block_bytes(node.neighbor_offset as int, node.neighbor_len as int),
                    )
                },
                Result::Err(e) => {
                    &&& node.neighbor_offset + node.neighbor_len > self.pool_bytes_spec()
                    &&& e == GraphError::NeighborError
                },
            },
    {
        let blen = self.neighbors.buffer_len();
        if node.neighbor_offset as usize > blen || node.neighbor_len as usize > blen
            - node.neighbor_offset as usize {
            return Err(GraphError::NeighborError);
        }
        let block = self.neighbors.read_block(node.neighbor_offset, node.neighbor_len as usize);
        let raw = NeighborPool::decode_neighbors(block.as_slice());
        Ok(Self::wrap_ids(raw))
    }

    /// The decoded list of one layer of a node's block, or a
    /// `NeighborError` when the block reaches past the pool.
    pub fn get_neighbors_layer(&self, node: &HnswNode, layer: u8) -> (r: Result<
        Vec<NodeId>,
        GraphError,
    >)
        ensures
            match r {
                Result::Ok(v) => {
                    &&& node.neighbor_offset + node.neighbor_len <= self.pool_bytes_spec()
                    &&& ids_of(v@) == vbyte::spec_decode_layer(
                        self.block_bytes(node.neighbor_offset as int, node.neighbor_len as int),
                        layer as int,
                    )
                },
                Result::Err(e) => {
                    &&& node.neighbor_offset + node.neighbor_len > self.pool_bytes_spec()
                    &&& e == GraphError::NeighborError
                },
            },
    {
        let blen = self.neighbors.buffer_len();
        if node.neighbor_offset as usize > blen || node.neighbor_len as usize > blen
            - node.neighbor_offset as usize {
            return Err(GraphError::NeighborError);
        }
        let block = self.neighbors.read_block(node.neighbor_offset, node.neighbor_len as usize);
        let raw = NeighborPool::decode_layer(block.as_slice(), layer);
        Ok(Self::wrap_ids(raw))
    }

    /// Bytes of the pool at the given block range.
    pub closed spec fn block_bytes(&self, offset: int, len: int) -> Seq<u8> {
        self.neighbors.buffer_bytes().subrange(offset, offset + len)
    }

    /// Wraps raw id numbers as node ids.
    fn wrap_ids(raw: Vec<u32>) -> (r: Vec<NodeId>)
        ensures
            ids_of(r@) == raw@,
    {
        let mut out: Vec<NodeId> = Vec::new();
        let mut k: usize = 0;
        while k < raw.len()
            invariant
                0 <= k <= raw@.len(),
                out@.len() == k,
                forall|t: int| 0 <= t < k ==> (#[trigger] out@[t]).0 == raw@[t],
            decreases raw@.len() - k,
        {
            out.push(NodeId(raw[k]));
            k = k + 1;
        }
        proof {
            assert(ids_of(out@) =~= raw@);
        }
        out
    }
}

/// What a well-formed graph guarantees of every node's stored
/// adjacency list: decoding the node's block yields exactly the
/// list the graph holds for it, and that list is strictly increasing,
/// within the layer-zero cap, free of self-loops, and holds only
/// valid node ids.
pub proof fn lemma_adjacency_well_formed(g: &HnswIndex, i: int)
    requires
        g.wf(),
        0 <= i < g.node_count_spec(),
    ensures
        vbyte::strictly_increasing(g.neighbor_list(i)),
        g.neighbor_list(i).len() <= g.config_spec().m0,
        forall|k: int|
            0 <= k < g.neighbor_list(i).len() ==> (#[trigger] g.neighbor_list(i)[k])
                < g.node_count_spec() && g.neighbor_list(i)[k] != i,
        g.nodes_seq()[i].neighbor_len > 0 ==> g.nodes_seq()[i].neighbor_offset
            + g.nodes_seq()[i].neighbor_len <= g.pool_bytes_spec() && vbyte::spec_decode_list(
            g.block_bytes(
                g.nodes_seq()[i].neighbor_offset as int,
                g.nodes_seq()[i].neighbor_len as int,
            ),
        ) == g.neighbor_list(i),
        g.nodes_seq()[i].neighbor_len == 0 ==> g.neighbor_list(i) == Seq::<u32>::empty(),
{
}

} // verus!
