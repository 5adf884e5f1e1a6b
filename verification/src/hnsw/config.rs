//! Build-time configuration of the graph.

use vstd::prelude::*;

verus! {

/// Parameters fixed when an index is built.
#[derive(Clone, Copy, Debug)]
pub struct HnswConfig {
    /// Maximum neighbors per node on layers above zero.
    pub m: u32,
    /// Maximum neighbors per node on layer zero.
    pub m0: u32,
    /// Beam width while building.
    pub ef_construction: u32,
    /// Beam width while searching.
    pub ef_search: u32,
    /// Vector dimensionality.
    pub dimensions: u32,
    /// Distance metric selector (0 = L2 squared).
    pub metric: u8,
    /// Reserved for future use.
    pub _reserved: [u8; 2],
}

impl HnswConfig {
    /// The default configuration for the given dimensionality.
    pub fn new(dimensions: u32) -> (r: Self)
        ensures
            r.m == 12,
            r.m0 == 24,
            r.ef_construction == 200,
            r.ef_search == 50,
            r.dimensions == dimensions,
            r.metric == 0,
    {
        HnswConfig {
            m: 12,
            m0: 24,
            ef_construction: 200,
            ef_search: 50,
            dimensions,
            metric: 0,
            _reserved: [0u8, 0u8],
        }
    }
}

} // verus!
