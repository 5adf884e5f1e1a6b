//! The multi-layer navigable graph: configuration, node table, and the
//! compressed neighbor pool that backs the adjacency lists.

pub mod config;
pub mod graph;
pub mod neighbor;
pub mod vbyte;

pub use config::HnswConfig;
pub use graph::{GraphError, HnswIndex, HnswNode, Layer, NodeId, VectorId};
pub use neighbor::NeighborPool;
