//! An embedded approximate-nearest-neighbor vector index: a navigable
//! multi-layer graph over vectors with compressed adjacency lists, a
//! free-list pool backing those lists, binary-quantized vector storage
//! with tombstones, a brute-force binary index, and a crash-safe
//! persistence layer (versioned snapshot header plus an append-only
//! write-ahead log, both CRC-verified).

pub mod flat;
pub mod hnsw;
pub mod metric;
pub mod persistence;
pub mod quantization;
pub mod storage;
