//! Vector quantization for memory-efficient storage and fast
//! similarity computation.

pub mod variable;

pub use variable::{BinaryVector, QuantizationError};
