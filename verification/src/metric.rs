//! Distance metrics for vector comparison: scalar integer kernels and
//! Hamming distance over packed binary vectors.

pub mod hamming;
pub mod scalar;

pub use hamming::Hamming;
