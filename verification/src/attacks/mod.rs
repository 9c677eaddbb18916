//! Attack sets of every piece kind.
pub mod manual;
pub mod precomputed;
pub mod relevant_mask;
pub mod magic;
pub mod magic_bytes;
