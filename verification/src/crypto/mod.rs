//! Digests and the primitives that produce them.

pub mod hash;
pub mod key_pair;
pub mod merkle;
