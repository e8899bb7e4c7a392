//! The messages that nodes exchange and what a node does on each.

pub mod message;
pub mod protocol;
pub mod soundness;
pub mod sync;
pub mod worker;
