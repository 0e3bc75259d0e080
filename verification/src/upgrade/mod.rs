//! Upgrades of the node's own binary.

pub mod binary_cache;
pub mod monitor;
