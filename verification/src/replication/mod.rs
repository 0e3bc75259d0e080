//! Chunk replication: hint admission, quorum verification, fetching,
//! neighbor sync, audits and bootstrap tracking.

pub mod admission;
pub mod audit;
pub mod bootstrap;
pub mod engine;
pub mod fetch;
pub mod inbound;
pub mod protocol;
pub mod queues;
pub mod sync_state;
pub mod types;
pub mod verification;
