//! Decision core of a storage node: node start-up, upgrade-binary caching and
//! chunk replication.
//!
//! The embedding program performs network, disk and clock work and hands the
//! results in as plain values; this crate decides what follows from them.

pub mod bytemap;
pub mod config;
pub mod error;
pub mod ids;
pub mod node;
pub mod paths;
pub mod replication;
pub mod seqs;
pub mod text;
pub mod upgrade;
