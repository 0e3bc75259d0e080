//! Building and running a node.

pub mod builder;
pub mod core_config;
pub mod events;
pub mod identity;
pub mod running;

pub use crate::node::builder::NodeBuilder;
pub use crate::node::running::RunningNode;
