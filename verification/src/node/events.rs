//! Events that a node reports.

use vstd::prelude::*;

verus! {

/// Something that happened to the node.
#[derive(Debug)]
pub enum NodeEvent {
    /// The node has started.
    Started,
    /// The node is shutting down.
    ShuttingDown,
    /// A newer version is available.
    UpgradeAvailable {
        /// The newer version.
        version: String,
    },
}

} // verus!
