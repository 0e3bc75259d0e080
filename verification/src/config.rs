//! Configuration of a node.

use std::path::PathBuf;
use vstd::prelude::*;

verus! {

/// Name of the file that holds the identity of a node.
pub const NODE_IDENTITY_FILENAME: &'static str = "node_identity.key";

/// Name of the directory below the default root that holds one directory per
/// node.
pub const NODES_SUBDIR: &'static str = "nodes";

/// IP versions to listen on.
#[derive(Clone, Copy, Debug, PartialEq, Eq, Structural)]
pub enum IpVersion {
    /// IPv4 only.
    Ipv4,
    /// IPv6 only.
    Ipv6,
    /// Both.
    Dual,
}

/// How strictly the network's rules on peers are applied.
#[derive(Clone, Copy, Debug, PartialEq, Eq, Structural)]
pub enum NetworkMode {
    /// The public network.
    Production,
    /// A test network, with limits from [`TestnetConfig`].
    Testnet,
    /// A network on one machine.
    Development,
}

/// Limits of a test network.
#[derive(Clone, Copy, Debug)]
pub struct TestnetConfig {
    /// Most nodes of one autonomous system.
    pub max_nodes_per_asn: usize,
    /// Most nodes in one /64 subnet.
    pub max_nodes_per_64: usize,
    /// Whether nodes must have reached a certain age.
    pub enforce_age_requirements: bool,
    /// Whether the location of nodes is checked.
    pub enable_geo_checks: bool,
}

/// Which releases the node upgrades to.
#[derive(Clone, Copy, Debug, PartialEq, Eq, Structural)]
pub enum UpgradeChannel {
    /// Stable releases.
    Stable,
    /// Also beta releases.
    Beta,
}

/// Settings of automatic upgrades.
#[derive(Debug)]
pub struct UpgradeConfig {
    /// Whether the node upgrades itself.
    pub enabled: bool,
    /// Which releases it takes.
    pub channel: UpgradeChannel,
    /// Hours between two checks.
    pub check_interval_hours: u64,
    /// Repository that publishes the releases.
    pub github_repo: String,
    /// Hours over which a release is rolled out; 0 to take it at once.
    pub staged_rollout_hours: u64,
}

/// Settings of the bootstrap cache.
#[derive(Debug)]
pub struct BootstrapCacheConfig {
    /// Whether peers are remembered across restarts.
    pub enabled: bool,
    /// Where; by default below the root directory.
    pub cache_dir: Option<PathBuf>,
    /// Most peers that are remembered.
    pub max_contacts: usize,
}

/// Settings of chunk storage.
#[derive(Clone, Copy, Debug)]
pub struct StorageConfig {
    /// Whether the node stores chunks.
    pub enabled: bool,
    /// Most chunks that are stored.
    pub max_chunks: usize,
    /// Whether content is verified when it is read.
    pub verify_on_read: bool,
    /// Size of the database in gibibytes.
    pub db_size_gb: usize,
}

/// Network on which payments are made, as configured.
#[derive(Clone, Copy, Debug, PartialEq, Eq, Structural)]
pub enum EvmNetworkConfig {
    /// The main network.
    ArbitrumOne,
    /// The test network.
    ArbitrumSepolia,
}

/// Settings of payments.
#[derive(Debug)]
pub struct PaymentConfig {
    /// Whether payments are verified.
    pub enabled: bool,
    /// Verified payments that are remembered.
    pub cache_capacity: usize,
    /// Address to which rewards go.
    pub rewards_address: Option<String>,
    /// Network on which payments are made.
    pub evm_network: EvmNetworkConfig,
}

/// Configuration of a node.
#[derive(Debug)]
pub struct NodeConfig {
    /// Directory of the node.
    pub root_dir: PathBuf,
    /// Port to listen on; 0 to let the system choose.
    pub port: u16,
    /// IP versions to listen on.
    pub ip_version: IpVersion,
    /// Addresses of the first peers to contact.
    pub bootstrap: Vec<String>,
    /// How strictly the network's rules on peers are applied.
    pub network_mode: NetworkMode,
    /// Limits of a test network.
    pub testnet: TestnetConfig,
    /// Settings of automatic upgrades.
    pub upgrade: UpgradeConfig,
    /// Settings of payments.
    pub payment: PaymentConfig,
    /// Settings of the bootstrap cache.
    pub bootstrap_cache: BootstrapCacheConfig,
    /// Settings of chunk storage.
    pub storage: StorageConfig,
    /// Most bytes of one message.
    pub max_message_size: usize,
}

} // verus!
