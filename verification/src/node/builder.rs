//! Building a node from its configuration.

use crate::config::{EvmNetworkConfig, NodeConfig};
use crate::error::{Error, ErrorModel};
use crate::node::core_config::{core_of, create_core_config, CoreConfig, CoreModel};
use crate::node::identity::node_id_to_peer_id;
use crate::node::running::{NodeModel, RunningNode};
use crate::paths::Location;
use crate::text::{hex_chars, join};
use crate::upgrade::monitor::{MonitorModel, ReleaseCache, UpgradeMonitor};
use std::path::PathBuf;
use std::sync::Arc;
use vstd::prelude::*;

verus! {

/// Most records for quoting metrics.
pub const DEFAULT_MAX_QUOTING_RECORDS: usize = 100_000;

/// Bytes in a gibibyte.
pub const GIBIBYTE: usize = 1_073_741_824;

/// Seconds for which the list of releases is taken at its word.
pub const RELEASE_CACHE_TTL_SECS: u64 = 3600;

/// Network on which payments are made.
#[derive(Clone, Copy, Debug, PartialEq, Eq, Structural)]
pub enum EvmNetwork {
    /// The main network.
    ArbitrumOne,
    /// The test network.
    ArbitrumSepoliaTest,
}

/// Settings of the chunk database.
#[derive(Debug)]
pub struct LmdbStorageConfig<'a> {
    /// Directory of the node.
    pub root_dir: &'a PathBuf,
    /// Whether content is verified when it is read.
    pub verify_on_read: bool,
    /// Most chunks that are stored.
    pub max_chunks: usize,
    /// Size of the database in bytes.
    pub max_map_size: usize,
}

/// Settings of the chunk protocol besides the database.
#[derive(Clone, Copy, Debug)]
pub struct AntProtocolConfig {
    /// Whether payments are verified.
    pub verify_payments: bool,
    /// Network on which payments are made.
    pub evm_network: EvmNetwork,
    /// Verified payments that are remembered.
    pub cache_capacity: usize,
    /// Address to which rewards go.
    pub rewards_address: [u8; 20],
    /// Most records for quoting metrics.
    pub max_quoting_records: usize,
}

/// Settings of the bootstrap cache.
#[derive(Clone, Copy, Debug, PartialEq, Eq, Structural)]
pub struct BootstrapManagerConfig {
    /// Most peers that are remembered.
    pub max_peers: usize,
}

/// What to do next to build the node.
#[derive(Clone, Copy, Debug, PartialEq, Eq, Structural)]
pub enum BuildAction {
    /// Create the root directory.
    CreateRootDir,
    /// Create the peer-to-peer node.
    CreateP2pNode,
    /// Build the upgrade monitor.
    BuildUpgradeMonitor,
    /// Build the bootstrap cache manager.
    BuildBootstrapManager,
    /// Build the chunk protocol.
    BuildAntProtocol,
    /// Everything is there.
    Finish,
}

/// How building the node has gone so far, from the moment its identity is known.
#[derive(Debug)]
pub struct BuildProgress {
    /// How creating the root directory went.
    pub root_dir: Option<Result<(), String>>,
    /// How creating the peer-to-peer node went.
    pub p2p_node: Option<Result<(), String>>,
    /// Whether the upgrade monitor was built.
    pub upgrade_monitor: bool,
    /// Whether building the bootstrap cache manager was tried.
    pub bootstrap_manager: bool,
    /// Whether the chunk protocol was built.
    pub ant_protocol: bool,
}

/// The next step of building a node: first what every node has, then the parts
/// that are switched on.
pub open spec fn build_next(config: NodeConfig, p: BuildProgress) -> Result<
    BuildAction,
    ErrorModel,
> {
    match p.root_dir {
        None => Ok(BuildAction::CreateRootDir),
        Some(Err(e)) => Err(ErrorModel::Io(e@)),
        Some(Ok(_)) => match p.p2p_node {
            None => Ok(BuildAction::CreateP2pNode),
            Some(Err(e)) => Err(ErrorModel::Startup("Failed to create P2P node: "@ + e@)),
            Some(Ok(_)) => if config.upgrade.enabled && !p.upgrade_monitor {
                Ok(BuildAction::BuildUpgradeMonitor)
            } else if config.bootstrap_cache.enabled && !p.bootstrap_manager {
                Ok(BuildAction::BuildBootstrapManager)
            } else if config.storage.enabled && !p.ant_protocol {
                Ok(BuildAction::BuildAntProtocol)
            } else {
                Ok(BuildAction::Finish)
            },
        },
    }
}

/// Size of the chunk database in bytes, as far as the machine can express it.
pub open spec fn map_size(db_size_gb: usize) -> usize {
    if db_size_gb * GIBIBYTE <= usize::MAX {
        (db_size_gb * GIBIBYTE) as usize
    } else {
        usize::MAX
    }
}

/// Network on which payments are made.
pub open spec fn evm_network_of(network: EvmNetworkConfig) -> EvmNetwork {
    match network {
        EvmNetworkConfig::ArbitrumOne => EvmNetwork::ArbitrumOne,
        EvmNetworkConfig::ArbitrumSepolia => EvmNetwork::ArbitrumSepoliaTest,
    }
}

/// Builds a node.
pub struct NodeBuilder {
    config: NodeConfig,
}

impl NodeBuilder {
    /// Configuration of the node.
    pub closed spec fn config(&self) -> NodeConfig {
        self.config
    }

    /// Create a builder for the given configuration.
    #[must_use]
    pub fn new(config: NodeConfig) -> (builder: Self)
        ensures
            builder.config() == config,
    {
        NodeBuilder { config }
    }

    /// The configuration that the node is built from.
    #[must_use]
    pub fn settings(&self) -> (config: &NodeConfig)
        ensures
            *config == self.config(),
    {
        &self.config
    }

    /// Take over the root directory that goes with the identity.
    pub fn set_root_dir(&mut self, root_dir: PathBuf)
        ensures
            final(self).config() == (NodeConfig { root_dir, ..old(self).config() }),
    {
        self.config.root_dir = root_dir;
    }

    /// Decide what to do next to build the node.
    pub fn build(&self, progress: &BuildProgress) -> (r: Result<BuildAction, Error>)
        ensures
            match r {
                Ok(action) => build_next(self.config(), *progress) == Ok::<
                    BuildAction,
                    ErrorModel,
                >(action),
                Err(e) => build_next(self.config(), *progress) == Err::<BuildAction, ErrorModel>(
                    e@,
                ),
            },
    {
        match &progress.root_dir {
            None => {
                return Ok(BuildAction::CreateRootDir);
            },
            Some(Err(e)) => {
                return Err(Error::Io(e.clone()));
            },
            Some(Ok(_)) => {},
        }
        match &progress.p2p_node {
            None => {
                return Ok(BuildAction::CreateP2pNode);
            },
            Some(Err(e)) => {
                return Err(Error::Startup(join("Failed to create P2P node: ", e.as_str())));
            },
            Some(Ok(_)) => {},
        }
        if self.config.upgrade.enabled && !progress.upgrade_monitor {
            Ok(BuildAction::BuildUpgradeMonitor)
        } else if self.config.bootstrap_cache.enabled && !progress.bootstrap_manager {
            Ok(BuildAction::BuildBootstrapManager)
        } else if self.config.storage.enabled && !progress.ant_protocol {
            Ok(BuildAction::BuildAntProtocol)
        } else {
            Ok(BuildAction::Finish)
        }
    }

    /// Assemble the node from the parts that were built.
    pub fn finish<C>(
        self,
        events: C,
        upgrade_monitor: Option<Arc<UpgradeMonitor>>,
        has_bootstrap_manager: bool,
        has_ant_protocol: bool,
    ) -> (node: RunningNode<C>)
        ensures
            node@ == (NodeModel {
                config: self.config(),
                shutdown_requested: false,
                events: Some(events),
                upgrade_monitor,
                has_bootstrap_manager,
                has_ant_protocol,
                routing: false,
            }),
    {
        RunningNode::assemble(
            self.config,
            events,
            upgrade_monitor,
            has_bootstrap_manager,
            has_ant_protocol,
        )
    }

    /// Derive the settings of the peer-to-peer layer. It fails only where
    /// creating the layer's own configuration does, which never happens.
    pub fn build_core_config(config: &NodeConfig) -> (r: Result<CoreConfig, Error>)
        ensures
            r matches Ok(core) && core@ == core_of(*config),
    {
        create_core_config(config)
    }

    /// Settings of the peer-to-peer layer for the node with the given id.
    pub fn core_config_for(&self, node_id: &[u8; 32]) -> (r: Result<CoreConfig, Error>)
        ensures
            r matches Ok(core) && core@ == (CoreModel {
                peer_id: Some(hex_chars(node_id@)),
                ..core_of(self.config())
            }),
    {
        match Self::build_core_config(&self.config) {
            Ok(mut core) => {
                core.peer_id = Some(node_id_to_peer_id(node_id));
                Ok(core)
            },
            Err(e) => Err(e),
        }
    }

    /// Build the upgrade monitor. `cache_dir` is the directory for upgrade
    /// files, where there is one; releases are spread over time if hours are
    /// configured for that.
    pub fn build_upgrade_monitor(
        config: &NodeConfig,
        node_id_seed: &[u8],
        cache_dir: Option<PathBuf>,
    ) -> (monitor: Arc<UpgradeMonitor>)
        ensures
            monitor@ == (MonitorModel {
                github_repo: config.upgrade.github_repo@,
                channel: config.upgrade.channel,
                check_interval_hours: config.upgrade.check_interval_hours,
                release_cache: match cache_dir {
                    Some(dir) => Some(
                        ReleaseCache { cache_dir: dir, ttl_secs: RELEASE_CACHE_TTL_SECS },
                    ),
                    None => None,
                },
                staged_rollout: if config.upgrade.staged_rollout_hours > 0 {
                    Some((node_id_seed@, config.upgrade.staged_rollout_hours))
                } else {
                    None
                },
            }),
            monitor@.release_cache matches Some(cache) ==> cache.ttl_secs == 60 * 60,
    {
        let mut monitor = UpgradeMonitor::new(
            config.upgrade.github_repo.clone(),
            config.upgrade.channel,
            config.upgrade.check_interval_hours,
        );
        match cache_dir {
            Some(dir) => {
                monitor =
                monitor.with_release_cache(
                    ReleaseCache { cache_dir: dir, ttl_secs: RELEASE_CACHE_TTL_SECS },
                );
            },
            None => {},
        }
        if config.upgrade.staged_rollout_hours > 0 {
            monitor =
            monitor.with_staged_rollout(node_id_seed, config.upgrade.staged_rollout_hours);
        }
        Arc::new(monitor)
    }

    /// Settings of the chunk database.
    pub fn storage_config(config: &NodeConfig) -> (r: LmdbStorageConfig<'_>)
        ensures
            *r.root_dir == config.root_dir,
            r.verify_on_read == config.storage.verify_on_read,
            r.max_chunks == config.storage.max_chunks,
            r.max_map_size == map_size(config.storage.db_size_gb),
    {
        let max_map_size = match config.storage.db_size_gb.checked_mul(GIBIBYTE) {
            Some(n) => n,
            None => usize::MAX,
        };
        LmdbStorageConfig {
            root_dir: &config.root_dir,
            verify_on_read: config.storage.verify_on_read,
            max_chunks: config.storage.max_chunks,
            max_map_size,
        }
    }

    /// Settings of the chunk protocol, given how opening the database went and
    /// what parsing the configured rewards address gave. Without a configured
    /// address, rewards go to the zero address and `parsed` is not looked at.
    pub fn build_ant_protocol(
        config: &NodeConfig,
        storage: Result<(), String>,
        parsed: Result<[u8; 20], Error>,
    ) -> (r: Result<AntProtocolConfig, Error>)
        ensures
            match storage {
                Err(e) => r matches Err(err) && err@ == ErrorModel::Startup(
                    "Failed to create LMDB storage: "@ + e@,
                ),
                Ok(_) => if config.payment.rewards_address is Some && parsed is Err {
                    r matches Err(err) && err == parsed->Err_0
                } else {
                    &&& r matches Ok(protocol)
                    &&& protocol.verify_payments == config.payment.enabled
                    &&& protocol.evm_network == evm_network_of(config.payment.evm_network)
                    &&& protocol.cache_capacity == config.payment.cache_capacity
                    &&& protocol.max_quoting_records == DEFAULT_MAX_QUOTING_RECORDS
                    &&& protocol.max_quoting_records == 100_000
                    &&& protocol.rewards_address@ == if config.payment.rewards_address is Some {
                        parsed->Ok_0@
                    } else {
                        Seq::new(20, |i: int| 0u8)
                    }
                },
            },
    {
        match storage {
            Err(e) => {
                return Err(Error::Startup(join("Failed to create LMDB storage: ", e.as_str())));
            },
            Ok(_) => {},
        }
        let evm_network = match config.payment.evm_network {
            EvmNetworkConfig::ArbitrumOne => EvmNetwork::ArbitrumOne,
            EvmNetworkConfig::ArbitrumSepolia => EvmNetwork::ArbitrumSepoliaTest,
        };
        let rewards_address: [u8; 20] = if config.payment.rewards_address.is_some() {
            match parsed {
                Ok(address) => address,
                Err(e) => {
                    return Err(e);
                },
            }
        } else {
            [0u8;20]
        };
        let r = AntProtocolConfig {
            verify_payments: config.payment.enabled,
            evm_network,
            cache_capacity: config.payment.cache_capacity,
            rewards_address,
            max_quoting_records: DEFAULT_MAX_QUOTING_RECORDS,
        };
        assert(config.payment.rewards_address is None ==> r.rewards_address@ =~= Seq::new(
            20,
            |i: int| 0u8,
        ));
        Ok(r)
    }

    /// Directory of the bootstrap cache: the configured one, or one below the
    /// root directory.
    pub fn bootstrap_cache_dir(config: &NodeConfig) -> (dir: Location<'_>)
        ensures
            match config.bootstrap_cache.cache_dir {
                Some(configured) => dir.is_at(configured),
                None => dir.is_under(config.root_dir, "bootstrap_cache"@),
            },
    {
        match &config.bootstrap_cache.cache_dir {
            Some(dir) => Location::At(dir),
            None => Location::Under(&config.root_dir, "bootstrap_cache".to_owned()),
        }
    }

    /// Settings of the bootstrap cache manager, given whether its directory
    /// could be created. The node goes without the cache where it could not.
    pub fn build_bootstrap_manager(config: &NodeConfig, dir_created: bool) -> (r: Option<
        BootstrapManagerConfig,
    >)
        ensures
            r == if dir_created {
                Some(BootstrapManagerConfig { max_peers: config.bootstrap_cache.max_contacts })
            } else {
                None
            },
    {
        if dir_created {
            Some(BootstrapManagerConfig { max_peers: config.bootstrap_cache.max_contacts })
        } else {
            None
        }
    }

    /// Whether the node has a bootstrap cache manager, given its settings and
    /// how starting it with them went. Without settings it is not started, and
    /// a manager that fails to start is done without.
    pub fn keeps_bootstrap_manager(
        settings: &Option<BootstrapManagerConfig>,
        started: &Option<Result<(), String>>,
    ) -> (r: bool)
        ensures
            r == (settings is Some && started is Some && started->0 is Ok),
    {
        match (settings, started) {
            (Some(_), Some(Ok(_))) => true,
            _ => false,
        }
    }
}

/// Building finishes exactly when the root directory and the peer-to-peer node
/// are there and every part that is switched on was built; a part that is
/// switched off is never built.
pub proof fn lemma_build_finishes_iff(config: NodeConfig, p: BuildProgress)
    ensures
        build_next(config, p) == Ok::<BuildAction, ErrorModel>(BuildAction::Finish) <==> {
            &&& p.root_dir matches Some(Ok(_))
            &&& p.p2p_node matches Some(Ok(_))
            &&& config.upgrade.enabled ==> p.upgrade_monitor
            &&& config.bootstrap_cache.enabled ==> p.bootstrap_manager
            &&& config.storage.enabled ==> p.ant_protocol
        },
        build_next(config, p) == Ok::<BuildAction, ErrorModel>(BuildAction::BuildUpgradeMonitor)
            ==> config.upgrade.enabled,
        build_next(config, p) == Ok::<BuildAction, ErrorModel>(BuildAction::BuildBootstrapManager)
            ==> config.bootstrap_cache.enabled,
        build_next(config, p) == Ok::<BuildAction, ErrorModel>(BuildAction::BuildAntProtocol)
            ==> config.storage.enabled,
{
}

/// The order in which a node is built, and what stops it. The root directory
/// comes first, then the peer-to-peer node, then the upgrade monitor, the
/// bootstrap cache and the chunk protocol, each only where it is switched on and
/// not built yet. Without the directory or the peer-to-peer node there is no
/// node.
pub proof fn lemma_build_order(config: NodeConfig, p: BuildProgress)
    ensures
        ({
            let next = build_next(config, p);
            let founded = (p.root_dir matches Some(Ok(_))) && (p.p2p_node matches Some(Ok(_)));
            let monitor_due = config.upgrade.enabled && !p.upgrade_monitor;
            let manager_due = config.bootstrap_cache.enabled && !p.bootstrap_manager;
            let protocol_due = config.storage.enabled && !p.ant_protocol;
            &&& next == Ok::<BuildAction, ErrorModel>(BuildAction::CreateRootDir)
                <==> p.root_dir is None
            &&& p.root_dir matches Some(Err(e)) ==> next == Err::<BuildAction, ErrorModel>(
                ErrorModel::Io(e@),
            )
            &&& next == Ok::<BuildAction, ErrorModel>(BuildAction::CreateP2pNode) <==> (
            p.root_dir matches Some(Ok(_))) && p.p2p_node is None
            &&& p.p2p_node matches Some(Err(e)) ==> p.root_dir is Some && p.root_dir->0 is Ok
                ==> next == Err::<BuildAction, ErrorModel>(
                ErrorModel::Startup("Failed to create P2P node: "@ + e@),
            )
            &&& next == Ok::<BuildAction, ErrorModel>(BuildAction::BuildUpgradeMonitor)
                <==> founded && monitor_due
            &&& next == Ok::<BuildAction, ErrorModel>(BuildAction::BuildBootstrapManager)
                <==> founded && !monitor_due && manager_due
            &&& next == Ok::<BuildAction, ErrorModel>(BuildAction::BuildAntProtocol) <==> founded
                && !monitor_due && !manager_due && protocol_due
            &&& next == Ok::<BuildAction, ErrorModel>(BuildAction::Finish) <==> founded
                && !monitor_due && !manager_due && !protocol_due
        }),
{
}

/// A database of so many gibibytes has that many times 1024 cubed bytes, or as
/// many as the machine can count if that is fewer. More gibibytes never make it
/// smaller.
pub proof fn lemma_map_size_counts_gibibytes(db_size_gb: usize, more: usize)
    ensures
        db_size_gb * (1024 * 1024 * 1024) <= usize::MAX ==> map_size(db_size_gb) == db_size_gb * (
        1024 * 1024 * 1024),
        db_size_gb * (1024 * 1024 * 1024) > usize::MAX ==> map_size(db_size_gb) == usize::MAX,
        db_size_gb <= more ==> map_size(db_size_gb) <= map_size(more),
{
}

/// Payments are made on the configured network and on no other.
pub proof fn lemma_payment_network_is_the_configured_one(network: EvmNetworkConfig)
    ensures
        evm_network_of(network) is ArbitrumOne <==> network is ArbitrumOne,
        evm_network_of(network) is ArbitrumSepoliaTest <==> network is ArbitrumSepolia,
{
}

} // verus!
