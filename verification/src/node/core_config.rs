//! Settings of the peer-to-peer layer, derived from the node's configuration.

use crate::config::{IpVersion, NetworkMode, NodeConfig, TestnetConfig};
use crate::error::{Error, ErrorModel};
use crate::text::{
    copy_texts, decimal, decimal_chars, decimal_value, join, lemma_decimal_reads_back, text_views,
};
use vstd::prelude::*;

verus! {

/// Most peers that may share an address or a subnet. `None` leaves it to the
/// peer-to-peer layer.
#[derive(Clone, Copy, Debug, PartialEq, Eq)]
pub struct DiversityLimits {
    /// Most peers on one address.
    pub max_per_ip: Option<usize>,
    /// Most peers in one subnet.
    pub max_per_subnet: Option<usize>,
}

/// Calls `saorsa_core::IPDiversityConfig::default`, which sets no limit of its
/// own.
#[verifier::external_body]
fn default_limits() -> (limits: DiversityLimits)
    ensures
        limits.max_per_ip is None,
        limits.max_per_subnet is None,
{
    let c = saorsa_core::IPDiversityConfig::default();
    DiversityLimits { max_per_ip: c.max_per_ip, max_per_subnet: c.max_per_subnet }
}

/// Calls `saorsa_core::IPDiversityConfig::testnet`, which lifts both limits.
#[verifier::external_body]
fn testnet_limits() -> (limits: DiversityLimits)
    ensures
        limits.max_per_ip == Some(usize::MAX),
        limits.max_per_subnet == Some(usize::MAX),
{
    let c = saorsa_core::IPDiversityConfig::testnet();
    DiversityLimits { max_per_ip: c.max_per_ip, max_per_subnet: c.max_per_subnet }
}

/// Calls `saorsa_core::IPDiversityConfig::permissive`, which lifts both limits.
#[verifier::external_body]
fn permissive_limits() -> (limits: DiversityLimits)
    ensures
        limits.max_per_ip == Some(usize::MAX),
        limits.max_per_subnet == Some(usize::MAX),
{
    let c = saorsa_core::IPDiversityConfig::permissive();
    DiversityLimits { max_per_ip: c.max_per_ip, max_per_subnet: c.max_per_subnet }
}

/// Calls `saorsa_core::NodeConfig::new`, which creates the configuration of the
/// peer-to-peer layer with its default values and does not fail. Only the outcome
/// is handed on; the values are the layer's own affair.
#[verifier::external_body]
fn create_layer_config() -> (r: Result<(), String>)
    ensures
        r is Ok,
{
    saorsa_core::NodeConfig::new().map(|_| ()).map_err(|e| e.to_string())
}

/// Limits that a test network puts in place of the usual ones.
#[derive(Clone, Copy, Debug, PartialEq, Eq)]
pub struct TestnetDiversity {
    /// Most nodes of one autonomous system.
    pub max_nodes_per_asn: usize,
    /// Most nodes in one /64 subnet.
    pub max_nodes_per_64: usize,
    /// Whether the location of nodes is checked.
    pub enable_geolocation_check: bool,
    /// Regions that must be represented.
    pub min_geographic_diversity: usize,
}

/// How varied the peers must be.
#[derive(Clone, Copy, Debug, PartialEq, Eq)]
pub struct DiversityConfig {
    /// Limits on addresses and subnets.
    pub limits: DiversityLimits,
    /// Limits of a test network.
    pub testnet: Option<TestnetDiversity>,
}

impl DiversityConfig {
    /// Whether no limit on addresses and subnets is left.
    pub open spec fn relaxed(self) -> bool {
        self.limits.max_per_ip == Some(usize::MAX) && self.limits.max_per_subnet == Some(
            usize::MAX,
        )
    }

    /// Whether no limit on addresses and subnets is left.
    #[must_use]
    pub fn is_relaxed(&self) -> (r: bool)
        ensures
            r == self.relaxed(),
    {
        match (self.limits.max_per_ip, self.limits.max_per_subnet) {
            (Some(ip), Some(subnet)) => ip == usize::MAX && subnet == usize::MAX,
            _ => false,
        }
    }
}

/// Marks that the peer-to-peer layer runs with its default production settings.
#[derive(Clone, Copy, Debug, PartialEq, Eq, Structural)]
pub struct ProductionConfig;

/// Settings of the peer-to-peer layer.
#[derive(Debug)]
pub struct CoreConfig {
    /// Address to listen on.
    pub listen_addr: String,
    /// All addresses to listen on: the one above.
    pub listen_addrs: Vec<String>,
    /// Whether IPv6 is used.
    pub enable_ipv6: bool,
    /// Addresses of the first peers to contact.
    pub bootstrap_peers: Vec<String>,
    /// Most bytes of one message.
    pub max_message_size: Option<usize>,
    /// Production settings, if they apply.
    pub production_config: Option<ProductionConfig>,
    /// How varied the peers must be.
    pub diversity_config: Option<DiversityConfig>,
    /// Identity of the node.
    pub peer_id: Option<String>,
}

/// Mathematical content of a [`CoreConfig`].
#[verifier::ext_equal]
pub struct CoreModel {
    pub listen_addr: Seq<char>,
    pub listen_addrs: Seq<Seq<char>>,
    pub enable_ipv6: bool,
    pub bootstrap_peers: Seq<Seq<char>>,
    pub max_message_size: Option<usize>,
    pub production_config: Option<ProductionConfig>,
    pub diversity_config: Option<DiversityConfig>,
    pub peer_id: Option<Seq<char>>,
}

impl View for CoreConfig {
    type V = CoreModel;

    open spec fn view(&self) -> CoreModel {
        CoreModel {
            listen_addr: self.listen_addr@,
            listen_addrs: text_views(self.listen_addrs@),
            enable_ipv6: self.enable_ipv6,
            bootstrap_peers: text_views(self.bootstrap_peers@),
            max_message_size: self.max_message_size,
            production_config: self.production_config,
            diversity_config: self.diversity_config,
            peer_id: match self.peer_id {
                Some(p) => Some(p@),
                None => None,
            },
        }
    }
}

/// Address to listen on: all interfaces, on the configured port.
pub open spec fn listen_text(ip_version: IpVersion, port: u16) -> Seq<char> {
    match ip_version {
        IpVersion::Ipv4 | IpVersion::Dual => "0.0.0.0:"@ + decimal_chars(port as nat),
        IpVersion::Ipv6 => "[::]:"@ + decimal_chars(port as nat),
    }
}

/// Limits of a test network as configured.
pub open spec fn testnet_diversity(testnet: TestnetConfig) -> TestnetDiversity {
    TestnetDiversity {
        max_nodes_per_asn: testnet.max_nodes_per_asn,
        max_nodes_per_64: testnet.max_nodes_per_64,
        enable_geolocation_check: testnet.enable_geo_checks,
        min_geographic_diversity: if testnet.enable_geo_checks {
            3
        } else {
            1
        },
    }
}

/// How varied the peers must be in each network mode.
pub open spec fn diversity_of(mode: NetworkMode, testnet: TestnetConfig) -> DiversityConfig {
    let lifted = DiversityLimits {
        max_per_ip: Some(usize::MAX),
        max_per_subnet: Some(usize::MAX),
    };
    match mode {
        NetworkMode::Production => DiversityConfig {
            limits: DiversityLimits { max_per_ip: None, max_per_subnet: None },
            testnet: None,
        },
        NetworkMode::Testnet => DiversityConfig {
            limits: lifted,
            testnet: Some(testnet_diversity(testnet)),
        },
        NetworkMode::Development => DiversityConfig { limits: lifted, testnet: None },
    }
}

/// Settings of the peer-to-peer layer for a node configuration.
pub open spec fn core_of(config: NodeConfig) -> CoreModel {
    CoreModel {
        listen_addr: listen_text(config.ip_version, config.port),
        listen_addrs: seq![listen_text(config.ip_version, config.port)],
        enable_ipv6: config.ip_version is Ipv6 || config.ip_version is Dual,
        bootstrap_peers: text_views(config.bootstrap@),
        max_message_size: Some(config.max_message_size),
        production_config: if config.network_mode is Development {
            None
        } else {
            Some(ProductionConfig)
        },
        diversity_config: Some(diversity_of(config.network_mode, config.testnet)),
        peer_id: None,
    }
}

/// Derive the settings of the peer-to-peer layer, creating the layer's own
/// configuration first.
pub(crate) fn create_core_config(config: &NodeConfig) -> (r: Result<CoreConfig, Error>)
    ensures
        r matches Ok(core) && core@ == core_of(*config),
{
    let created = create_layer_config();
    derive_core_config(config, &created)
}

/// Derive the settings of the peer-to-peer layer. `created` tells how creating
/// the layer's own configuration went.
pub fn derive_core_config(config: &NodeConfig, created: &Result<(), String>) -> (r: Result<
    CoreConfig,
    Error,
>)
    ensures
        match *created {
            Ok(_) => r matches Ok(core) && core@ == core_of(*config),
            Err(e) => r matches Err(err) && err@ == ErrorModel::Config(
                "Failed to create core config: "@ + e@,
            ),
        },
{
    match created {
        Ok(_) => {},
        Err(e) => {
            return Err(Error::Config(join("Failed to create core config: ", e.as_str())));
        },
    }
    let port = decimal(config.port as u64);
    let (listen_addr, enable_ipv6): (String, bool) = match config.ip_version {
        IpVersion::Ipv4 => (join("0.0.0.0:", port.as_str()), false),
        IpVersion::Dual => (join("0.0.0.0:", port.as_str()), true),
        IpVersion::Ipv6 => (join("[::]:", port.as_str()), true),
    };
    let (production_config, diversity): (Option<ProductionConfig>, DiversityConfig) =
        match config.network_mode {
        NetworkMode::Production => (
            Some(ProductionConfig),
            DiversityConfig { limits: default_limits(), testnet: None },
        ),
        NetworkMode::Testnet => {
            let testnet = TestnetDiversity {
                max_nodes_per_asn: config.testnet.max_nodes_per_asn,
                max_nodes_per_64: config.testnet.max_nodes_per_64,
                enable_geolocation_check: config.testnet.enable_geo_checks,
                min_geographic_diversity: if config.testnet.enable_geo_checks {
                    3
                } else {
                    1
                },
            };
            (
                Some(ProductionConfig),
                DiversityConfig { limits: testnet_limits(), testnet: Some(testnet) },
            )
        },
        NetworkMode::Development => (
            None,
            DiversityConfig { limits: permissive_limits(), testnet: None },
        ),
    };
    let mut listen_addrs: Vec<String> = Vec::new();
    listen_addrs.push(listen_addr.clone());
    assert(text_views(listen_addrs@) =~= seq![listen_addr@]);
    Ok(
        CoreConfig {
            listen_addr,
            listen_addrs,
            enable_ipv6,
            bootstrap_peers: copy_texts(&config.bootstrap),
            max_message_size: Some(config.max_message_size),
            production_config,
            diversity_config: Some(diversity),
            peer_id: None,
        },
    )
}

/// The node listens on the one address, and on nothing else.
pub proof fn lemma_one_listen_address(config: NodeConfig)
    ensures
        core_of(config).listen_addrs == seq![core_of(config).listen_addr],
{
}

/// Production settings and limits on peers are given up in development mode
/// only, and limits on addresses and subnets are kept in production only.
pub proof fn lemma_modes(config: NodeConfig)
    ensures
        core_of(config).production_config is None <==> config.network_mode is Development,
        core_of(config).diversity_config is Some,
        core_of(config).diversity_config->0.relaxed() <==> !(config.network_mode is Production),
        core_of(config).diversity_config->0.testnet is Some <==> config.network_mode is Testnet,
{
}

/// The node listens on every interface, on the configured port: on IPv6 alone
/// when that is the only version, and on IPv4 otherwise. IPv6 is in use unless
/// the node is restricted to IPv4.
pub proof fn lemma_listens_on_the_configured_port(config: NodeConfig)
    ensures
        ({
            let core = core_of(config);
            let port = decimal_chars(config.port as nat);
            &&& config.ip_version is Ipv4 ==> core.listen_addr == "0.0.0.0:"@ + port
            &&& config.ip_version is Dual ==> core.listen_addr == "0.0.0.0:"@ + port
            &&& config.ip_version is Ipv6 ==> core.listen_addr == "[::]:"@ + port
            &&& core.listen_addrs.len() == 1
            &&& core.listen_addrs[0] == core.listen_addr
            &&& !core.enable_ipv6 <==> config.ip_version is Ipv4
            &&& decimal_value(port) == config.port
        }),
{
    lemma_decimal_reads_back(config.port as nat);
}

/// What the peer-to-peer layer is told besides. The first peers and the largest
/// message are the configured ones. In production both limits on addresses are
/// the layer's own; otherwise they are lifted. A test network brings its own
/// limits, and asks for peers of three regions where it checks locations.
pub proof fn lemma_core_settings_follow_the_mode(config: NodeConfig, i: int)
    ensures
        ({
            let core = core_of(config);
            let diversity = core.diversity_config->0;
            &&& core.bootstrap_peers.len() == config.bootstrap@.len()
            &&& 0 <= i < config.bootstrap@.len() ==> core.bootstrap_peers[i]
                == config.bootstrap@[i]@
            &&& core.max_message_size == Some(config.max_message_size)
            &&& core.peer_id is None
            &&& core.production_config is Some <==> config.network_mode is Production
                || config.network_mode is Testnet
            &&& core.diversity_config is Some
            &&& config.network_mode is Production ==> diversity.limits.max_per_ip is None
                && diversity.limits.max_per_subnet is None
            &&& !(config.network_mode is Production) ==> diversity.limits.max_per_ip == Some(
                usize::MAX,
            ) && diversity.limits.max_per_subnet == Some(usize::MAX)
            &&& !(config.network_mode is Testnet) ==> diversity.testnet is None
            &&& config.network_mode is Testnet ==> {
                &&& diversity.testnet is Some
                &&& diversity.testnet->0.max_nodes_per_asn == config.testnet.max_nodes_per_asn
                &&& diversity.testnet->0.max_nodes_per_64 == config.testnet.max_nodes_per_64
                &&& diversity.testnet->0.enable_geolocation_check
                    == config.testnet.enable_geo_checks
                &&& config.testnet.enable_geo_checks
                    ==> diversity.testnet->0.min_geographic_diversity == 3
                &&& !config.testnet.enable_geo_checks
                    ==> diversity.testnet->0.min_geographic_diversity == 1
            }
        }),
{
}

} // verus!
