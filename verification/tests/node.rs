//! Building and running a node.

use ant_node::config::{
    BootstrapCacheConfig, EvmNetworkConfig, IpVersion, NetworkMode, NodeConfig, PaymentConfig,
    StorageConfig, TestnetConfig, UpgradeChannel, UpgradeConfig, NODES_SUBDIR,
    NODE_IDENTITY_FILENAME,
};
use ant_node::error::Error;
use ant_node::node::builder::{
    BuildAction, BuildProgress, EvmNetwork, DEFAULT_MAX_QUOTING_RECORDS, GIBIBYTE,
};
use ant_node::node::core_config::derive_core_config;
use ant_node::node::events::NodeEvent;
use ant_node::node::identity::{
    first_run_dir, node_id_to_peer_id, DirEntry, DirListing, IdentityAction, IdentityPlan, IdentityProgress,
};
use ant_node::node::running::{phase_event, routes_to_protocol, LoopEvent, RunPhase};
use ant_node::node::{NodeBuilder, RunningNode};
use ant_node::paths::Location;
use ant_node::upgrade::monitor::{react_to_update_check, UpdateCheck};
use std::path::PathBuf;

fn config() -> NodeConfig {
    NodeConfig {
        root_dir: PathBuf::from("/data/node"),
        port: 0,
        ip_version: IpVersion::Dual,
        bootstrap: Vec::new(),
        network_mode: NetworkMode::Production,
        testnet: TestnetConfig {
            max_nodes_per_asn: 5000,
            max_nodes_per_64: 100,
            enforce_age_requirements: false,
            enable_geo_checks: false,
        },
        upgrade: UpgradeConfig {
            enabled: false,
            channel: UpgradeChannel::Stable,
            check_interval_hours: 1,
            github_repo: "owner/repo".to_string(),
            staged_rollout_hours: 24,
        },
        payment: PaymentConfig {
            enabled: true,
            cache_capacity: 1000,
            rewards_address: None,
            evm_network: EvmNetworkConfig::ArbitrumOne,
        },
        bootstrap_cache: BootstrapCacheConfig {
            enabled: true,
            cache_dir: None,
            max_contacts: 10_000,
        },
        storage: StorageConfig {
            enabled: true,
            max_chunks: 0,
            verify_on_read: true,
            db_size_gb: 2,
        },
        max_message_size: 5_000_000,
    }
}

#[test]
fn test_build_upgrade_monitor_staged_rollout_enabled() {
    let mut config = config();
    config.upgrade.enabled = true;
    config.upgrade.staged_rollout_hours = 24;
    let seed = b"node-seed";

    let monitor = NodeBuilder::build_upgrade_monitor(&config, seed, None);
    assert!(monitor.has_staged_rollout());
}

#[test]
fn test_build_upgrade_monitor_staged_rollout_disabled() {
    let mut config = config();
    config.upgrade.enabled = true;
    config.upgrade.staged_rollout_hours = 0;
    let seed = b"node-seed";

    let monitor = NodeBuilder::build_upgrade_monitor(&config, seed, None);
    assert!(!monitor.has_staged_rollout());
}

#[test]
fn upgrade_monitor_takes_over_the_settings() {
    let mut config = config();
    config.upgrade.channel = UpgradeChannel::Beta;
    config.upgrade.check_interval_hours = 6;
    let dir = PathBuf::from("/cache");
    let monitor = NodeBuilder::build_upgrade_monitor(&config, b"seed", Some(dir.clone()));
    assert_eq!(monitor.github_repo, "owner/repo");
    assert_eq!(monitor.channel, UpgradeChannel::Beta);
    assert_eq!(monitor.check_interval_hours, 6);
    let cache = monitor.release_cache.as_ref().unwrap();
    assert_eq!(cache.cache_dir, dir);
    assert_eq!(cache.ttl_secs, 3600);
    let staged = monitor.staged_rollout.as_ref().unwrap();
    assert_eq!(staged.seed, b"seed");
    assert_eq!(staged.hours, 24);
    let without = NodeBuilder::build_upgrade_monitor(&config, b"seed", None);
    assert!(without.release_cache.is_none());
}

#[test]
fn test_build_core_config_sets_production_mode() {
    let mut config = config();
    config.network_mode = NetworkMode::Production;
    let core = NodeBuilder::build_core_config(&config).expect("core config");
    assert!(core.production_config.is_some());
    assert!(core.diversity_config.is_some());
}

#[test]
fn test_build_core_config_sets_development_mode_relaxed() {
    let mut config = config();
    config.network_mode = NetworkMode::Development;
    let core = NodeBuilder::build_core_config(&config).expect("core config");
    assert!(core.production_config.is_none());
    let diversity = core.diversity_config.expect("diversity");
    assert!(diversity.is_relaxed());
}

#[test]
fn production_keeps_the_limits_of_the_network_layer() {
    let core = NodeBuilder::build_core_config(&config()).unwrap();
    let diversity = core.diversity_config.unwrap();
    assert!(!diversity.is_relaxed());
    assert_eq!(diversity.limits.max_per_ip, None);
    assert_eq!(diversity.limits.max_per_subnet, None);
    assert!(diversity.testnet.is_none());
}

#[test]
fn testnet_takes_its_own_limits() {
    let mut config = config();
    config.network_mode = NetworkMode::Testnet;
    let core = NodeBuilder::build_core_config(&config).unwrap();
    assert!(core.production_config.is_some());
    let diversity = core.diversity_config.unwrap();
    assert_eq!(diversity.limits.max_per_ip, Some(usize::MAX));
    assert_eq!(diversity.limits.max_per_subnet, Some(usize::MAX));
    let testnet = diversity.testnet.unwrap();
    assert_eq!(testnet.max_nodes_per_asn, 5000);
    assert_eq!(testnet.max_nodes_per_64, 100);
    assert!(!testnet.enable_geolocation_check);
    assert_eq!(testnet.min_geographic_diversity, 1);

    config.testnet.enable_geo_checks = true;
    let core = NodeBuilder::build_core_config(&config).unwrap();
    let testnet = core.diversity_config.unwrap().testnet.unwrap();
    assert!(testnet.enable_geolocation_check);
    assert_eq!(testnet.min_geographic_diversity, 3);
}

#[test]
fn listen_address_follows_the_ip_version() {
    let mut config = config();
    config.port = 12000;
    for (version, addr, ipv6) in [
        (IpVersion::Ipv4, "0.0.0.0:12000", false),
        (IpVersion::Dual, "0.0.0.0:12000", true),
        (IpVersion::Ipv6, "[::]:12000", true),
    ] {
        config.ip_version = version;
        let core = NodeBuilder::build_core_config(&config).unwrap();
        assert_eq!(core.listen_addr, addr);
        assert_eq!(core.listen_addrs, vec![addr.to_string()]);
        assert_eq!(core.enable_ipv6, ipv6);
    }
}

#[test]
fn core_config_forwards_peers_and_message_size() {
    let mut config = config();
    config.bootstrap = vec!["10.0.0.1:1".to_string(), "10.0.0.2:2".to_string()];
    let core = NodeBuilder::build_core_config(&config).unwrap();
    assert_eq!(core.bootstrap_peers, config.bootstrap);
    assert_eq!(core.max_message_size, Some(5_000_000));
    assert!(core.peer_id.is_none());
}

#[test]
fn core_config_failure_is_a_configuration_error() {
    let r = derive_core_config(&config(), &Err("no dirs".to_string()));
    assert!(
        matches!(r, Err(Error::Config(e)) if e == "Failed to create core config: no dirs")
    );
}

#[test]
fn core_config_carries_the_peer_id() {
    let builder = NodeBuilder::new(config());
    let core = builder.core_config_for(&[0x0f; 32]).unwrap();
    assert_eq!(core.peer_id.unwrap(), "0f".repeat(32));
}

#[test]
fn test_node_id_to_peer_id_length() {
    let id = [0x42; 32];
    let peer_id = node_id_to_peer_id(&id);
    assert_eq!(peer_id.len(), 64); // 32 bytes = 64 hex chars
}

#[test]
fn peer_ids_tell_nodes_apart() {
    let mut other = [0x42; 32];
    other[31] = 0x43;
    assert_eq!(node_id_to_peer_id(&[0x42; 32]), "42".repeat(32));
    assert_ne!(node_id_to_peer_id(&[0x42; 32]), node_id_to_peer_id(&other));
}

fn entry(name: &str, is_dir: bool, has_key: bool) -> Result<DirEntry, String> {
    Ok(DirEntry {
        path: PathBuf::from("/data/nodes").join(name),
        name: Some(name.to_string()),
        is_dir,
        has_key,
    })
}

#[test]
fn test_scan_identity_dirs_empty_dir() {
    let dirs = NodeBuilder::scan_identity_dirs(DirListing::Entries(Vec::new())).unwrap();
    assert!(dirs.is_empty());
}

#[test]
fn test_scan_identity_dirs_nonexistent_dir() {
    let dirs = NodeBuilder::scan_identity_dirs(DirListing::NotFound).unwrap();
    assert!(dirs.is_empty());
}

#[test]
fn test_scan_identity_dirs_finds_one() {
    let listing = DirListing::Entries(vec![entry("abc123", true, true)]);
    let dirs = NodeBuilder::scan_identity_dirs(listing).unwrap();
    assert_eq!(dirs.len(), 1);
    assert_eq!(dirs[0].path, PathBuf::from("/data/nodes").join("abc123"));
}

#[test]
fn test_scan_identity_dirs_finds_multiple() {
    let listing = DirListing::Entries(vec![
        entry("node_a", true, true),
        entry("no_key", true, false),
        entry("node_b", true, true),
        entry("file", false, true),
    ]);
    let dirs = NodeBuilder::scan_identity_dirs(listing).unwrap();
    assert_eq!(dirs.len(), 2);
    assert_eq!(dirs[0].name.as_deref(), Some("node_a"));
    assert_eq!(dirs[1].name.as_deref(), Some("node_b"));
}

#[test]
fn scan_reports_the_first_failure() {
    let r = NodeBuilder::scan_identity_dirs(DirListing::Failed("denied".to_string()));
    assert!(matches!(r, Err(Error::Io(e)) if e == "denied"));
    let listing = DirListing::Entries(vec![
        entry("a", true, true),
        Err("first".to_string()),
        Err("second".to_string()),
    ]);
    let r = NodeBuilder::scan_identity_dirs(listing);
    assert!(matches!(r, Err(Error::Io(e)) if e == "first"));
}

#[test]
fn explicit_root_dir_is_used_directly() {
    let listing = DirListing::Failed("never looked at".to_string());
    let plan = NodeBuilder::resolve_identity(false, "/data/nodes", listing).unwrap();
    assert!(matches!(plan, IdentityPlan::InRootDir));
}

#[test]
fn first_run_generates() {
    let plan = NodeBuilder::resolve_identity(true, "/data/nodes", DirListing::NotFound).unwrap();
    assert!(matches!(plan, IdentityPlan::FirstRun));
}

#[test]
fn restart_loads_the_one_identity() {
    let listing = DirListing::Entries(vec![entry("abc", true, true)]);
    let plan = NodeBuilder::resolve_identity(true, "/data/nodes", listing).unwrap();
    assert!(
        matches!(plan, IdentityPlan::Existing(d) if d.path == PathBuf::from("/data/nodes/abc"))
    );
}

#[test]
fn test_multiple_identities_errors() {
    let two = || DirListing::Entries(vec![entry("aaaa", true, true), entry("bbbb", true, true)]);
    let identity_dirs = NodeBuilder::scan_identity_dirs(two()).unwrap();
    assert_eq!(identity_dirs.len(), 2, "should find both identity dirs");
    let r = NodeBuilder::resolve_identity(true, "/data/nodes", two());
    assert!(matches!(
        r,
        Err(Error::Config(e)) if e == "Multiple node identities found at /data/nodes: \
            [aaaa, bbbb]. Specify --root-dir to select one."
    ));
}

#[test]
fn nameless_directories_are_left_out_of_the_complaint() {
    let mut nameless = entry("x", true, true).unwrap();
    nameless.name = None;
    let listing = DirListing::Entries(vec![entry("aaaa", true, true), Ok(nameless)]);
    let r = NodeBuilder::resolve_identity(true, "n", listing);
    assert!(matches!(
        r,
        Err(Error::Config(e)) if e == "Multiple node identities found at n: \
            [aaaa]. Specify --root-dir to select one."
    ));
}

fn identity_progress() -> IdentityProgress {
    IdentityProgress {
        loaded: None,
        generated: None,
        dir_created: None,
        saved: None,
    }
}

#[test]
fn existing_identity_is_loaded() {
    let mut p = identity_progress();
    let step = |p: &IdentityProgress| NodeBuilder::load_or_generate_identity(true, p);
    assert_eq!(step(&p).unwrap(), IdentityAction::Load);
    p.loaded = Some(Ok(()));
    assert_eq!(step(&p).unwrap(), IdentityAction::Ready);
    p.loaded = Some(Err("bad key".to_string()));
    assert!(
        matches!(step(&p), Err(Error::Startup(e)) if e == "Failed to load node identity: bad key")
    );
}

#[test]
fn missing_identity_is_generated_and_saved() {
    let mut p = identity_progress();
    let step = |p: &IdentityProgress| NodeBuilder::load_or_generate_identity(false, p);
    assert_eq!(step(&p).unwrap(), IdentityAction::Generate);
    p.generated = Some(Ok(()));
    assert_eq!(step(&p).unwrap(), IdentityAction::CreateDir);
    p.dir_created = Some(Ok(()));
    assert_eq!(step(&p).unwrap(), IdentityAction::Save);
    p.saved = Some(Ok(()));
    assert_eq!(step(&p).unwrap(), IdentityAction::Ready);

    p.saved = Some(Err("full".to_string()));
    assert!(
        matches!(step(&p), Err(Error::Startup(e)) if e == "Failed to save node identity: full")
    );
    p.dir_created = Some(Err("denied".to_string()));
    assert!(matches!(step(&p), Err(Error::Io(e)) if e == "denied"));
    p.generated = Some(Err("rng".to_string()));
    assert!(
        matches!(step(&p), Err(Error::Startup(e)) if e == "Failed to generate node identity: rng")
    );
}

#[test]
fn first_run_directory_is_named_after_the_peer_id() {
    let nodes = PathBuf::from("/data/nodes");
    let dir = first_run_dir(&nodes, &[0xab; 32]);
    assert_eq!(dir.entry_name(), Some("ab".repeat(32).as_str()));
    assert!(matches!(dir, Location::Under(d, _) if *d == nodes));
}

#[test]
fn plans_load_or_generate() {
    assert!(IdentityPlan::InRootDir.loads(true));
    assert!(!IdentityPlan::InRootDir.loads(false));
    assert!(!IdentityPlan::FirstRun.loads(true));
    let existing = IdentityPlan::Existing(entry("abc", true, true).unwrap());
    assert!(existing.loads(false));
}

#[test]
fn planned_directory_becomes_the_root() {
    let root = PathBuf::from("/explicit");
    let nodes = PathBuf::from("/data/nodes");
    let id = [1; 32];
    let dir = IdentityPlan::InRootDir;
    assert!(matches!(dir.identity_dir(&root, &nodes, &id), Location::At(d) if *d == root));
    let dir = IdentityPlan::FirstRun;
    assert!(matches!(
        dir.identity_dir(&root, &nodes, &id),
        Location::Under(d, n) if *d == nodes && n == "01".repeat(32)
    ));
    let dir = IdentityPlan::Existing(entry("abc", true, true).unwrap());
    assert!(matches!(
        dir.identity_dir(&root, &nodes, &id),
        Location::At(d) if *d == PathBuf::from("/data/nodes/abc")
    ));
}

#[test]
fn default_root_is_found_again_after_the_first_run() {
    let nodes = PathBuf::from("/data/nodes");
    let id = [7; 32];
    let plan = NodeBuilder::resolve_identity(true, "/data/nodes", DirListing::NotFound).unwrap();
    assert!(matches!(plan, IdentityPlan::FirstRun));
    let name = first_run_dir(&nodes, &id).entry_name().unwrap().to_string();
    assert_eq!(name.len(), 64);
    let listing = DirListing::Entries(vec![entry("logs", true, false), entry(&name, true, true)]);
    let plan = NodeBuilder::resolve_identity(true, "/data/nodes", listing).unwrap();
    assert!(matches!(plan, IdentityPlan::Existing(d) if d.name == Some(node_id_to_peer_id(&id))));
    assert_eq!(
        NodeBuilder::load_or_generate_identity(true, &identity_progress()).unwrap(),
        IdentityAction::Load
    );
}

#[test]
fn explicit_root_loads_what_it_saved() {
    let mut first = identity_progress();
    first.generated = Some(Ok(()));
    first.dir_created = Some(Ok(()));
    first.saved = Some(Ok(()));
    assert_eq!(
        NodeBuilder::load_or_generate_identity(false, &first).unwrap(),
        IdentityAction::Ready
    );
    for listing in [DirListing::NotFound, DirListing::Failed("x".to_string())] {
        let plan = NodeBuilder::resolve_identity(false, "n", listing).unwrap();
        assert!(matches!(plan, IdentityPlan::InRootDir));
    }
    assert_eq!(
        NodeBuilder::load_or_generate_identity(true, &identity_progress()).unwrap(),
        IdentityAction::Load
    );
}

#[test]
fn names_of_files_and_directories() {
    assert_eq!(NODE_IDENTITY_FILENAME, "node_identity.key");
    assert_eq!(NODES_SUBDIR, "nodes");
}

fn build_progress() -> BuildProgress {
    BuildProgress {
        root_dir: Some(Ok(())),
        p2p_node: Some(Ok(())),
        upgrade_monitor: false,
        bootstrap_manager: false,
        ant_protocol: false,
    }
}

#[test]
fn node_is_built_in_order() {
    let mut all = config();
    all.upgrade.enabled = true;
    let builder = NodeBuilder::new(all);
    let mut p = build_progress();
    p.root_dir = None;
    p.p2p_node = None;
    assert_eq!(builder.build(&p).unwrap(), BuildAction::CreateRootDir);
    p.root_dir = Some(Ok(()));
    assert_eq!(builder.build(&p).unwrap(), BuildAction::CreateP2pNode);
    p.p2p_node = Some(Ok(()));
    assert_eq!(builder.build(&p).unwrap(), BuildAction::BuildUpgradeMonitor);
    p.upgrade_monitor = true;
    assert_eq!(builder.build(&p).unwrap(), BuildAction::BuildBootstrapManager);
    p.bootstrap_manager = true;
    assert_eq!(builder.build(&p).unwrap(), BuildAction::BuildAntProtocol);
    p.ant_protocol = true;
    assert_eq!(builder.build(&p).unwrap(), BuildAction::Finish);
}

#[test]
fn parts_switched_off_are_not_built() {
    let mut bare = config();
    bare.bootstrap_cache.enabled = false;
    bare.storage.enabled = false;
    let builder = NodeBuilder::new(bare);
    assert_eq!(
        builder.build(&build_progress()).unwrap(),
        BuildAction::Finish
    );
}

#[test]
fn build_failures_stop_the_node() {
    let builder = NodeBuilder::new(config());
    let mut p = build_progress();
    p.p2p_node = Some(Err("port in use".to_string()));
    assert!(matches!(
        builder.build(&p),
        Err(Error::Startup(e)) if e == "Failed to create P2P node: port in use"
    ));
    p.root_dir = Some(Err("denied".to_string()));
    assert!(matches!(builder.build(&p), Err(Error::Io(e)) if e == "denied"));
}

#[test]
fn storage_settings_saturate() {
    let mut config = config();
    let plan = NodeBuilder::storage_config(&config);
    assert_eq!(plan.max_map_size, 2 * GIBIBYTE);
    assert_eq!(*plan.root_dir, PathBuf::from("/data/node"));
    assert!(plan.verify_on_read);
    assert_eq!(plan.max_chunks, 0);
    config.storage.db_size_gb = usize::MAX;
    assert_eq!(
        NodeBuilder::storage_config(&config).max_map_size,
        usize::MAX
    );
}

#[test]
fn protocol_settings() {
    let mut config = config();
    let unread: Result<[u8; 20], Error> = Err(Error::Config("unread".to_string()));
    let plan = NodeBuilder::build_ant_protocol(&config, Ok(()), unread).unwrap();
    assert!(plan.verify_payments);
    assert_eq!(plan.evm_network, EvmNetwork::ArbitrumOne);
    assert_eq!(plan.cache_capacity, 1000);
    assert_eq!(plan.rewards_address, [0u8; 20]);
    assert_eq!(plan.max_quoting_records, DEFAULT_MAX_QUOTING_RECORDS);
    assert_eq!(DEFAULT_MAX_QUOTING_RECORDS, 100_000);

    config.payment.evm_network = EvmNetworkConfig::ArbitrumSepolia;
    config.payment.rewards_address = Some("0x0101".to_string());
    let plan = NodeBuilder::build_ant_protocol(&config, Ok(()), Ok([1u8; 20])).unwrap();
    assert_eq!(plan.evm_network, EvmNetwork::ArbitrumSepoliaTest);
    assert_eq!(plan.rewards_address, [1u8; 20]);

    let bad = Err(Error::Config("bad address".to_string()));
    let r = NodeBuilder::build_ant_protocol(&config, Ok(()), bad);
    assert!(matches!(r, Err(Error::Config(e)) if e == "bad address"));
    let r = NodeBuilder::build_ant_protocol(&config, Err("map".to_string()), Ok([1u8; 20]));
    assert!(
        matches!(r, Err(Error::Startup(e)) if e == "Failed to create LMDB storage: map")
    );
}

#[test]
fn bootstrap_cache_settings() {
    let mut config = config();
    let dir = NodeBuilder::bootstrap_cache_dir(&config);
    assert_eq!(dir.entry_name(), Some("bootstrap_cache"));
    assert!(matches!(dir, Location::Under(d, _) if *d == PathBuf::from("/data/node")));
    config.bootstrap_cache.cache_dir = Some(PathBuf::from("/elsewhere"));
    let dir = NodeBuilder::bootstrap_cache_dir(&config);
    assert_eq!(dir.entry_name(), None);
    assert!(matches!(dir, Location::At(d) if *d == PathBuf::from("/elsewhere")));
    let manager = NodeBuilder::build_bootstrap_manager(&config, true).unwrap();
    assert_eq!(manager.max_peers, 10_000);
    assert!(NodeBuilder::build_bootstrap_manager(&config, false).is_none());
    let settings = Some(manager);
    let keeps = NodeBuilder::keeps_bootstrap_manager;
    assert!(keeps(&settings, &Some(Ok(()))));
    assert!(!keeps(&settings, &Some(Err("corrupt".to_string()))));
    assert!(!keeps(&settings, &None));
    assert!(!keeps(&None, &Some(Ok(()))));
}

fn node(protocol: bool, monitored: bool, manager: bool) -> RunningNode<&'static str> {
    let config = config();
    let monitor = monitored
        .then_some(())
        .map(|()| NodeBuilder::build_upgrade_monitor(&config, b"s", None));
    NodeBuilder::new(config).finish("events", monitor, manager, protocol)
}

#[test]
fn events_are_given_out_once() {
    let mut node = node(true, false, false);
    assert_eq!(node.events(), Some("events"));
    assert_eq!(node.events(), None);
    assert_eq!(node.events(), None);
}

#[test]
fn root_dir_follows_the_identity() {
    let mut builder = NodeBuilder::new(config());
    builder.set_root_dir(PathBuf::from("/data/nodes/abc"));
    let node = builder.finish((), None, false, false);
    assert_eq!(*node.root_dir(), PathBuf::from("/data/nodes/abc"));
    assert!(node.upgrade_monitor().is_none());
}

#[test]
fn port_is_the_bound_one() {
    let node = node(false, false, false);
    assert_eq!(node.actual_port(Some(4433)), 4433);
    assert_eq!(node.actual_port(None), 0);
}

fn run_all(node: &mut RunningNode<&'static str>) -> Vec<RunPhase> {
    let mut phase = RunPhase::StartP2p;
    let mut phases = vec![phase];
    while phase != RunPhase::Done {
        phase = node.run(phase, &Ok(())).unwrap();
        phases.push(phase);
    }
    phases
}

#[test]
fn full_node_runs_through_all_phases() {
    assert_eq!(
        run_all(&mut node(true, true, true)),
        vec![
            RunPhase::StartP2p,
            RunPhase::AnnounceStart,
            RunPhase::StartRouting,
            RunPhase::StartUpgradeMonitor,
            RunPhase::EventLoop,
            RunPhase::ReportCache,
            RunPhase::StopRouting,
            RunPhase::StopP2p,
            RunPhase::AnnounceStop,
            RunPhase::Done,
        ]
    );
}

#[test]
fn bare_node_skips_what_it_lacks() {
    assert_eq!(
        run_all(&mut node(false, false, false)),
        vec![
            RunPhase::StartP2p,
            RunPhase::AnnounceStart,
            RunPhase::EventLoop,
            RunPhase::StopP2p,
            RunPhase::AnnounceStop,
            RunPhase::Done,
        ]
    );
}

#[test]
fn only_start_and_loop_failures_stop_the_run() {
    let mut node = node(true, true, true);
    let failure: Result<(), String> = Err("boom".to_string());
    let r = node.run(RunPhase::StartP2p, &failure);
    assert!(
        matches!(r, Err(Error::Startup(e)) if e == "Failed to start P2P node: boom")
    );
    let r = node.run(RunPhase::EventLoop, &failure);
    assert!(matches!(r, Err(Error::Io(e)) if e == "boom"));
    assert_eq!(
        node.run(RunPhase::AnnounceStart, &failure).unwrap(),
        RunPhase::StartRouting
    );
    assert_eq!(
        node.run(RunPhase::StopP2p, &failure).unwrap(),
        RunPhase::AnnounceStop
    );
}

#[test]
fn phases_send_their_events() {
    assert!(matches!(
        phase_event(RunPhase::AnnounceStart),
        Some(NodeEvent::Started)
    ));
    assert!(matches!(
        phase_event(RunPhase::AnnounceStop),
        Some(NodeEvent::ShuttingDown)
    ));
    assert!(phase_event(RunPhase::EventLoop).is_none());
}

#[test]
fn signals_end_the_loop_and_hangup_does_not() {
    let mut node = node(false, false, false);
    assert!(!node.run_event_loop(LoopEvent::Hangup));
    assert!(node.run_event_loop(LoopEvent::Interrupt));
    assert!(node.run_event_loop(LoopEvent::Terminate));
    node.shutdown();
    assert!(node.run_event_loop(LoopEvent::ShutdownRequested));
}

#[test]
fn routing_needs_a_protocol() {
    assert!(node(true, false, false).start_protocol_routing());
    assert!(!node(false, false, false).start_protocol_routing());
    let chunk = "chunk/1".to_string();
    assert!(routes_to_protocol(&"chunk/1".to_string(), &chunk));
    assert!(!routes_to_protocol(&"other".to_string(), &chunk));
}

#[test]
fn newer_version_is_announced_and_applied() {
    let r = react_to_update_check(&UpdateCheck::Available("2.0.0".to_string()));
    assert!(r.apply);
    assert!(
        matches!(r.event, Some(NodeEvent::UpgradeAvailable { version }) if version == "2.0.0")
    );
    for check in [
        UpdateCheck::UpToDate,
        UpdateCheck::Failed("offline".to_string()),
    ] {
        let r = react_to_update_check(&check);
        assert!(!r.apply);
        assert!(r.event.is_none());
    }
}
