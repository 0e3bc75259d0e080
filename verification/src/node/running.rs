//! A running node.

use crate::config::NodeConfig;
use crate::error::{Error, ErrorModel};
use crate::node::events::NodeEvent;
use crate::text::join;
use crate::upgrade::monitor::UpgradeMonitor;
use std::path::PathBuf;
use std::sync::Arc;
use vstd::prelude::*;

verus! {

/// Something the main loop waits for.
#[derive(Clone, Copy, Debug, PartialEq, Eq, Structural)]
pub enum LoopEvent {
    /// Shutdown was requested within the program.
    ShutdownRequested,
    /// The user interrupted the program.
    Interrupt,
    /// The system asked the program to terminate.
    Terminate,
    /// The terminal hung up.
    Hangup,
}

/// A phase of running the node.
#[derive(Clone, Copy, Debug, PartialEq, Eq, Structural)]
pub enum RunPhase {
    /// Start the peer-to-peer node.
    StartP2p,
    /// Report that the node has started.
    AnnounceStart,
    /// Start routing protocol messages.
    StartRouting,
    /// Start the upgrade monitor.
    StartUpgradeMonitor,
    /// Wait for the end.
    EventLoop,
    /// Report on the bootstrap cache.
    ReportCache,
    /// Stop routing protocol messages.
    StopRouting,
    /// Stop the peer-to-peer node.
    StopP2p,
    /// Report that the node is shutting down.
    AnnounceStop,
    /// Nothing is left to do.
    Done,
}

/// Mathematical content of a running node.
pub struct NodeModel<C> {
    pub config: NodeConfig,
    pub shutdown_requested: bool,
    pub events: Option<C>,
    pub upgrade_monitor: Option<Arc<UpgradeMonitor>>,
    pub has_bootstrap_manager: bool,
    pub has_ant_protocol: bool,
    pub routing: bool,
}

impl<C> NodeModel<C> {
    /// The phase after `phase`. Phases for parts that the node does not have are
    /// skipped.
    pub open spec fn phase_after(self, phase: RunPhase) -> RunPhase {
        match phase {
            RunPhase::StartP2p => RunPhase::AnnounceStart,
            RunPhase::AnnounceStart => if self.has_ant_protocol {
                RunPhase::StartRouting
            } else if self.upgrade_monitor is Some {
                RunPhase::StartUpgradeMonitor
            } else {
                RunPhase::EventLoop
            },
            RunPhase::StartRouting => if self.upgrade_monitor is Some {
                RunPhase::StartUpgradeMonitor
            } else {
                RunPhase::EventLoop
            },
            RunPhase::StartUpgradeMonitor => RunPhase::EventLoop,
            RunPhase::EventLoop => if self.has_bootstrap_manager {
                RunPhase::ReportCache
            } else if self.routing {
                RunPhase::StopRouting
            } else {
                RunPhase::StopP2p
            },
            RunPhase::ReportCache => if self.routing {
                RunPhase::StopRouting
            } else {
                RunPhase::StopP2p
            },
            RunPhase::StopRouting => RunPhase::StopP2p,
            RunPhase::StopP2p => RunPhase::AnnounceStop,
            RunPhase::AnnounceStop => RunPhase::Done,
            RunPhase::Done => RunPhase::Done,
        }
    }

    /// What `phase` leaves of the node.
    pub open spec fn after_phase(self, phase: RunPhase) -> NodeModel<C> {
        match phase {
            RunPhase::StartRouting => NodeModel {
                routing: self.routing || self.has_ant_protocol,
                ..self
            },
            RunPhase::StopRouting => NodeModel { routing: false, ..self },
            _ => self,
        }
    }

    /// The node after its event receiver was asked for, and what was given.
    pub open spec fn after_events(self) -> (NodeModel<C>, Option<C>) {
        (NodeModel { events: None, ..self }, self.events)
    }

    /// What `n` calls in a row that ask for the event receiver give.
    pub open spec fn events_given(self, n: nat) -> Seq<Option<C>>
        decreases n,
    {
        if n == 0 {
            Seq::empty()
        } else {
            let (after, given) = self.after_events();
            seq![given] + after.events_given((n - 1) as nat)
        }
    }

    /// The node after `event`, and whether the main loop ends.
    pub open spec fn after_event(self, event: LoopEvent) -> (NodeModel<C>, bool) {
        match event {
            LoopEvent::ShutdownRequested => (self, true),
            LoopEvent::Interrupt | LoopEvent::Terminate => (
                NodeModel { shutdown_requested: true, ..self },
                true,
            ),
            LoopEvent::Hangup => (self, false),
        }
    }
}

/// What comes of `phase`: only a failure to start the peer-to-peer node or of
/// the main loop stops the node.
pub open spec fn phase_error(phase: RunPhase, outcome: Result<(), String>) -> Option<ErrorModel> {
    match outcome {
        Ok(_) => None,
        Err(e) => match phase {
            RunPhase::StartP2p => Some(
                ErrorModel::Startup("Failed to start P2P node: "@ + e@),
            ),
            RunPhase::EventLoop => Some(ErrorModel::Io(e@)),
            _ => None,
        },
    }
}

/// A running node. `C` is the receiving end of its events.
pub struct RunningNode<C> {
    config: NodeConfig,
    shutdown_requested: bool,
    events_rx: Option<C>,
    upgrade_monitor: Option<Arc<UpgradeMonitor>>,
    has_bootstrap_manager: bool,
    has_ant_protocol: bool,
    routing: bool,
}

impl<C> View for RunningNode<C> {
    type V = NodeModel<C>;

    closed spec fn view(&self) -> NodeModel<C> {
        NodeModel {
            config: self.config,
            shutdown_requested: self.shutdown_requested,
            events: self.events_rx,
            upgrade_monitor: self.upgrade_monitor,
            has_bootstrap_manager: self.has_bootstrap_manager,
            has_ant_protocol: self.has_ant_protocol,
            routing: self.routing,
        }
    }
}

impl<C> RunningNode<C> {
    /// Put a node together from its parts.
    pub(crate) fn assemble(
        config: NodeConfig,
        events: C,
        upgrade_monitor: Option<Arc<UpgradeMonitor>>,
        has_bootstrap_manager: bool,
        has_ant_protocol: bool,
    ) -> (node: Self)
        ensures
            node@ == (NodeModel {
                config,
                shutdown_requested: false,
                events: Some(events),
                upgrade_monitor,
                has_bootstrap_manager,
                has_ant_protocol,
                routing: false,
            }),
    {
        RunningNode {
            config,
            shutdown_requested: false,
            events_rx: Some(events),
            upgrade_monitor,
            has_bootstrap_manager,
            has_ant_protocol,
            routing: false,
        }
    }

    /// Root directory of the node.
    #[must_use]
    pub fn root_dir(&self) -> (dir: &PathBuf)
        ensures
            *dir == self@.config.root_dir,
    {
        &self.config.root_dir
    }

    /// The upgrade monitor, if upgrades are switched on.
    #[must_use]
    pub fn upgrade_monitor(&self) -> (r: Option<Arc<UpgradeMonitor>>)
        ensures
            r == self@.upgrade_monitor,
    {
        match &self.upgrade_monitor {
            Some(m) => Some(Arc::clone(m)),
            None => None,
        }
    }

    /// Take the receiver of node events. Only the first call gets it.
    pub fn events(&mut self) -> (r: Option<C>)
        ensures
            (final(self)@, r) == old(self)@.after_events(),
    {
        self.events_rx.take()
    }

    /// Request the node to shut down.
    pub fn shutdown(&mut self)
        ensures
            final(self)@ == (NodeModel { shutdown_requested: true, ..old(self)@ }),
    {
        self.shutdown_requested = true;
    }

    /// Port on which the node listens: that of the first address it is bound
    /// to, or the configured one.
    #[must_use]
    pub fn actual_port(&self, first_bound: Option<u16>) -> (port: u16)
        ensures
            port == match first_bound {
                Some(p) => p,
                None => self@.config.port,
            },
    {
        match first_bound {
            Some(p) => p,
            None => self.config.port,
        }
    }

    /// Start routing protocol messages, if the node has a protocol to route
    /// them to. Tells whether the routing task is to be started.
    pub fn start_protocol_routing(&mut self) -> (started: bool)
        ensures
            started == old(self)@.has_ant_protocol,
            final(self)@ == (NodeModel {
                routing: old(self)@.routing || old(self)@.has_ant_protocol,
                ..old(self)@
            }),
    {
        if self.has_ant_protocol {
            self.routing = true;
        }
        self.has_ant_protocol
    }

    /// Go on to the phase after `phase`, given how `phase` went.
    pub fn run(&mut self, phase: RunPhase, outcome: &Result<(), String>) -> (r: Result<
        RunPhase,
        Error,
    >)
        ensures
            match phase_error(phase, *outcome) {
                Some(e) => r matches Err(err) && err@ == e && final(self)@ == old(self)@,
                None => {
                    &&& final(self)@ == old(self)@.after_phase(phase)
                    &&& r == Ok::<RunPhase, Error>(
                        old(self)@.after_phase(phase).phase_after(phase),
                    )
                },
            },
    {
        match phase {
            RunPhase::StartP2p => {
                match outcome {
                    Err(e) => {
                        return Err(
                            Error::Startup(join("Failed to start P2P node: ", e.as_str())),
                        );
                    },
                    Ok(_) => {},
                }
                Ok(RunPhase::AnnounceStart)
            },
            RunPhase::AnnounceStart => {
                if self.has_ant_protocol {
                    Ok(RunPhase::StartRouting)
                } else {
                    Ok(self.monitor_or_loop())
                }
            },
            RunPhase::StartRouting => {
                let _ = self.start_protocol_routing();
                Ok(self.monitor_or_loop())
            },
            RunPhase::StartUpgradeMonitor => Ok(RunPhase::EventLoop),
            RunPhase::EventLoop => {
                match outcome {
                    Err(e) => {
                        return Err(Error::Io(e.clone()));
                    },
                    Ok(_) => {},
                }
                if self.has_bootstrap_manager {
                    Ok(RunPhase::ReportCache)
                } else {
                    Ok(self.stop_phase())
                }
            },
            RunPhase::ReportCache => Ok(self.stop_phase()),
            RunPhase::StopRouting => {
                self.routing = false;
                Ok(RunPhase::StopP2p)
            },
            RunPhase::StopP2p => Ok(RunPhase::AnnounceStop),
            RunPhase::AnnounceStop => Ok(RunPhase::Done),
            RunPhase::Done => Ok(RunPhase::Done),
        }
    }

    /// The phase once messages are routed.
    fn monitor_or_loop(&self) -> (phase: RunPhase)
        ensures
            phase == if self@.upgrade_monitor is Some {
                RunPhase::StartUpgradeMonitor
            } else {
                RunPhase::EventLoop
            },
    {
        if self.upgrade_monitor.is_some() {
            RunPhase::StartUpgradeMonitor
        } else {
            RunPhase::EventLoop
        }
    }

    /// The phase that begins to stop the node.
    fn stop_phase(&self) -> (phase: RunPhase)
        ensures
            phase == if self@.routing {
                RunPhase::StopRouting
            } else {
                RunPhase::StopP2p
            },
    {
        if self.routing {
            RunPhase::StopRouting
        } else {
            RunPhase::StopP2p
        }
    }

    /// React to an event in the main loop. Tells whether the loop ends.
    pub fn run_event_loop(&mut self, event: LoopEvent) -> (ends: bool)
        ensures
            (final(self)@, ends) == old(self)@.after_event(event),
    {
        match event {
            LoopEvent::ShutdownRequested => true,
            LoopEvent::Interrupt | LoopEvent::Terminate => {
                self.shutdown();
                true
            },
            LoopEvent::Hangup => false,
        }
    }
}

/// Whether a network message goes to the chunk protocol.
pub fn routes_to_protocol(topic: &String, chunk_protocol: &String) -> (r: bool)
    ensures
        r == (topic@ == chunk_protocol@),
{
    *topic == *chunk_protocol
}

/// Event that a phase sends.
pub fn phase_event(phase: RunPhase) -> (event: Option<NodeEvent>)
    ensures
        event == match phase {
            RunPhase::AnnounceStart => Some(NodeEvent::Started),
            RunPhase::AnnounceStop => Some(NodeEvent::ShuttingDown),
            _ => None,
        },
{
    match phase {
        RunPhase::AnnounceStart => Some(NodeEvent::Started),
        RunPhase::AnnounceStop => Some(NodeEvent::ShuttingDown),
        _ => None,
    }
}

/// The event receiver of a node that was just built goes to the first call that
/// asks for it, and every later call gets nothing.
pub proof fn lemma_events_go_to_first_call<C>(node: NodeModel<C>, receiver: C, n: nat)
    requires
        node.events == Some(receiver),
    ensures
        node.events_given(n).len() == n,
        forall|i: int|
            0 <= i < n ==> #[trigger] node.events_given(n)[i] == if i == 0 {
                Some(receiver)
            } else {
                None
            },
{
    if n > 0 {
        let rest = node.after_events().0.events_given((n - 1) as nat);
        lemma_no_events_left(node.after_events().0, (n - 1) as nat);
        assert(node.events_given(n) =~= seq![Some(receiver)] + rest);
    }
}

/// A node whose event receiver is gone gives nothing.
proof fn lemma_no_events_left<C>(node: NodeModel<C>, n: nat)
    requires
        node.events is None,
    ensures
        node.events_given(n).len() == n,
        forall|i: int| 0 <= i < n ==> #[trigger] node.events_given(n)[i] is None,
    decreases n,
{
    if n > 0 {
        let after = node.after_events().0;
        lemma_no_events_left(after, (n - 1) as nat);
        let rest = after.events_given((n - 1) as nat);
        assert(node.events_given(n) =~= seq![None::<C>] + rest);
        assert forall|i: int| 0 <= i < n implies #[trigger] node.events_given(n)[i] is None by {
            if i > 0 {
                assert(node.events_given(n)[i] == rest[i - 1]);
            }
        }
    }
}

/// Phases that a run goes through, at most `n` of them, from `phase` on.
pub open spec fn run_script<C>(node: NodeModel<C>, phase: RunPhase, n: nat) -> Seq<RunPhase>
    decreases n,
{
    if n == 0 {
        Seq::empty()
    } else {
        let after = node.after_phase(phase);
        seq![phase] + run_script(after, after.phase_after(phase), (n - 1) as nat)
    }
}

/// Phases that stop a node.
spec fn stop_script(routing: bool) -> Seq<RunPhase> {
    (if routing {
        seq![RunPhase::StopRouting]
    } else {
        Seq::empty()
    }) + seq![RunPhase::StopP2p, RunPhase::AnnounceStop, RunPhase::Done]
}

/// The last phases of a run, from a node that routes messages if it has a
/// protocol.
proof fn lemma_stop_order<C>(routed: NodeModel<C>, stopped: NodeModel<C>)
    requires
        stopped == (NodeModel { routing: false, ..routed }),
    ensures
        run_script(
            routed,
            if routed.routing {
                RunPhase::StopRouting
            } else {
                RunPhase::StopP2p
            },
            stop_script(routed.routing).len(),
        ) == stop_script(routed.routing),
{
    assert(run_script(stopped, RunPhase::Done, 1) =~= seq![RunPhase::Done]) by {
        reveal_with_fuel(run_script, 2);
    }
    assert(run_script(stopped, RunPhase::AnnounceStop, 2) =~= seq![
        RunPhase::AnnounceStop,
        RunPhase::Done,
    ]);
    assert(run_script(stopped, RunPhase::StopP2p, 3) =~= seq![
        RunPhase::StopP2p,
        RunPhase::AnnounceStop,
        RunPhase::Done,
    ]);
    if routed.routing {
        assert(run_script(routed, RunPhase::StopRouting, 4) =~= stop_script(true));
    } else {
        assert(routed == stopped);
        assert(stop_script(false) =~= run_script(stopped, RunPhase::StopP2p, 3));
    }
}

/// All phases of a run in which nothing fails, for a node with the given parts.
pub open spec fn full_run(protocol: bool, monitor: bool, cache: bool) -> Seq<RunPhase> {
    seq![RunPhase::StartP2p, RunPhase::AnnounceStart] + (if protocol {
        seq![RunPhase::StartRouting]
    } else {
        Seq::empty()
    }) + (if monitor {
        seq![RunPhase::StartUpgradeMonitor]
    } else {
        Seq::empty()
    }) + seq![RunPhase::EventLoop] + (if cache {
        seq![RunPhase::ReportCache]
    } else {
        Seq::empty()
    }) + (if protocol {
        seq![RunPhase::StopRouting]
    } else {
        Seq::empty()
    }) + seq![RunPhase::StopP2p, RunPhase::AnnounceStop, RunPhase::Done]
}

/// A run in which nothing fails: the peer-to-peer node starts before the start
/// is announced, what was started is stopped after the main loop, and the end
/// is announced last.
pub proof fn lemma_run_order<C>(node: NodeModel<C>)
    requires
        !node.routing,
    ensures
        run_script(
            node,
            RunPhase::StartP2p,
            full_run(
                node.has_ant_protocol,
                node.upgrade_monitor is Some,
                node.has_bootstrap_manager,
            ).len(),
        ) == full_run(
            node.has_ant_protocol,
            node.upgrade_monitor is Some,
            node.has_bootstrap_manager,
        ),
{
    let routed = NodeModel { routing: node.has_ant_protocol, ..node };
    let stopped = NodeModel { routing: false, ..node };
    lemma_stop_order(routed, stopped);
    let end = stop_script(node.has_ant_protocol);
    let reported = (if node.has_bootstrap_manager {
        seq![RunPhase::ReportCache]
    } else {
        Seq::empty()
    }) + end;
    if node.has_bootstrap_manager {
        assert(run_script(routed, RunPhase::ReportCache, reported.len()) =~= reported);
    } else {
        assert(reported =~= end);
    }
    let looped = seq![RunPhase::EventLoop] + reported;
    assert(run_script(routed, RunPhase::EventLoop, looped.len()) =~= looped);
    let monitored = (if node.upgrade_monitor is Some {
        seq![RunPhase::StartUpgradeMonitor]
    } else {
        Seq::empty()
    }) + looped;
    if node.upgrade_monitor is Some {
        assert(run_script(routed, RunPhase::StartUpgradeMonitor, monitored.len()) =~= monitored);
    } else {
        assert(monitored =~= looped);
    }
    let routing = (if node.has_ant_protocol {
        seq![RunPhase::StartRouting]
    } else {
        Seq::empty()
    }) + monitored;
    if node.has_ant_protocol {
        assert(run_script(node, RunPhase::StartRouting, routing.len()) =~= routing);
    } else {
        assert(routed == node);
        assert(routing =~= monitored);
    }
    let announced = seq![RunPhase::AnnounceStart] + routing;
    assert(run_script(node, RunPhase::AnnounceStart, announced.len()) =~= announced);
    let whole = seq![RunPhase::StartP2p] + announced;
    assert(run_script(node, RunPhase::StartP2p, whole.len()) =~= whole);
    assert(whole =~= full_run(
        node.has_ant_protocol,
        node.upgrade_monitor is Some,
        node.has_bootstrap_manager,
    ));
}

/// A signal that ends the main loop leaves shutdown requested, so that
/// everything else that waits for it ends too; a hangup changes nothing.
pub proof fn lemma_loop_end_requests_shutdown<C>(node: NodeModel<C>, event: LoopEvent)
    requires
        event is ShutdownRequested ==> node.shutdown_requested,
    ensures
        node.after_event(event).1 ==> node.after_event(event).0.shutdown_requested,
        !node.after_event(event).1 ==> node.after_event(event).0 == node,
{
}

/// Only two phases can stop the node: a peer-to-peer node that does not start,
/// and a main loop that fails. Every other failure is passed over, and a phase
/// that went well is never an error.
pub proof fn lemma_which_failures_stop_the_node(phase: RunPhase, outcome: Result<(), String>)
    ensures
        phase_error(phase, outcome) is Some <==> outcome is Err && (phase is StartP2p
            || phase is EventLoop),
        outcome matches Err(e) ==> phase is StartP2p ==> phase_error(phase, outcome) == Some(
            ErrorModel::Startup("Failed to start P2P node: "@ + e@),
        ),
        outcome matches Err(e) ==> phase is EventLoop ==> phase_error(phase, outcome) == Some(
            ErrorModel::Io(e@),
        ),
{
}

/// Which events end the main loop: a request to shut down, an interrupt and a
/// request to terminate do, a hangup does not. An interrupt and a request to
/// terminate have shutdown requested; nothing else about the node changes.
pub proof fn lemma_events_that_end_the_loop<C>(node: NodeModel<C>, event: LoopEvent)
    ensures
        ({
            let (after, ends) = node.after_event(event);
            &&& !ends <==> event is Hangup
            &&& after.shutdown_requested <==> node.shutdown_requested || event is Interrupt
                || event is Terminate
            &&& after.config == node.config
            &&& after.events == node.events
            &&& after.upgrade_monitor == node.upgrade_monitor
            &&& after.has_bootstrap_manager == node.has_bootstrap_manager
            &&& after.has_ant_protocol == node.has_ant_protocol
            &&& after.routing == node.routing
        }),
{
}

/// Messages are routed from the phase that starts routing, in a node that has a
/// protocol, to the phase that stops it. No other phase changes that, and none
/// changes anything else.
pub proof fn lemma_phases_switch_routing<C>(node: NodeModel<C>, phase: RunPhase)
    ensures
        ({
            let after = node.after_phase(phase);
            &&& phase is StopRouting ==> !after.routing
            &&& phase is StartRouting && node.has_ant_protocol ==> after.routing
            &&& phase is StartRouting && !node.has_ant_protocol ==> after.routing == node.routing
            &&& !(phase is StartRouting) && !(phase is StopRouting) ==> after == node
            &&& after.config == node.config
            &&& after.shutdown_requested == node.shutdown_requested
            &&& after.events == node.events
            &&& after.upgrade_monitor == node.upgrade_monitor
            &&& after.has_bootstrap_manager == node.has_bootstrap_manager
            &&& after.has_ant_protocol == node.has_ant_protocol
        }),
{
}

/// Where each phase leads. What a node lacks is skipped, and routing is stopped
/// exactly where it was started.
pub proof fn lemma_phase_order<C>(node: NodeModel<C>, phase: RunPhase)
    ensures
        ({
            let next = node.phase_after(phase);
            let routed = phase is AnnounceStart && node.has_ant_protocol;
            let started = (phase is AnnounceStart && !node.has_ant_protocol)
                || phase is StartRouting;
            let looped = phase is EventLoop && !node.has_bootstrap_manager;
            let stopping = looped || phase is ReportCache;
            &&& !(next is StartP2p)
            &&& next is AnnounceStart <==> phase is StartP2p
            &&& next is StartRouting <==> routed
            &&& next is StartUpgradeMonitor <==> started && node.upgrade_monitor is Some
            &&& next is EventLoop <==> (started && node.upgrade_monitor is None)
                || phase is StartUpgradeMonitor
            &&& next is ReportCache <==> phase is EventLoop && node.has_bootstrap_manager
            &&& next is StopRouting <==> stopping && node.routing
            &&& next is StopP2p <==> (stopping && !node.routing) || phase is StopRouting
            &&& next is AnnounceStop <==> phase is StopP2p
            &&& next is Done <==> phase is AnnounceStop || phase is Done
        }),
{
}

/// Asking for the event receiver gives what is there of it, leaves none, and
/// changes nothing else about the node.
pub proof fn lemma_asking_for_events_takes_only_them<C>(node: NodeModel<C>)
    ensures
        ({
            let (after, given) = node.after_events();
            &&& given == node.events
            &&& after.events is None
            &&& after.config == node.config
            &&& after.shutdown_requested == node.shutdown_requested
            &&& after.upgrade_monitor == node.upgrade_monitor
            &&& after.has_bootstrap_manager == node.has_bootstrap_manager
            &&& after.has_ant_protocol == node.has_ant_protocol
            &&& after.routing == node.routing
        }),
{
}

} // verus!
