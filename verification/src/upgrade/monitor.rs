//! The upgrade monitor's settings and the reaction to its findings.

use crate::config::UpgradeChannel;
use crate::node::events::NodeEvent;
use std::path::PathBuf;
use vstd::prelude::*;
use vstd::slice::slice_to_vec;

verus! {

/// Where the list of releases is remembered, and for how long.
#[derive(Debug)]
pub struct ReleaseCache {
    /// Directory that holds it.
    pub cache_dir: PathBuf,
    /// Seconds for which it is taken at its word.
    pub ttl_secs: u64,
}

/// Spreads a release over time: each node takes it at a time of its own, which
/// the seed determines.
#[derive(Debug)]
pub struct StagedRollout {
    /// Bytes that differ from node to node.
    pub seed: Vec<u8>,
    /// Hours over which the release is spread.
    pub hours: u64,
}

/// Watches a repository for new releases.
#[derive(Debug)]
pub struct UpgradeMonitor {
    /// The repository.
    pub github_repo: String,
    /// Which releases are of interest.
    pub channel: UpgradeChannel,
    /// Hours between two checks.
    pub check_interval_hours: u64,
    /// Where the list of releases is remembered.
    pub release_cache: Option<ReleaseCache>,
    /// How a release is spread over time.
    pub staged_rollout: Option<StagedRollout>,
}

/// Mathematical content of an [`UpgradeMonitor`].
#[verifier::ext_equal]
pub struct MonitorModel {
    pub github_repo: Seq<char>,
    pub channel: UpgradeChannel,
    pub check_interval_hours: u64,
    pub release_cache: Option<ReleaseCache>,
    pub staged_rollout: Option<(Seq<u8>, u64)>,
}

impl View for UpgradeMonitor {
    type V = MonitorModel;

    open spec fn view(&self) -> MonitorModel {
        MonitorModel {
            github_repo: self.github_repo@,
            channel: self.channel,
            check_interval_hours: self.check_interval_hours,
            release_cache: self.release_cache,
            staged_rollout: match self.staged_rollout {
                Some(s) => Some((s.seed@, s.hours)),
                None => None,
            },
        }
    }
}

impl UpgradeMonitor {
    /// Create a monitor without release cache that takes releases at once.
    #[must_use]
    pub fn new(github_repo: String, channel: UpgradeChannel, check_interval_hours: u64) -> (m:
        Self)
        ensures
            m@ == (MonitorModel {
                github_repo: github_repo@,
                channel,
                check_interval_hours,
                release_cache: None,
                staged_rollout: None,
            }),
    {
        UpgradeMonitor {
            github_repo,
            channel,
            check_interval_hours,
            release_cache: None,
            staged_rollout: None,
        }
    }

    /// The monitor with a release cache.
    #[must_use]
    pub fn with_release_cache(self, cache: ReleaseCache) -> (m: Self)
        ensures
            m@ == (MonitorModel { release_cache: Some(cache), ..self@ }),
    {
        UpgradeMonitor {
            github_repo: self.github_repo,
            channel: self.channel,
            check_interval_hours: self.check_interval_hours,
            release_cache: Some(cache),
            staged_rollout: self.staged_rollout,
        }
    }

    /// The monitor with a staged rollout.
    #[must_use]
    pub fn with_staged_rollout(self, seed: &[u8], hours: u64) -> (m: Self)
        ensures
            m@ == (MonitorModel { staged_rollout: Some((seed@, hours)), ..self@ }),
    {
        let seed: Vec<u8> = slice_to_vec(seed);
        UpgradeMonitor {
            github_repo: self.github_repo,
            channel: self.channel,
            check_interval_hours: self.check_interval_hours,
            release_cache: self.release_cache,
            staged_rollout: Some(StagedRollout { seed, hours }),
        }
    }

    /// Whether releases are spread over time.
    #[must_use]
    pub fn has_staged_rollout(&self) -> (r: bool)
        ensures
            r == (self@.staged_rollout is Some),
    {
        self.staged_rollout.is_some()
    }
}

/// What a check for updates found.
#[derive(Debug)]
pub enum UpdateCheck {
    /// A newer version.
    Available(String),
    /// The running version is the latest.
    UpToDate,
    /// The check failed.
    Failed(String),
}

/// What follows a check for updates. In any case the next check comes after the
/// check interval.
#[derive(Debug)]
pub struct UpdateReaction {
    /// Event to send.
    pub event: Option<NodeEvent>,
    /// Whether the upgrade is then applied.
    pub apply: bool,
}

/// Decide what follows a check for updates: a newer version is announced and
/// applied, anything else has no consequence.
pub fn react_to_update_check(check: &UpdateCheck) -> (r: UpdateReaction)
    ensures
        r.apply == (check is Available),
        match check {
            UpdateCheck::Available(version) => r.event matches Some(
                NodeEvent::UpgradeAvailable { version: v },
            ) && v@ == version@,
            _ => r.event is None,
        },
{
    match check {
        UpdateCheck::Available(version) => UpdateReaction {
            event: Some(NodeEvent::UpgradeAvailable { version: version.clone() }),
            apply: true,
        },
        UpdateCheck::UpToDate => UpdateReaction { event: None, apply: false },
        UpdateCheck::Failed(_) => UpdateReaction { event: None, apply: false },
    }
}

} // verus!
