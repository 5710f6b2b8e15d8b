//! A gateway that runs: it starts its services, then watches what it depends on, one
//! event at a time, and takes itself down in order.
use crate::role::gateway::DscpUpdate;
use vstd::prelude::*;

verus! {

/// How long a change of backends is left to settle, in milliseconds.
pub const NODE_CHANGE_WAIT_MS: u64 = 3000;

/// What a look at something came to.
#[derive(Clone, Copy, Debug, PartialEq, Eq, Structural)]
pub enum Observed {
    Changed,
    Same,
    Failed,
}

/// What reading a changed configuration file came to.
#[derive(Clone, Copy, Debug, PartialEq, Eq, Structural)]
pub enum ReloadOutcome {
    Reloaded,
    NoFile,
    Unreadable,
    /// The file was read, but the addresses of this node were not found.
    NoAddress,
}

/// What a set-up came to.
#[derive(Clone, Copy, Debug, PartialEq, Eq, Structural)]
pub enum ApplyOutcome {
    Applied(DscpUpdate),
    Failed,
}

/// What restoring flows came to.
#[derive(Clone, Copy, Debug, PartialEq, Eq, Structural)]
pub enum RestoreOutcome {
    Restored,
    NotYet,
    Failed,
}

/// What ends a run.
#[derive(Clone, Copy, Debug, PartialEq, Eq, Structural)]
pub enum RunFault {
    NotRoot,
    Storage,
    Vip,
    Apply,
    LoadState,
    Metrics,
    Replication,
    Worker,
}

/// Where a run stands.
#[derive(Clone, Copy, Debug, PartialEq, Eq, Structural)]
pub enum RunStage {
    // The start.
    Root,
    Storage,
    Merge,
    StartVip,
    Notify,
    FirstApply,
    FirstPorts,
    Ui,
    Metrics,
    Replication,
    Probes,
    FlowSync,
    Bfd,
    Control,
    Clocks,
    // A round.
    Begin,
    Vip,
    Subscriptions,
    ConfigTime,
    Reload,
    Dirty,
    Settle,
    Sweep,
    Drift,
    DetachIdle,
    Marker,
    DropLost,
    Apply,
    Ports,
    Restore,
    Worker,
    Automations,
    Sleep,
    // The end.
    HandOff,
    Flush,
    Detach,
    DropMarker,
    ClearNative,
    Done,
    Failed(RunFault),
}

/// What a run asks for next.
#[derive(Clone, Copy, Debug, PartialEq, Eq, Structural)]
pub enum RunAction {
    RequireRoot,
    OpenStorage,
    /// Take in the backends that subscribed.
    MergeSubscriptions,
    ReconcileVip,
    SpawnNotifier,
    /// Set the gateway up, with a marker that the process holds.
    Apply,
    /// Read the ports that the last set-up saved.
    LoadPorts,
    SpawnUi,
    SpawnMetrics,
    SpawnReplication,
    SpawnProbes,
    SpawnFlowSync,
    SpawnBfd,
    SpawnControl,
    /// Read the clock, and when the configuration file was written.
    ReadClocks,
    AskShutdown,
    ReadConfigTime,
    ReloadConfig,
    TakeDirty,
    ReadClock,
    SweepFlows,
    /// Look at the tunnel and at the marker.
    InspectDrift,
    DetachMarker,
    InspectMarker,
    DropMarker,
    RestoreFlows,
    StartPersistence,
    ReconcileAutomations,
    Sleep,
    HandOffVip,
    FlushFlows,
    ClearNative,
    Finished,
    Failed(RunFault),
}

/// What came of what a run asked for.
#[derive(Clone, Debug)]
pub enum RunEvent {
    Passed,
    Refused,
    Seen(Observed),
    Merged { seen: Observed, now_ms: u64 },
    Applied(ApplyOutcome),
    Ports(Option<Vec<u32>>),
    Clocks { config_mtime: Option<u64>, now_ms: u64 },
    Shutdown(bool),
    ConfigTime(Option<u64>),
    Reloaded { outcome: ReloadOutcome, config_mtime: Option<u64> },
    Dirty(bool),
    Now(u64),
    Drift { link_present: bool, link_up: bool, attached: bool },
    Attached(bool),
    Restored(RestoreOutcome),
    Persisting(bool),
}

/// What came of what a run asked for, as plain values.
pub enum RunEventView {
    Passed,
    Refused,
    Seen(Observed),
    Merged { seen: Observed, now_ms: u64 },
    Applied(ApplyOutcome),
    Ports(Option<Seq<u32>>),
    Clocks { config_mtime: Option<u64>, now_ms: u64 },
    Shutdown(bool),
    ConfigTime(Option<u64>),
    Reloaded { outcome: ReloadOutcome, config_mtime: Option<u64> },
    Dirty(bool),
    Now(u64),
    Drift { link_present: bool, link_up: bool, attached: bool },
    Attached(bool),
    Restored(RestoreOutcome),
    Persisting(bool),
}

impl View for RunEvent {
    type V = RunEventView;

    open spec fn view(&self) -> RunEventView {
        match *self {
            RunEvent::Passed => RunEventView::Passed,
            RunEvent::Refused => RunEventView::Refused,
            RunEvent::Seen(seen) => RunEventView::Seen(seen),
            RunEvent::Merged { seen, now_ms } => RunEventView::Merged { seen, now_ms },
            RunEvent::Applied(outcome) => RunEventView::Applied(outcome),
            RunEvent::Ports(ports) => RunEventView::Ports(
                match ports {
                    Some(ports) => Some(ports@),
                    None => None,
                },
            ),
            RunEvent::Clocks { config_mtime, now_ms } => RunEventView::Clocks {
                config_mtime,
                now_ms,
            },
            RunEvent::Shutdown(asked) => RunEventView::Shutdown(asked),
            RunEvent::ConfigTime(time) => RunEventView::ConfigTime(time),
            RunEvent::Reloaded { outcome, config_mtime } => RunEventView::Reloaded {
                outcome,
                config_mtime,
            },
            RunEvent::Dirty(dirty) => RunEventView::Dirty(dirty),
            RunEvent::Now(now_ms) => RunEventView::Now(now_ms),
            RunEvent::Drift { link_present, link_up, attached } => RunEventView::Drift {
                link_present,
                link_up,
                attached,
            },
            RunEvent::Attached(attached) => RunEventView::Attached(attached),
            RunEvent::Restored(outcome) => RunEventView::Restored(outcome),
            RunEvent::Persisting(running) => RunEventView::Persisting(running),
        }
    }
}

/// A gateway that runs.
#[derive(Clone, Debug)]
pub struct GatewayRun {
    pub stage: RunStage,
    /// Since when a change of backends is left to settle.
    pub pending_since_ms: Option<u64>,
    /// When the configuration file was last written.
    pub config_mtime: Option<u64>,
    /// The ports whose packets are marked.
    pub ports: Vec<u32>,
    /// Whether the process holds the marker.
    pub holds_marker: bool,
    pub flows_restored: bool,
    pub worker_running: bool,
    /// Whether this round sets the gateway up again.
    pub needs_full: bool,
    /// Whether templates were reconciled in this round.
    pub automated: bool,
}

/// A gateway that runs, as plain values.
pub struct RunView {
    pub stage: RunStage,
    pub pending_since_ms: Option<u64>,
    pub config_mtime: Option<u64>,
    pub ports: Seq<u32>,
    pub holds_marker: bool,
    pub flows_restored: bool,
    pub worker_running: bool,
    pub needs_full: bool,
    pub automated: bool,
}

impl View for GatewayRun {
    type V = RunView;

    open spec fn view(&self) -> RunView {
        RunView {
            stage: self.stage,
            pending_since_ms: self.pending_since_ms,
            config_mtime: self.config_mtime,
            ports: self.ports@,
            holds_marker: self.holds_marker,
            flows_restored: self.flows_restored,
            worker_running: self.worker_running,
            needs_full: self.needs_full,
            automated: self.automated,
        }
    }
}

/// Whether a change of backends has settled.
pub open spec fn settled(since_ms: u64, now_ms: u64) -> bool {
    now_ms >= since_ms + NODE_CHANGE_WAIT_MS
}

/// Whether the tunnel or the marker has drifted so far that the gateway is set up again.
pub open spec fn drifted(ports: nat, link_present: bool, link_up: bool, attached: bool) -> bool {
    !link_present || !link_up || (ports > 0 && !attached)
}

impl RunView {
    /// The same run at another stage.
    pub open spec fn at(self, stage: RunStage) -> RunView {
        RunView { stage, ..self }
    }

    /// The run behind a step that must pass.
    pub open spec fn must(self, event: RunEventView, next: RunStage, fault: RunFault) -> RunView {
        match event {
            RunEventView::Passed => self.at(next),
            RunEventView::Refused => self.at(RunStage::Failed(fault)),
            _ => self,
        }
    }

    /// The run behind a step of which nothing depends on whether it passes.
    pub open spec fn may(self, event: RunEventView, next: RunStage) -> RunView {
        match event {
            RunEventView::Passed | RunEventView::Refused => self.at(next),
            _ => self,
        }
    }

    /// Where setting up begins: a marker that is held is looked at first.
    pub open spec fn setting_up(self) -> RunView {
        self.at(
            if self.holds_marker {
                RunStage::Marker
            } else {
                RunStage::Apply
            },
        )
    }

    /// Where a round goes on behind a set-up: templates are reconciled once, and not while
    /// a change of backends settles.
    pub open spec fn set_up(self) -> RunView {
        self.at(
            if !self.automated && self.pending_since_ms is None {
                RunStage::Automations
            } else {
                RunStage::Sleep
            },
        )
    }

    /// Where a round goes on once flows were seen to: the worker is started once.
    pub open spec fn persisted(self) -> RunView {
        if self.worker_running {
            self.set_up()
        } else {
            self.at(RunStage::Worker)
        }
    }

    /// The run behind a set-up of a round.
    pub open spec fn applied(self, outcome: ApplyOutcome) -> RunView {
        match outcome {
            ApplyOutcome::Failed => self.set_up(),
            ApplyOutcome::Applied(DscpUpdate::Clear) => RunView {
                holds_marker: false,
                ports: Seq::empty(),
                ..self
            }.persisted(),
            ApplyOutcome::Applied(DscpUpdate::Replace) => RunView {
                holds_marker: true,
                stage: RunStage::Ports,
                ..self
            },
            ApplyOutcome::Applied(DscpUpdate::Keep) => self.at(RunStage::Ports),
        }
    }

    /// The run behind a look at the clock.
    pub open spec fn waited(self, now_ms: u64) -> RunView {
        let looked = match self.pending_since_ms {
            Some(since) if settled(since, now_ms) => RunView {
                pending_since_ms: None,
                needs_full: true,
                ..self
            },
            _ => self,
        };
        if looked.needs_full {
            looked.setting_up()
        } else {
            looked.at(RunStage::Sweep)
        }
    }

    /// The run behind a step of the start.
    pub open spec fn starting(self, event: RunEventView) -> RunView {
        match self.stage {
            RunStage::Root => self.must(event, RunStage::Storage, RunFault::NotRoot),
            RunStage::Storage => self.must(event, RunStage::Merge, RunFault::Storage),
            RunStage::Merge => match event {
                RunEventView::Merged { .. } => self.at(RunStage::StartVip),
                _ => self,
            },
            RunStage::StartVip => match event {
                RunEventView::Seen(Observed::Failed) => self.at(RunStage::Failed(RunFault::Vip)),
                RunEventView::Seen(_) => self.at(RunStage::Notify),
                _ => self,
            },
            RunStage::Notify => self.may(event, RunStage::FirstApply),
            RunStage::FirstApply => match event {
                RunEventView::Applied(ApplyOutcome::Failed) => self.at(
                    RunStage::Failed(RunFault::Apply),
                ),
                RunEventView::Applied(ApplyOutcome::Applied(update)) => RunView {
                    holds_marker: update is Replace,
                    stage: RunStage::FirstPorts,
                    ..self
                },
                _ => self,
            },
            RunStage::FirstPorts => match event {
                RunEventView::Ports(Some(ports)) => RunView { ports, stage: RunStage::Ui, ..self },
                RunEventView::Ports(None) => self.at(RunStage::Failed(RunFault::LoadState)),
                _ => self,
            },
            RunStage::Ui => self.may(event, RunStage::Metrics),
            RunStage::Metrics => self.must(event, RunStage::Replication, RunFault::Metrics),
            RunStage::Replication => self.must(event, RunStage::Probes, RunFault::Replication),
            RunStage::Probes => self.may(event, RunStage::FlowSync),
            RunStage::FlowSync => self.may(event, RunStage::Bfd),
            RunStage::Bfd => self.may(event, RunStage::Control),
            RunStage::Control => self.may(event, RunStage::Clocks),
            RunStage::Clocks => match event {
                RunEventView::Clocks { config_mtime, now_ms } => RunView {
                    config_mtime,
                    pending_since_ms: Some(now_ms),
                    stage: RunStage::Begin,
                    ..self
                },
                _ => self,
            },
            _ => self,
        }
    }

    /// The run behind a step of a round that finds out whether to set up.
    pub open spec fn looking(self, event: RunEventView) -> RunView {
        match (self.stage, event) {
            (RunStage::Begin, RunEventView::Shutdown(asked)) => self.at(
                if asked {
                    RunStage::HandOff
                } else {
                    RunStage::Vip
                },
            ),
            (RunStage::Vip, RunEventView::Seen(seen)) => RunView {
                needs_full: seen is Changed,
                automated: false,
                stage: RunStage::Subscriptions,
                ..self
            },
            (RunStage::Subscriptions, RunEventView::Merged { seen, now_ms }) => RunView {
                pending_since_ms: if seen is Changed {
                    Some(now_ms)
                } else {
                    self.pending_since_ms
                },
                stage: RunStage::ConfigTime,
                ..self
            },
            (RunStage::ConfigTime, RunEventView::ConfigTime(time)) => self.at(
                if time == self.config_mtime {
                    RunStage::Dirty
                } else {
                    RunStage::Reload
                },
            ),
            (RunStage::Reload, RunEventView::Reloaded { outcome, config_mtime }) => match outcome {
                ReloadOutcome::Reloaded => RunView {
                    needs_full: true,
                    config_mtime,
                    stage: RunStage::Dirty,
                    ..self
                },
                ReloadOutcome::NoAddress => self.at(RunStage::Sleep),
                _ => self.at(RunStage::Dirty),
            },
            (RunStage::Dirty, RunEventView::Dirty(dirty)) => RunView {
                needs_full: self.needs_full || dirty,
                stage: RunStage::Settle,
                ..self
            },
            (RunStage::Settle, RunEventView::Now(now_ms)) => self.waited(now_ms),
            (RunStage::Sweep, RunEventView::Passed) => self.at(RunStage::Drift),
            (RunStage::Sweep, RunEventView::Refused) => self.at(RunStage::Drift),
            (RunStage::Drift, RunEventView::Refused) => self.at(RunStage::Sleep),
            (RunStage::Drift, RunEventView::Drift { link_present, link_up, attached }) => if drifted(
                self.ports.len(),
                link_present,
                link_up,
                attached,
            ) {
                RunView { needs_full: true, ..self }.setting_up()
            } else if self.ports.len() == 0 && attached {
                self.at(RunStage::DetachIdle)
            } else {
                self.at(RunStage::Sleep)
            },
            (RunStage::DetachIdle, _) => self.may(event, RunStage::Sleep),
            _ => self,
        }
    }

    /// The run behind a step of a round that sets up.
    pub open spec fn working(self, event: RunEventView) -> RunView {
        match (self.stage, event) {
            (RunStage::Marker, RunEventView::Attached(attached)) => self.at(
                if attached {
                    RunStage::Apply
                } else {
                    RunStage::DropLost
                },
            ),
            (RunStage::DropLost, RunEventView::Passed) => RunView {
                holds_marker: false,
                stage: RunStage::Apply,
                ..self
            },
            (RunStage::DropLost, RunEventView::Refused) => RunView {
                holds_marker: false,
                stage: RunStage::Apply,
                ..self
            },
            (RunStage::Apply, RunEventView::Applied(outcome)) => self.applied(outcome),
            (RunStage::Ports, RunEventView::Ports(Some(ports))) => {
                let read = RunView { ports, ..self };
                if self.flows_restored {
                    read.persisted()
                } else {
                    read.at(RunStage::Restore)
                }
            },
            (RunStage::Ports, RunEventView::Ports(None)) => self.at(
                RunStage::Failed(RunFault::LoadState),
            ),
            (RunStage::Restore, RunEventView::Restored(outcome)) => RunView {
                flows_restored: !(outcome is NotYet),
                ..self
            }.persisted(),
            (RunStage::Worker, RunEventView::Persisting(running)) => RunView {
                worker_running: running,
                ..self
            }.set_up(),
            (RunStage::Worker, RunEventView::Refused) => self.at(RunStage::Failed(RunFault::Worker)),
            (RunStage::Automations, RunEventView::Seen(seen)) => if seen is Changed {
                RunView { automated: true, ..self }.setting_up()
            } else {
                self.at(RunStage::Sleep)
            },
            (RunStage::Sleep, _) => self.may(event, RunStage::Begin),
            _ => self,
        }
    }

    /// The run behind a step of the end: each is taken whatever the one ahead came to.
    pub open spec fn ending(self, event: RunEventView) -> RunView {
        match self.stage {
            RunStage::HandOff => self.may(event, RunStage::Flush),
            RunStage::Flush => self.may(event, RunStage::Detach),
            RunStage::Detach => self.may(event, RunStage::DropMarker),
            RunStage::DropMarker => RunView {
                holds_marker: self.holds_marker && !(event is Passed || event is Refused),
                ..self.may(event, RunStage::ClearNative)
            },
            RunStage::ClearNative => self.may(event, RunStage::Done),
            _ => self,
        }
    }

    /// The run behind a step. What does not answer the question changes nothing.
    pub open spec fn next(self, event: RunEventView) -> RunView {
        match phase(self.stage) {
            Phase::Start => self.starting(event),
            Phase::Look => self.looking(event),
            Phase::Work => self.working(event),
            Phase::End => self.ending(event),
        }
    }
}

/// A part of a run.
#[derive(Clone, Copy, Debug, PartialEq, Eq, Structural)]
pub enum Phase {
    Start,
    Look,
    Work,
    End,
}

/// The part that a stage belongs to.
pub open spec fn phase(stage: RunStage) -> Phase {
    match stage {
        RunStage::Root | RunStage::Storage | RunStage::Merge | RunStage::StartVip
        | RunStage::Notify | RunStage::FirstApply | RunStage::FirstPorts | RunStage::Ui
        | RunStage::Metrics | RunStage::Replication | RunStage::Probes | RunStage::FlowSync
        | RunStage::Bfd | RunStage::Control | RunStage::Clocks => Phase::Start,
        RunStage::Begin | RunStage::Vip | RunStage::Subscriptions | RunStage::ConfigTime
        | RunStage::Reload | RunStage::Dirty | RunStage::Settle | RunStage::Sweep
        | RunStage::Drift | RunStage::DetachIdle => Phase::Look,
        RunStage::Marker | RunStage::DropLost | RunStage::Apply | RunStage::Ports
        | RunStage::Restore | RunStage::Worker | RunStage::Automations | RunStage::Sleep =>
            Phase::Work,
        _ => Phase::End,
    }
}

fn phase_of(stage: RunStage) -> (p: Phase)
    ensures
        p == phase(stage),
{
    match stage {
        RunStage::Root | RunStage::Storage | RunStage::Merge | RunStage::StartVip
        | RunStage::Notify | RunStage::FirstApply | RunStage::FirstPorts | RunStage::Ui
        | RunStage::Metrics | RunStage::Replication | RunStage::Probes | RunStage::FlowSync
        | RunStage::Bfd | RunStage::Control | RunStage::Clocks => Phase::Start,
        RunStage::Begin | RunStage::Vip | RunStage::Subscriptions | RunStage::ConfigTime
        | RunStage::Reload | RunStage::Dirty | RunStage::Settle | RunStage::Sweep
        | RunStage::Drift | RunStage::DetachIdle => Phase::Look,
        RunStage::Marker | RunStage::DropLost | RunStage::Apply | RunStage::Ports
        | RunStage::Restore | RunStage::Worker | RunStage::Automations | RunStage::Sleep =>
            Phase::Work,
        RunStage::HandOff | RunStage::Flush | RunStage::Detach | RunStage::DropMarker
        | RunStage::ClearNative | RunStage::Done | RunStage::Failed(_) => Phase::End,
    }
}

/// What a stage asks for.
pub open spec fn asked(stage: RunStage) -> RunAction {
    match stage {
        RunStage::Root => RunAction::RequireRoot,
        RunStage::Storage => RunAction::OpenStorage,
        RunStage::Merge | RunStage::Subscriptions => RunAction::MergeSubscriptions,
        RunStage::StartVip | RunStage::Vip => RunAction::ReconcileVip,
        RunStage::Notify => RunAction::SpawnNotifier,
        RunStage::FirstApply | RunStage::Apply => RunAction::Apply,
        RunStage::FirstPorts | RunStage::Ports => RunAction::LoadPorts,
        RunStage::Ui => RunAction::SpawnUi,
        RunStage::Metrics => RunAction::SpawnMetrics,
        RunStage::Replication => RunAction::SpawnReplication,
        RunStage::Probes => RunAction::SpawnProbes,
        RunStage::FlowSync => RunAction::SpawnFlowSync,
        RunStage::Bfd => RunAction::SpawnBfd,
        RunStage::Control => RunAction::SpawnControl,
        RunStage::Clocks => RunAction::ReadClocks,
        RunStage::Begin => RunAction::AskShutdown,
        RunStage::ConfigTime => RunAction::ReadConfigTime,
        RunStage::Reload => RunAction::ReloadConfig,
        RunStage::Dirty => RunAction::TakeDirty,
        RunStage::Settle => RunAction::ReadClock,
        RunStage::Sweep => RunAction::SweepFlows,
        RunStage::Drift => RunAction::InspectDrift,
        RunStage::DetachIdle | RunStage::Detach => RunAction::DetachMarker,
        RunStage::Marker => RunAction::InspectMarker,
        RunStage::DropLost | RunStage::DropMarker => RunAction::DropMarker,
        RunStage::Restore => RunAction::RestoreFlows,
        RunStage::Worker => RunAction::StartPersistence,
        RunStage::Automations => RunAction::ReconcileAutomations,
        RunStage::Sleep => RunAction::Sleep,
        RunStage::HandOff => RunAction::HandOffVip,
        RunStage::Flush => RunAction::FlushFlows,
        RunStage::ClearNative => RunAction::ClearNative,
        RunStage::Done => RunAction::Finished,
        RunStage::Failed(fault) => RunAction::Failed(fault),
    }
}

/// A run that has not begun.
pub open spec fn run_start() -> RunView {
    RunView {
        stage: RunStage::Root,
        pending_since_ms: None,
        config_mtime: None,
        ports: Seq::empty(),
        holds_marker: false,
        flows_restored: false,
        worker_running: false,
        needs_full: false,
        automated: false,
    }
}

/// Starts to run a gateway.
pub fn run() -> (run: GatewayRun)
    ensures
        run@ == run_start(),
{
    let run = GatewayRun {
        stage: RunStage::Root,
        pending_since_ms: None,
        config_mtime: None,
        ports: Vec::new(),
        holds_marker: false,
        flows_restored: false,
        worker_running: false,
        needs_full: false,
        automated: false,
    };
    assert(run.ports@ =~= Seq::<u32>::empty());
    run
}

fn same_time(a: Option<u64>, b: Option<u64>) -> (same: bool)
    ensures
        same == (a == b),
{
    match (a, b) {
        (None, None) => true,
        (Some(a), Some(b)) => a == b,
        _ => false,
    }
}

impl GatewayRun {
    /// What the run asks for next.
    pub fn action(&self) -> (action: RunAction)
        ensures
            action == asked(self@.stage),
    {
        match self.stage {
            RunStage::Root => RunAction::RequireRoot,
            RunStage::Storage => RunAction::OpenStorage,
            RunStage::Merge | RunStage::Subscriptions => RunAction::MergeSubscriptions,
            RunStage::StartVip | RunStage::Vip => RunAction::ReconcileVip,
            RunStage::Notify => RunAction::SpawnNotifier,
            RunStage::FirstApply | RunStage::Apply => RunAction::Apply,
            RunStage::FirstPorts | RunStage::Ports => RunAction::LoadPorts,
            RunStage::Ui => RunAction::SpawnUi,
            RunStage::Metrics => RunAction::SpawnMetrics,
            RunStage::Replication => RunAction::SpawnReplication,
            RunStage::Probes => RunAction::SpawnProbes,
            RunStage::FlowSync => RunAction::SpawnFlowSync,
            RunStage::Bfd => RunAction::SpawnBfd,
            RunStage::Control => RunAction::SpawnControl,
            RunStage::Clocks => RunAction::ReadClocks,
            RunStage::Begin => RunAction::AskShutdown,
            RunStage::ConfigTime => RunAction::ReadConfigTime,
            RunStage::Reload => RunAction::ReloadConfig,
            RunStage::Dirty => RunAction::TakeDirty,
            RunStage::Settle => RunAction::ReadClock,
            RunStage::Sweep => RunAction::SweepFlows,
            RunStage::Drift => RunAction::InspectDrift,
            RunStage::DetachIdle | RunStage::Detach => RunAction::DetachMarker,
            RunStage::Marker => RunAction::InspectMarker,
            RunStage::DropLost | RunStage::DropMarker => RunAction::DropMarker,
            RunStage::Restore => RunAction::RestoreFlows,
            RunStage::Worker => RunAction::StartPersistence,
            RunStage::Automations => RunAction::ReconcileAutomations,
            RunStage::Sleep => RunAction::Sleep,
            RunStage::HandOff => RunAction::HandOffVip,
            RunStage::Flush => RunAction::FlushFlows,
            RunStage::ClearNative => RunAction::ClearNative,
            RunStage::Done => RunAction::Finished,
            RunStage::Failed(fault) => RunAction::Failed(fault),
        }
    }

    fn must(&mut self, event: &RunEvent, next: RunStage, fault: RunFault)
        ensures
            final(self)@ == old(self)@.must(event@, next, fault),
    {
        match event {
            RunEvent::Passed => {
                self.stage = next;
            },
            RunEvent::Refused => {
                self.stage = RunStage::Failed(fault);
            },
            _ => {},
        }
    }

    fn may(&mut self, event: &RunEvent, next: RunStage)
        ensures
            final(self)@ == old(self)@.may(event@, next),
    {
        match event {
            RunEvent::Passed | RunEvent::Refused => {
                self.stage = next;
            },
            _ => {},
        }
    }

    fn begin_set_up(&mut self)
        ensures
            final(self)@ == old(self)@.setting_up(),
    {
        self.stage = if self.holds_marker {
            RunStage::Marker
        } else {
            RunStage::Apply
        };
    }

    fn end_set_up(&mut self)
        ensures
            final(self)@ == old(self)@.set_up(),
    {
        self.stage = if !self.automated && self.pending_since_ms.is_none() {
            RunStage::Automations
        } else {
            RunStage::Sleep
        };
    }

    fn see_to_worker(&mut self)
        ensures
            final(self)@ == old(self)@.persisted(),
    {
        if self.worker_running {
            self.end_set_up();
        } else {
            self.stage = RunStage::Worker;
        }
    }

    fn take_apply(&mut self, outcome: ApplyOutcome)
        ensures
            final(self)@ == old(self)@.applied(outcome),
    {
        match outcome {
            ApplyOutcome::Failed => {
                self.end_set_up();
            },
            ApplyOutcome::Applied(DscpUpdate::Clear) => {
                self.holds_marker = false;
                self.ports = Vec::new();
                assert(self.ports@ =~= Seq::<u32>::empty());
                self.see_to_worker();
            },
            ApplyOutcome::Applied(DscpUpdate::Replace) => {
                self.holds_marker = true;
                self.stage = RunStage::Ports;
            },
            ApplyOutcome::Applied(DscpUpdate::Keep) => {
                self.stage = RunStage::Ports;
            },
        }
    }

    fn take_clock(&mut self, now_ms: u64)
        ensures
            final(self)@ == old(self)@.waited(now_ms),
    {
        if let Some(since) = self.pending_since_ms {
            if now_ms >= since && now_ms - since >= NODE_CHANGE_WAIT_MS {
                self.pending_since_ms = None;
                self.needs_full = true;
            }
        }
        if self.needs_full {
            self.begin_set_up();
        } else {
            self.stage = RunStage::Sweep;
        }
    }

    fn advance_start(&mut self, event: RunEvent)
        ensures
            final(self)@ == old(self)@.starting(event@),
    {
        match self.stage {
            RunStage::Root => self.must(&event, RunStage::Storage, RunFault::NotRoot),
            RunStage::Storage => self.must(&event, RunStage::Merge, RunFault::Storage),
            RunStage::Merge => match event {
                RunEvent::Merged { .. } => {
                    self.stage = RunStage::StartVip;
                },
                _ => {},
            },
            RunStage::StartVip => match event {
                RunEvent::Seen(Observed::Failed) => {
                    self.stage = RunStage::Failed(RunFault::Vip);
                },
                RunEvent::Seen(_) => {
                    self.stage = RunStage::Notify;
                },
                _ => {},
            },
            RunStage::Notify => self.may(&event, RunStage::FirstApply),
            RunStage::FirstApply => match event {
                RunEvent::Applied(ApplyOutcome::Failed) => {
                    self.stage = RunStage::Failed(RunFault::Apply);
                },
                RunEvent::Applied(ApplyOutcome::Applied(update)) => {
                    self.holds_marker = matches!(update, DscpUpdate::Replace);
                    self.stage = RunStage::FirstPorts;
                },
                _ => {},
            },
            RunStage::FirstPorts => match event {
                RunEvent::Ports(Some(ports)) => {
                    self.ports = ports;
                    self.stage = RunStage::Ui;
                },
                RunEvent::Ports(None) => {
                    self.stage = RunStage::Failed(RunFault::LoadState);
                },
                _ => {},
            },
            RunStage::Ui => self.may(&event, RunStage::Metrics),
            RunStage::Metrics => self.must(&event, RunStage::Replication, RunFault::Metrics),
            RunStage::Replication => self.must(&event, RunStage::Probes, RunFault::Replication),
            RunStage::Probes => self.may(&event, RunStage::FlowSync),
            RunStage::FlowSync => self.may(&event, RunStage::Bfd),
            RunStage::Bfd => self.may(&event, RunStage::Control),
            RunStage::Control => self.may(&event, RunStage::Clocks),
            RunStage::Clocks => match event {
                RunEvent::Clocks { config_mtime, now_ms } => {
                    self.config_mtime = config_mtime;
                    self.pending_since_ms = Some(now_ms);
                    self.stage = RunStage::Begin;
                },
                _ => {},
            },
            _ => {},
        }
    }

    fn take_reload(&mut self, outcome: ReloadOutcome, config_mtime: Option<u64>)
        requires
            old(self).stage == RunStage::Reload,
        ensures
            final(self)@ == old(self)@.looking(RunEventView::Reloaded { outcome, config_mtime }),
    {
        match outcome {
            ReloadOutcome::Reloaded => {
                self.needs_full = true;
                self.config_mtime = config_mtime;
                self.stage = RunStage::Dirty;
            },
            ReloadOutcome::NoAddress => {
                self.stage = RunStage::Sleep;
            },
            ReloadOutcome::NoFile | ReloadOutcome::Unreadable => {
                self.stage = RunStage::Dirty;
            },
        }
    }

    fn take_drift(&mut self, link_present: bool, link_up: bool, attached: bool)
        requires
            old(self).stage == RunStage::Drift,
        ensures
            final(self)@ == old(self)@.looking(
                RunEventView::Drift { link_present, link_up, attached },
            ),
    {
        if !link_present || !link_up || (self.ports.len() > 0 && !attached) {
            self.needs_full = true;
            self.begin_set_up();
        } else if self.ports.len() == 0 && attached {
            self.stage = RunStage::DetachIdle;
        } else {
            self.stage = RunStage::Sleep;
        }
    }

    fn advance_look(&mut self, event: RunEvent)
        ensures
            final(self)@ == old(self)@.looking(event@),
    {
        match (self.stage, event) {
            (RunStage::Begin, RunEvent::Shutdown(asked)) => {
                self.stage = if asked {
                    RunStage::HandOff
                } else {
                    RunStage::Vip
                };
            },
            (RunStage::Vip, RunEvent::Seen(seen)) => {
                self.needs_full = matches!(seen, Observed::Changed);
                self.automated = false;
                self.stage = RunStage::Subscriptions;
            },
            (RunStage::Subscriptions, RunEvent::Merged { seen, now_ms }) => {
                if matches!(seen, Observed::Changed) {
                    self.pending_since_ms = Some(now_ms);
                }
                self.stage = RunStage::ConfigTime;
            },
            (RunStage::ConfigTime, RunEvent::ConfigTime(time)) => {
                self.stage = if same_time(time, self.config_mtime) {
                    RunStage::Dirty
                } else {
                    RunStage::Reload
                };
            },
            (RunStage::Reload, RunEvent::Reloaded { outcome, config_mtime }) => {
                self.take_reload(outcome, config_mtime);
            },
            (RunStage::Dirty, RunEvent::Dirty(dirty)) => {
                if dirty {
                    self.needs_full = true;
                }
                self.stage = RunStage::Settle;
            },
            (RunStage::Settle, RunEvent::Now(now_ms)) => {
                self.take_clock(now_ms);
            },
            (RunStage::Sweep, RunEvent::Passed) => {
                self.stage = RunStage::Drift;
            },
            (RunStage::Sweep, RunEvent::Refused) => {
                self.stage = RunStage::Drift;
            },
            (RunStage::Drift, RunEvent::Refused) => {
                self.stage = RunStage::Sleep;
            },
            (RunStage::Drift, RunEvent::Drift { link_present, link_up, attached }) => {
                self.take_drift(link_present, link_up, attached);
            },
            (RunStage::DetachIdle, event) => {
                self.may(&event, RunStage::Sleep);
            },
            _ => {},
        }
    }

    fn advance_work(&mut self, event: RunEvent)
        ensures
            final(self)@ == old(self)@.working(event@),
    {
        match (self.stage, event) {
            (RunStage::Marker, RunEvent::Attached(attached)) => {
                self.stage = if attached {
                    RunStage::Apply
                } else {
                    RunStage::DropLost
                };
            },
            (RunStage::DropLost, RunEvent::Passed) => {
                self.holds_marker = false;
                self.stage = RunStage::Apply;
            },
            (RunStage::DropLost, RunEvent::Refused) => {
                self.holds_marker = false;
                self.stage = RunStage::Apply;
            },
            (RunStage::Apply, RunEvent::Applied(outcome)) => {
                self.take_apply(outcome);
            },
            (RunStage::Ports, RunEvent::Ports(Some(ports))) => {
                self.ports = ports;
                if self.flows_restored {
                    self.see_to_worker();
                } else {
                    self.stage = RunStage::Restore;
                }
            },
            (RunStage::Ports, RunEvent::Ports(None)) => {
                self.stage = RunStage::Failed(RunFault::LoadState);
            },
            (RunStage::Restore, RunEvent::Restored(outcome)) => {
                self.flows_restored = !matches!(outcome, RestoreOutcome::NotYet);
                self.see_to_worker();
            },
            (RunStage::Worker, RunEvent::Persisting(running)) => {
                self.worker_running = running;
                self.end_set_up();
            },
            (RunStage::Worker, RunEvent::Refused) => {
                self.stage = RunStage::Failed(RunFault::Worker);
            },
            (RunStage::Automations, RunEvent::Seen(seen)) => {
                if matches!(seen, Observed::Changed) {
                    self.automated = true;
                    self.begin_set_up();
                } else {
                    self.stage = RunStage::Sleep;
                }
            },
            (RunStage::Sleep, event) => {
                self.may(&event, RunStage::Begin);
            },
            _ => {},
        }
    }

    fn advance_end(&mut self, event: RunEvent)
        ensures
            final(self)@ == old(self)@.ending(event@),
    {
        match self.stage {
            RunStage::HandOff => self.may(&event, RunStage::Flush),
            RunStage::Flush => self.may(&event, RunStage::Detach),
            RunStage::Detach => self.may(&event, RunStage::DropMarker),
            RunStage::DropMarker => {
                if matches!(event, RunEvent::Passed) || matches!(event, RunEvent::Refused) {
                    self.holds_marker = false;
                }
                self.may(&event, RunStage::ClearNative);
            },
            RunStage::ClearNative => self.may(&event, RunStage::Done),
            _ => {},
        }
    }

    /// Goes on with what came of what was asked for. What does not answer the question
    /// changes nothing.
    pub fn advance(&mut self, event: RunEvent)
        ensures
            final(self)@ == old(self)@.next(event@),
    {
        match phase_of(self.stage) {
            Phase::Start => self.advance_start(event),
            Phase::Look => self.advance_look(event),
            Phase::Work => self.advance_work(event),
            Phase::End => self.advance_end(event),
        }
    }
}

// ---------------------------------------------------------------------------
// Laws
// ---------------------------------------------------------------------------

/// Whether a run holds together: drift is looked at only where nothing else asks for a
/// set-up, a gateway is set up only where something does, and templates are reconciled
/// only where no change of backends is left to settle.
pub open spec fn sound(run: RunView) -> bool {
    &&& (run.stage == RunStage::Sweep || run.stage == RunStage::Drift || run.stage
        == RunStage::DetachIdle ==> !run.needs_full)
    &&& (run.stage == RunStage::Marker || run.stage == RunStage::DropLost || run.stage
        == RunStage::Apply || run.stage == RunStage::Ports || run.stage == RunStage::Restore
        || run.stage == RunStage::Worker || run.stage == RunStage::Automations
        ==> run.needs_full)
    &&& (run.stage == RunStage::Automations ==> run.pending_since_ms is None && !run.automated)
    &&& (run.stage == RunStage::Marker || run.stage == RunStage::DropLost ==> run.holds_marker)
    &&& (run.stage == RunStage::Restore ==> !run.flows_restored)
    &&& (run.stage == RunStage::Worker ==> !run.worker_running)
}

/// A run holds together from its start on, whatever comes of what it asks for.
pub proof fn law_run_holds_together(run: RunView, event: RunEventView)
    ensures
        sound(run_start()),
        sound(run) ==> sound(run.next(event)),
{
}

/// A change of backends sets the gateway up again once it has settled, and not before.
pub proof fn law_node_changes_settle(run: RunView, since_ms: u64, now_ms: u64)
    requires
        run.stage == RunStage::Settle,
        run.pending_since_ms == Some(since_ms),
    ensures
        now_ms < since_ms + NODE_CHANGE_WAIT_MS ==> run.next(
            RunEventView::Now(now_ms),
        ).pending_since_ms == Some(since_ms),
        now_ms < since_ms + NODE_CHANGE_WAIT_MS && !run.needs_full ==> run.next(
            RunEventView::Now(now_ms),
        ).stage == RunStage::Sweep,
        now_ms >= since_ms + NODE_CHANGE_WAIT_MS ==> {
            let next = run.next(RunEventView::Now(now_ms));
            &&& next.pending_since_ms is None
            &&& next.needs_full
            &&& next.stage == RunStage::Apply || next.stage == RunStage::Marker
        },
{
}

/// Flows that were restored are never restored again, and a worker that runs is never
/// started again.
pub proof fn law_once_is_enough(run: RunView, event: RunEventView)
    requires
        sound(run),
    ensures
        run.flows_restored ==> run.next(event).flows_restored && run.next(event).stage
            != RunStage::Restore,
        run.worker_running ==> run.next(event).worker_running && run.next(event).stage
            != RunStage::Worker,
{
}

/// A set-up that failed in a round ends no run and changes nothing that is kept.
pub proof fn law_failed_setup_changes_nothing(run: RunView)
    requires
        run.stage == RunStage::Apply,
    ensures
        ({
            let next = run.next(RunEventView::Applied(ApplyOutcome::Failed));
            &&& next.stage == RunStage::Sleep || next.stage == RunStage::Automations
            &&& next == run.at(next.stage)
        }),
{
}

/// A run is ended only where it is asked to at the beginning of a round, where it cannot
/// start, or where what it saved cannot be read; a round that only looks never ends it.
pub proof fn law_rounds_go_on(run: RunView, event: RunEventView)
    ensures
        phase(run.stage) == Phase::Look && run.stage != RunStage::Begin ==> !(phase(
            run.next(event).stage,
        ) == Phase::End),
        phase(run.stage) == Phase::Work ==> {
            let stage = run.next(event).stage;
            phase(stage) == Phase::End ==> stage == RunStage::Failed(RunFault::LoadState) || stage
                == RunStage::Failed(RunFault::Worker)
        },
{
}

/// Once a run is asked to end it hands the address over, flushes flows, takes the marker
/// off, lets it go and clears the datapath, whatever each of these comes to.
pub proof fn law_end_is_complete(run: RunView, event: RunEventView)
    requires
        event is Passed || event is Refused,
    ensures
        run.stage == RunStage::Begin ==> asked(run.next(RunEventView::Shutdown(true)).stage)
            == RunAction::HandOffVip,
        run.stage == RunStage::HandOff ==> asked(run.next(event).stage) == RunAction::FlushFlows,
        run.stage == RunStage::Flush ==> asked(run.next(event).stage) == RunAction::DetachMarker,
        run.stage == RunStage::Detach ==> asked(run.next(event).stage) == RunAction::DropMarker,
        run.stage == RunStage::DropMarker ==> asked(run.next(event).stage)
            == RunAction::ClearNative && !run.next(event).holds_marker,
        run.stage == RunStage::ClearNative ==> asked(run.next(event).stage) == RunAction::Finished,
{
}

/// A run whose steps pass opens its storage, takes in the backends, brings the address in
/// line, sets the gateway up and reads its ports.
pub proof fn law_start_goes_in_order(
    run: RunView,
    seen: Observed,
    ports: Seq<u32>,
    update: DscpUpdate,
    now_ms: u64,
)
    requires
        !(seen is Failed),
    ensures
        asked(run_start().stage) == RunAction::RequireRoot,
        run.stage == RunStage::Root ==> asked(run.next(RunEventView::Passed).stage)
            == RunAction::OpenStorage,
        run.stage == RunStage::Storage ==> asked(run.next(RunEventView::Passed).stage)
            == RunAction::MergeSubscriptions,
        run.stage == RunStage::Merge ==> asked(
            run.next(RunEventView::Merged { seen, now_ms }).stage,
        ) == RunAction::ReconcileVip,
        run.stage == RunStage::StartVip ==> asked(run.next(RunEventView::Seen(seen)).stage)
            == RunAction::SpawnNotifier,
        run.stage == RunStage::Notify ==> asked(run.next(RunEventView::Passed).stage)
            == RunAction::Apply,
        run.stage == RunStage::FirstApply ==> ({
            let next = run.next(RunEventView::Applied(ApplyOutcome::Applied(update)));
            asked(next.stage) == RunAction::LoadPorts && next.holds_marker == (update
                == DscpUpdate::Replace)
        }),
        run.stage == RunStage::FirstPorts ==> ({
            let next = run.next(RunEventView::Ports(Some(ports)));
            asked(next.stage) == RunAction::SpawnUi && next.ports == ports
        }),
{
}

/// The services of a run are started one by one, and the first round begins with a change of
/// backends that is left to settle.
pub proof fn law_services_start_in_order(run: RunView, config_mtime: Option<u64>, now_ms: u64)
    ensures
        run.stage == RunStage::Ui ==> asked(run.next(RunEventView::Passed).stage)
            == RunAction::SpawnMetrics,
        run.stage == RunStage::Metrics ==> asked(run.next(RunEventView::Passed).stage)
            == RunAction::SpawnReplication,
        run.stage == RunStage::Replication ==> asked(run.next(RunEventView::Passed).stage)
            == RunAction::SpawnProbes,
        run.stage == RunStage::Probes ==> asked(run.next(RunEventView::Passed).stage)
            == RunAction::SpawnFlowSync,
        run.stage == RunStage::FlowSync ==> asked(run.next(RunEventView::Passed).stage)
            == RunAction::SpawnBfd,
        run.stage == RunStage::Bfd ==> asked(run.next(RunEventView::Passed).stage)
            == RunAction::SpawnControl,
        run.stage == RunStage::Control ==> asked(run.next(RunEventView::Passed).stage)
            == RunAction::ReadClocks,
        run.stage == RunStage::Clocks ==> ({
            let next = run.next(RunEventView::Clocks { config_mtime, now_ms });
            asked(next.stage) == RunAction::AskShutdown && next.config_mtime == config_mtime
                && next.pending_since_ms == Some(now_ms)
        }),
{
}

/// A step without which a run cannot start ends it, and the fault says which it was.
pub proof fn law_failed_starts_are_named(run: RunView)
    ensures
        run.stage == RunStage::Root ==> run.next(RunEventView::Refused).stage == RunStage::Failed(
            RunFault::NotRoot,
        ),
        run.stage == RunStage::Storage ==> run.next(RunEventView::Refused).stage
            == RunStage::Failed(RunFault::Storage),
        run.stage == RunStage::StartVip ==> run.next(RunEventView::Seen(Observed::Failed)).stage
            == RunStage::Failed(RunFault::Vip),
        run.stage == RunStage::FirstApply ==> run.next(
            RunEventView::Applied(ApplyOutcome::Failed),
        ).stage == RunStage::Failed(RunFault::Apply),
        run.stage == RunStage::FirstPorts ==> run.next(RunEventView::Ports(None)).stage
            == RunStage::Failed(RunFault::LoadState),
        run.stage == RunStage::Metrics ==> run.next(RunEventView::Refused).stage
            == RunStage::Failed(RunFault::Metrics),
        run.stage == RunStage::Replication ==> run.next(RunEventView::Refused).stage
            == RunStage::Failed(RunFault::Replication),
        run.stage == RunStage::Worker ==> run.next(RunEventView::Refused).stage
            == RunStage::Failed(RunFault::Worker),
{
}

/// A round begins by asking whether to end, looks at the address and at the backends, and asks
/// for no set-up where they did not change.
pub proof fn law_quiet_rounds_only_look(run: RunView, now_ms: u64)
    ensures
        run.stage == RunStage::Begin ==> asked(run.next(RunEventView::Shutdown(false)).stage)
            == RunAction::ReconcileVip,
        run.stage == RunStage::Vip ==> ({
            let next = run.next(RunEventView::Seen(Observed::Same));
            asked(next.stage) == RunAction::MergeSubscriptions && !next.needs_full
                && !next.automated
        }),
        run.stage == RunStage::Subscriptions ==> ({
            let next = run.next(RunEventView::Merged { seen: Observed::Same, now_ms });
            asked(next.stage) == RunAction::ReadConfigTime && next.pending_since_ms
                == run.pending_since_ms
        }),
        run.stage == RunStage::Begin ==> asked(run.next(RunEventView::Shutdown(true)).stage)
            == RunAction::HandOffVip,
{
}

/// A round in which nothing was written or asked for goes on to the clock, to the flows and
/// to what may have drifted.
pub proof fn law_quiet_rounds_go_on(run: RunView)
    ensures
        run.stage == RunStage::ConfigTime ==> asked(
            run.next(RunEventView::ConfigTime(run.config_mtime)).stage,
        ) == RunAction::TakeDirty,
        run.stage == RunStage::Dirty ==> ({
            let next = run.next(RunEventView::Dirty(false));
            asked(next.stage) == RunAction::ReadClock && next.needs_full == run.needs_full
        }),
        run.stage == RunStage::Sweep ==> asked(run.next(RunEventView::Passed).stage)
            == RunAction::InspectDrift,
        run.stage == RunStage::Sleep ==> run.next(RunEventView::Passed).stage == RunStage::Begin,
{
}

/// An address that changed, a configuration that was written and a request of the API each
/// ask for a set-up in that round; a change of backends is noted with its time.
pub proof fn law_changes_ask_for_a_set_up(
    run: RunView,
    time: Option<u64>,
    now_ms: u64,
    mtime: Option<u64>,
)
    ensures
        run.stage == RunStage::Vip ==> run.next(RunEventView::Seen(Observed::Changed)).needs_full,
        run.stage == RunStage::Subscriptions ==> run.next(
            RunEventView::Merged { seen: Observed::Changed, now_ms },
        ).pending_since_ms == Some(now_ms),
        run.stage == RunStage::ConfigTime && time != run.config_mtime ==> asked(
            run.next(RunEventView::ConfigTime(time)).stage,
        ) == RunAction::ReloadConfig,
        run.stage == RunStage::Reload ==> ({
            let read = run.next(
                RunEventView::Reloaded { outcome: ReloadOutcome::Reloaded, config_mtime: mtime },
            );
            read.needs_full && read.config_mtime == mtime && read.stage == RunStage::Dirty
        }),
        run.stage == RunStage::Dirty ==> run.next(RunEventView::Dirty(true)).needs_full,
{
}

/// A round that asks for a set-up gets one, and so does a change of backends once it is three
/// seconds old; before that it stays noted.
pub proof fn law_asked_for_set_ups_follow(run: RunView, since: u64, now_ms: u64)
    requires
        run.stage == RunStage::Settle,
    ensures
        ({
            let next = run.next(RunEventView::Now(now_ms));
            let due = run.needs_full || (run.pending_since_ms == Some(since) && now_ms >= since
                + 3000);
            &&& due && run.holds_marker ==> asked(next.stage) == RunAction::InspectMarker
            &&& due && !run.holds_marker ==> asked(next.stage) == RunAction::Apply
            &&& due ==> next.needs_full
            &&& run.pending_since_ms == Some(since) && now_ms >= since + 3000
                ==> next.pending_since_ms is None
            &&& run.pending_since_ms == Some(since) && now_ms < since + 3000
                ==> next.pending_since_ms == Some(since) && next.needs_full == run.needs_full
            &&& !run.needs_full && run.pending_since_ms is None ==> asked(next.stage)
                == RunAction::SweepFlows
        }),
{
}

/// A tunnel that is gone or down, and a marker that is missing where there are ports, have
/// the gateway set up again; a marker without ports is taken off.
pub proof fn law_drift_sets_up_again(
    run: RunView,
    link_present: bool,
    link_up: bool,
    attached: bool,
)
    requires
        run.stage == RunStage::Drift,
    ensures
        ({
            let next = run.next(RunEventView::Drift { link_present, link_up, attached });
            let lost = !link_present || !link_up || (run.ports.len() > 0 && !attached);
            &&& lost && run.holds_marker ==> asked(next.stage) == RunAction::InspectMarker
            &&& lost && !run.holds_marker ==> asked(next.stage) == RunAction::Apply
            &&& lost ==> next.needs_full
            &&& !lost && run.ports.len() == 0 && attached ==> asked(next.stage)
                == RunAction::DetachMarker
            &&& !lost && !(run.ports.len() == 0 && attached) ==> asked(next.stage)
                == RunAction::Sleep
        }),
{
}

/// Setting up lets a marker go that was lost, reads the ports, restores the flows and starts
/// the worker where that was not done, and reconciles the templates before it sleeps.
pub proof fn law_set_up_goes_in_order(run: RunView, ports: Seq<u32>)
    ensures
        run.stage == RunStage::Marker ==> asked(run.next(RunEventView::Attached(true)).stage)
            == RunAction::Apply,
        run.stage == RunStage::Marker ==> asked(run.next(RunEventView::Attached(false)).stage)
            == RunAction::DropMarker,
        run.stage == RunStage::DropLost ==> ({
            let next = run.next(RunEventView::Passed);
            asked(next.stage) == RunAction::Apply && !next.holds_marker
        }),
        run.stage == RunStage::Ports && !run.flows_restored ==> ({
            let next = run.next(RunEventView::Ports(Some(ports)));
            asked(next.stage) == RunAction::RestoreFlows && next.ports == ports
        }),
        run.stage == RunStage::Restore && !run.worker_running ==> ({
            let next = run.next(RunEventView::Restored(RestoreOutcome::Restored));
            asked(next.stage) == RunAction::StartPersistence && next.flows_restored
        }),
        run.stage == RunStage::Restore ==> !run.next(
            RunEventView::Restored(RestoreOutcome::NotYet),
        ).flows_restored,
        run.stage == RunStage::Worker ==> run.next(RunEventView::Persisting(true)).worker_running,
{
}

/// What a set-up came to is taken over: a marker that was replaced is held, one that was
/// cleared is not and marks no ports; behind it the templates are reconciled once.
pub proof fn law_set_up_is_taken_over(run: RunView)
    ensures
        run.stage == RunStage::Apply ==> ({
            let next = run.next(RunEventView::Applied(ApplyOutcome::Applied(DscpUpdate::Keep)));
            asked(next.stage) == RunAction::LoadPorts && next.holds_marker == run.holds_marker
        }),
        run.stage == RunStage::Apply ==> ({
            let next = run.next(RunEventView::Applied(ApplyOutcome::Applied(DscpUpdate::Replace)));
            asked(next.stage) == RunAction::LoadPorts && next.holds_marker
        }),
        run.stage == RunStage::Apply ==> ({
            let next = run.next(RunEventView::Applied(ApplyOutcome::Applied(DscpUpdate::Clear)));
            !next.holds_marker && next.ports.len() == 0
        }),
        run.stage == RunStage::Worker && !run.automated && run.pending_since_ms is None ==> asked(
            run.next(RunEventView::Persisting(true)).stage,
        ) == RunAction::ReconcileAutomations,
        run.stage == RunStage::Automations ==> asked(
            run.next(RunEventView::Seen(Observed::Same)).stage,
        ) == RunAction::Sleep,
        run.stage == RunStage::Automations ==> run.next(
            RunEventView::Seen(Observed::Changed),
        ).automated,
{
}

} // verus!
