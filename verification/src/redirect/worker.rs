//! Life of the route cache, one event at a time: when it is watched, refreshed, withdrawn
//! and reported. No business change and no failover is ever decided here.
use crate::redirect::reconcile::RedirectContext;
use crate::redirect::status::{
    reason_of, record_blocked, record_published, AdmissionState, Reason, RedirectAdmissionStatus,
};
use crate::text::{opt_text, same_text};
use vstd::prelude::*;

verus! {

/// The shortest time between two refreshes, in milliseconds.
pub const REFRESH_INTERVAL_MS: u64 = 500;

/// How often a failed round waits, and for how long each time.
pub const BACKOFF_WAITS: u8 = 5;

pub const BACKOFF_WAIT_MS: u64 = 200;

/// Where the life of the cache stands.
#[derive(Clone, Copy, Debug, PartialEq, Eq, Structural)]
pub enum WorkerStage {
    /// Nothing that an earlier process left behind is trusted.
    WithdrawStart,
    Begin,
    // The monitor.
    WithdrawLost,
    Open,
    WithdrawOpened,
    Poll,
    WithdrawChanged,
    // A refresh.
    Clock,
    Pin,
    Snapshot,
    Host,
    Targets,
    Locals,
    PlanForward,
    AdmitForward,
    Return,
    PlanReturn,
    AdmitReturn,
    Pending,
    WithdrawPending,
    Conclude,
    Publish,
    Recovered,
    // A failure.
    WithdrawFailed,
    Report,
    /// Before each wait: how many are left.
    Backoff(u8),
    Pause(u8),
    // The end.
    WithdrawExit,
    ReportExit,
    Done,
    NotStarted,
}

/// What is asked for next.
#[derive(Clone, Debug)]
pub enum WorkerAction {
    /// Take both directions out of the cache.
    Withdraw,
    AskStop,
    OpenMonitor,
    /// Look whether the kernel told of a change.
    PollMonitor,
    ReadClock,
    /// Look whether there is a cache.
    FindCache,
    /// Take a token and the targets.
    TakeSnapshot,
    CheckHost,
    ObserveTargets,
    ObserveLocals,
    PlanForward,
    AdmitForward,
    ObserveReturn,
    PlanReturn,
    AdmitReturn,
    /// Look whether the kernel told of a change meanwhile.
    LookPending,
    /// Check that the leases have not ended, and compute the digest.
    Conclude,
    Publish,
    TellRecovered,
    Warn { text: String },
    TellError { text: String },
    Wait { ms: u64 },
    Finished,
    NotStarted,
}

/// What came of it.
#[derive(Clone, Debug)]
pub enum WorkerEvent {
    Passed,
    /// It failed, at a time in seconds.
    Refused { error: String, now_unix: u64 },
    Answer(bool),
    Now(u64),
    /// The publication was written under a digest, or was overtaken.
    Published { digest: Option<u64>, now_unix: u64 },
}

/// What came of it, as plain values.
pub enum WorkerEventView {
    Passed,
    Refused { error: Seq<char>, now_unix: u64 },
    Answer(bool),
    Now(u64),
    Published { digest: Option<u64>, now_unix: u64 },
}

impl View for WorkerEvent {
    type V = WorkerEventView;

    open spec fn view(&self) -> WorkerEventView {
        match *self {
            WorkerEvent::Passed => WorkerEventView::Passed,
            WorkerEvent::Refused { error, now_unix } => WorkerEventView::Refused {
                error: error@,
                now_unix,
            },
            WorkerEvent::Answer(yes) => WorkerEventView::Answer(yes),
            WorkerEvent::Now(ms) => WorkerEventView::Now(ms),
            WorkerEvent::Published { digest, now_unix } => WorkerEventView::Published {
                digest,
                now_unix,
            },
        }
    }
}

/// A worker that watches the kernel on behalf of a context.
#[derive(Debug)]
pub struct InvalidationWorker {
    pub context: RedirectContext,
    pub stage: WorkerStage,
    /// Whether the monitor is open.
    pub watching: bool,
    pub last_refresh_ms: Option<u64>,
    /// The failure that was told last.
    pub previous_error: Option<String>,
    /// The failure that is being dealt with.
    pub error: String,
    pub status: RedirectAdmissionStatus,
}

/// A worker, as plain values.
pub struct WorkerView {
    pub context: RedirectContext,
    pub stage: WorkerStage,
    pub watching: bool,
    pub last_refresh_ms: Option<u64>,
    pub previous_error: Option<Seq<char>>,
    pub error: Seq<char>,
    pub status: RedirectAdmissionStatus,
}

impl View for InvalidationWorker {
    type V = WorkerView;

    open spec fn view(&self) -> WorkerView {
        WorkerView {
            context: self.context,
            stage: self.stage,
            watching: self.watching,
            last_refresh_ms: self.last_refresh_ms,
            previous_error: opt_text(self.previous_error),
            error: self.error@,
            status: self.status,
        }
    }
}

/// The words for a failure whose withdrawal went well, or failed too.
pub open spec fn failure_words(error: Seq<char>, clear_failure: Option<Seq<char>>) -> Seq<char> {
    match clear_failure {
        None => error + "; redirect cache invalidated"@,
        Some(clear) => error + "; cache invalidation ALSO failed: "@ + clear,
    }
}

/// Puts the words for a failure together.
pub fn failure_text(error: &str, clear_failure: Option<&str>) -> (text: String)
    ensures
        text@ == failure_words(
            error@,
            match clear_failure {
                Some(clear) => Some(clear@),
                None => None,
            },
        ),
{
    let mut text = error.to_owned();
    match clear_failure {
        None => {
            text.append("; redirect cache invalidated");
        },
        Some(clear) => {
            text.append("; cache invalidation ALSO failed: ");
            text.append(clear);
        },
    }
    text
}

/// Whether a refresh is due.
pub open spec fn due(last_refresh_ms: Option<u64>, now_ms: u64) -> bool {
    match last_refresh_ms {
        None => true,
        Some(last) => now_ms - last >= REFRESH_INTERVAL_MS,
    }
}

/// Where a step that passes leads, for the stages whose steps pass or fail.
pub open spec fn passed_to(stage: WorkerStage) -> Option<WorkerStage> {
    match stage {
        WorkerStage::WithdrawLost => Some(WorkerStage::Open),
        WorkerStage::Open => Some(WorkerStage::WithdrawOpened),
        WorkerStage::WithdrawOpened => Some(WorkerStage::Poll),
        WorkerStage::WithdrawChanged => Some(WorkerStage::Clock),
        WorkerStage::Snapshot => Some(WorkerStage::Host),
        WorkerStage::Host => Some(WorkerStage::Targets),
        WorkerStage::Targets => Some(WorkerStage::Locals),
        WorkerStage::Locals => Some(WorkerStage::PlanForward),
        WorkerStage::PlanForward => Some(WorkerStage::AdmitForward),
        WorkerStage::AdmitForward => Some(WorkerStage::Return),
        WorkerStage::Return => Some(WorkerStage::PlanReturn),
        WorkerStage::PlanReturn => Some(WorkerStage::AdmitReturn),
        WorkerStage::AdmitReturn => Some(WorkerStage::Pending),
        WorkerStage::WithdrawPending => Some(WorkerStage::Begin),
        WorkerStage::Conclude => Some(WorkerStage::Publish),
        _ => None,
    }
}

/// Whether a stage belongs to a round: what fails there fails the round.
pub open spec fn in_round(stage: WorkerStage) -> bool {
    passed_to(stage) is Some || stage == WorkerStage::Poll || stage == WorkerStage::Pin || stage
        == WorkerStage::Pending || stage == WorkerStage::Publish
}

impl WorkerView {
    /// The same worker at another stage.
    pub open spec fn at(self, stage: WorkerStage) -> WorkerView {
        WorkerView { stage, ..self }
    }

    /// The worker behind a failed step of a round: the monitor is given up.
    pub open spec fn failed(self, error: Seq<char>, now_unix: u64) -> WorkerView {
        WorkerView {
            stage: WorkerStage::WithdrawFailed,
            watching: false,
            error,
            status: RedirectAdmissionStatus {
                state: AdmissionState::Blocked,
                reason: reason_of(error),
                map_digest: self.status.map_digest,
                updated_unix_seconds: now_unix,
            },
            ..self
        }
    }

    /// The worker behind the withdrawal that follows a failure. A failure that was told
    /// before is not told again.
    pub open spec fn withdrawn(self, clear_failure: Option<Seq<char>>) -> WorkerView {
        let words = failure_words(self.error, clear_failure);
        if self.previous_error == Some(words) {
            self.at(WorkerStage::Backoff(BACKOFF_WAITS))
        } else {
            WorkerView {
                previous_error: Some(words),
                error: words,
                stage: WorkerStage::Report,
                ..self
            }
        }
    }

    /// The worker behind a publication. Only a publication that was written counts as
    /// recovery.
    pub open spec fn published(self, digest: Option<u64>, now_unix: u64) -> WorkerView {
        match digest {
            None => self.at(WorkerStage::Begin),
            Some(digest) => WorkerView {
                status: RedirectAdmissionStatus {
                    state: AdmissionState::Published,
                    reason: Reason::Unblocked,
                    map_digest: digest,
                    updated_unix_seconds: now_unix,
                },
                previous_error: None,
                stage: if self.previous_error is Some {
                    WorkerStage::Recovered
                } else {
                    WorkerStage::Begin
                },
                ..self
            },
        }
    }

    /// The worker behind an answer.
    pub open spec fn answered(self, yes: bool) -> WorkerView {
        match self.stage {
            WorkerStage::Begin => self.at(
                if yes {
                    WorkerStage::WithdrawExit
                } else if self.watching {
                    WorkerStage::Poll
                } else {
                    WorkerStage::WithdrawLost
                },
            ),
            WorkerStage::Poll => self.at(
                if yes {
                    WorkerStage::WithdrawChanged
                } else {
                    WorkerStage::Clock
                },
            ),
            WorkerStage::Pin => self.at(
                if yes {
                    WorkerStage::Snapshot
                } else {
                    WorkerStage::Begin
                },
            ),
            WorkerStage::Pending => self.at(
                if yes {
                    WorkerStage::WithdrawPending
                } else {
                    WorkerStage::Conclude
                },
            ),
            WorkerStage::Backoff(left) => self.at(
                if yes {
                    WorkerStage::WithdrawExit
                } else {
                    WorkerStage::Pause(left)
                },
            ),
            _ => self,
        }
    }

    /// The worker behind a step. What does not answer the question changes nothing.
    pub open spec fn next(self, event: WorkerEventView) -> WorkerView {
        match event {
            WorkerEventView::Passed => match self.stage {
                WorkerStage::WithdrawStart | WorkerStage::Recovered => self.at(WorkerStage::Begin),
                WorkerStage::Report => self.at(WorkerStage::Backoff(BACKOFF_WAITS)),
                WorkerStage::Pause(left) => self.at(
                    if left <= 1 {
                        WorkerStage::Begin
                    } else {
                        WorkerStage::Backoff((left - 1) as u8)
                    },
                ),
                WorkerStage::WithdrawFailed => self.withdrawn(None),
                WorkerStage::WithdrawExit | WorkerStage::ReportExit => self.at(WorkerStage::Done),
                WorkerStage::Open => WorkerView {
                    watching: true,
                    stage: WorkerStage::WithdrawOpened,
                    ..self
                },
                stage => match passed_to(stage) {
                    Some(to) => self.at(to),
                    None => self,
                },
            },
            WorkerEventView::Refused { error, now_unix } => if in_round(self.stage) {
                self.failed(error, now_unix)
            } else {
                match self.stage {
                    WorkerStage::WithdrawStart => self.at(WorkerStage::NotStarted),
                    WorkerStage::WithdrawFailed => self.withdrawn(Some(error)),
                    WorkerStage::WithdrawExit => WorkerView {
                        error: "invalidating cache on monitor exit failed: "@ + error,
                        stage: WorkerStage::ReportExit,
                        ..self
                    },
                    _ => self,
                }
            },
            WorkerEventView::Answer(yes) => self.answered(yes),
            WorkerEventView::Now(now_ms) => if self.stage == WorkerStage::Clock {
                if due(self.last_refresh_ms, now_ms) {
                    WorkerView {
                        last_refresh_ms: Some(now_ms),
                        stage: WorkerStage::Pin,
                        ..self
                    }
                } else {
                    self.at(WorkerStage::Begin)
                }
            } else {
                self
            },
            WorkerEventView::Published { digest, now_unix } => if self.stage
                == WorkerStage::Publish {
                self.published(digest, now_unix)
            } else {
                self
            },
        }
    }
}

/// Whether an action is what a worker asks for.
pub open spec fn asks(worker: WorkerView, action: WorkerAction) -> bool {
    match worker.stage {
        WorkerStage::WithdrawStart | WorkerStage::WithdrawLost | WorkerStage::WithdrawOpened
        | WorkerStage::WithdrawChanged | WorkerStage::WithdrawPending | WorkerStage::WithdrawFailed
        | WorkerStage::WithdrawExit => action is Withdraw,
        WorkerStage::Begin | WorkerStage::Backoff(_) => action is AskStop,
        WorkerStage::Open => action is OpenMonitor,
        WorkerStage::Poll => action is PollMonitor,
        WorkerStage::Clock => action is ReadClock,
        WorkerStage::Pin => action is FindCache,
        WorkerStage::Snapshot => action is TakeSnapshot,
        WorkerStage::Host => action is CheckHost,
        WorkerStage::Targets => action is ObserveTargets,
        WorkerStage::Locals => action is ObserveLocals,
        WorkerStage::PlanForward => action is PlanForward,
        WorkerStage::AdmitForward => action is AdmitForward,
        WorkerStage::Return => action is ObserveReturn,
        WorkerStage::PlanReturn => action is PlanReturn,
        WorkerStage::AdmitReturn => action is AdmitReturn,
        WorkerStage::Pending => action is LookPending,
        WorkerStage::Conclude => action is Conclude,
        WorkerStage::Publish => action is Publish,
        WorkerStage::Recovered => action is TellRecovered,
        WorkerStage::Report => action matches WorkerAction::Warn { text } && text@ == worker.error,
        WorkerStage::Pause(_) => action == (WorkerAction::Wait { ms: BACKOFF_WAIT_MS }),
        WorkerStage::ReportExit => action matches WorkerAction::TellError { text } && text@
            == worker.error,
        WorkerStage::Done => action is Finished,
        WorkerStage::NotStarted => action is NotStarted,
    }
}

fn next_of(stage: WorkerStage) -> (to: Option<WorkerStage>)
    ensures
        to == passed_to(stage),
{
    match stage {
        WorkerStage::WithdrawLost => Some(WorkerStage::Open),
        WorkerStage::Open => Some(WorkerStage::WithdrawOpened),
        WorkerStage::WithdrawOpened => Some(WorkerStage::Poll),
        WorkerStage::WithdrawChanged => Some(WorkerStage::Clock),
        WorkerStage::Snapshot => Some(WorkerStage::Host),
        WorkerStage::Host => Some(WorkerStage::Targets),
        WorkerStage::Targets => Some(WorkerStage::Locals),
        WorkerStage::Locals => Some(WorkerStage::PlanForward),
        WorkerStage::PlanForward => Some(WorkerStage::AdmitForward),
        WorkerStage::AdmitForward => Some(WorkerStage::Return),
        WorkerStage::Return => Some(WorkerStage::PlanReturn),
        WorkerStage::PlanReturn => Some(WorkerStage::AdmitReturn),
        WorkerStage::AdmitReturn => Some(WorkerStage::Pending),
        WorkerStage::WithdrawPending => Some(WorkerStage::Begin),
        WorkerStage::Conclude => Some(WorkerStage::Publish),
        _ => None,
    }
}

impl InvalidationWorker {
    /// A worker that watches nothing yet.
    pub fn spawn(context: RedirectContext, status: RedirectAdmissionStatus) -> (worker: Self)
        ensures
            worker@ == (WorkerView {
                context,
                stage: WorkerStage::WithdrawStart,
                watching: false,
                last_refresh_ms: None,
                previous_error: None,
                error: Seq::empty(),
                status,
            }),
    {
        let worker = InvalidationWorker {
            context,
            stage: WorkerStage::WithdrawStart,
            watching: false,
            last_refresh_ms: None,
            previous_error: None,
            error: String::new(),
            status,
        };
        assert(worker.error@ =~= Seq::<char>::empty());
        worker
    }

    /// Whether this worker serves a context.
    pub fn matches(&self, context: &RedirectContext) -> (same: bool)
        ensures
            same == self.context.same(*context),
    {
        self.context.matches(context)
    }

    /// What the worker asks for next.
    pub fn action(&self) -> (action: WorkerAction)
        ensures
            asks(self@, action),
    {
        match self.stage {
            WorkerStage::WithdrawStart | WorkerStage::WithdrawLost | WorkerStage::WithdrawOpened
            | WorkerStage::WithdrawChanged | WorkerStage::WithdrawPending
            | WorkerStage::WithdrawFailed | WorkerStage::WithdrawExit => WorkerAction::Withdraw,
            WorkerStage::Begin | WorkerStage::Backoff(_) => WorkerAction::AskStop,
            WorkerStage::Open => WorkerAction::OpenMonitor,
            WorkerStage::Poll => WorkerAction::PollMonitor,
            WorkerStage::Clock => WorkerAction::ReadClock,
            WorkerStage::Pin => WorkerAction::FindCache,
            WorkerStage::Snapshot => WorkerAction::TakeSnapshot,
            WorkerStage::Host => WorkerAction::CheckHost,
            WorkerStage::Targets => WorkerAction::ObserveTargets,
            WorkerStage::Locals => WorkerAction::ObserveLocals,
            WorkerStage::PlanForward => WorkerAction::PlanForward,
            WorkerStage::AdmitForward => WorkerAction::AdmitForward,
            WorkerStage::Return => WorkerAction::ObserveReturn,
            WorkerStage::PlanReturn => WorkerAction::PlanReturn,
            WorkerStage::AdmitReturn => WorkerAction::AdmitReturn,
            WorkerStage::Pending => WorkerAction::LookPending,
            WorkerStage::Conclude => WorkerAction::Conclude,
            WorkerStage::Publish => WorkerAction::Publish,
            WorkerStage::Recovered => WorkerAction::TellRecovered,
            WorkerStage::Report => WorkerAction::Warn { text: self.error.clone() },
            WorkerStage::Pause(_) => WorkerAction::Wait { ms: BACKOFF_WAIT_MS },
            WorkerStage::ReportExit => WorkerAction::TellError { text: self.error.clone() },
            WorkerStage::Done => WorkerAction::Finished,
            WorkerStage::NotStarted => WorkerAction::NotStarted,
        }
    }

    fn take_failure(&mut self, error: String, now_unix: u64)
        ensures
            final(self)@ == old(self)@.failed(error@, now_unix),
    {
        record_blocked(&mut self.status, error.as_str(), now_unix);
        self.stage = WorkerStage::WithdrawFailed;
        self.watching = false;
        self.error = error;
    }

    fn take_withdrawal(&mut self, clear_failure: Option<&str>)
        ensures
            final(self)@ == old(self)@.withdrawn(
                match clear_failure {
                    Some(clear) => Some(clear@),
                    None => None,
                },
            ),
    {
        let words = failure_text(self.error.as_str(), clear_failure);
        let known = match &self.previous_error {
            Some(previous) => same_text(previous.as_str(), words.as_str()),
            None => false,
        };
        if known {
            self.stage = WorkerStage::Backoff(BACKOFF_WAITS);
        } else {
            self.previous_error = Some(words.clone());
            self.error = words;
            self.stage = WorkerStage::Report;
        }
    }

    fn take_publication(&mut self, digest: Option<u64>, now_unix: u64)
        ensures
            final(self)@ == old(self)@.published(digest, now_unix),
    {
        match digest {
            None => {
                self.stage = WorkerStage::Begin;
            },
            Some(digest) => {
                record_published(&mut self.status, digest, now_unix);
                self.stage = if self.previous_error.is_some() {
                    WorkerStage::Recovered
                } else {
                    WorkerStage::Begin
                };
                self.previous_error = None;
            },
        }
    }

    fn take_answer(&mut self, yes: bool)
        ensures
            final(self)@ == old(self)@.answered(yes),
    {
        match self.stage {
            WorkerStage::Begin => {
                self.stage = if yes {
                    WorkerStage::WithdrawExit
                } else if self.watching {
                    WorkerStage::Poll
                } else {
                    WorkerStage::WithdrawLost
                };
            },
            WorkerStage::Poll => {
                self.stage = if yes {
                    WorkerStage::WithdrawChanged
                } else {
                    WorkerStage::Clock
                };
            },
            WorkerStage::Pin => {
                self.stage = if yes {
                    WorkerStage::Snapshot
                } else {
                    WorkerStage::Begin
                };
            },
            WorkerStage::Pending => {
                self.stage = if yes {
                    WorkerStage::WithdrawPending
                } else {
                    WorkerStage::Conclude
                };
            },
            WorkerStage::Backoff(left) => {
                self.stage = if yes {
                    WorkerStage::WithdrawExit
                } else {
                    WorkerStage::Pause(left)
                };
            },
            _ => {},
        }
    }

    fn take_pass(&mut self)
        ensures
            final(self)@ == old(self)@.next(WorkerEventView::Passed),
    {
        match self.stage {
            WorkerStage::WithdrawStart | WorkerStage::Recovered => {
                self.stage = WorkerStage::Begin;
            },
            WorkerStage::Report => {
                self.stage = WorkerStage::Backoff(BACKOFF_WAITS);
            },
            WorkerStage::Pause(left) => {
                self.stage = if left <= 1 {
                    WorkerStage::Begin
                } else {
                    WorkerStage::Backoff(left - 1)
                };
            },
            WorkerStage::WithdrawFailed => {
                self.take_withdrawal(None);
            },
            WorkerStage::WithdrawExit | WorkerStage::ReportExit => {
                self.stage = WorkerStage::Done;
            },
            WorkerStage::Open => {
                self.watching = true;
                self.stage = WorkerStage::WithdrawOpened;
            },
            stage => {
                if let Some(to) = next_of(stage) {
                    self.stage = to;
                }
            },
        }
    }

    fn take_refusal(&mut self, error: String, now_unix: u64)
        ensures
            final(self)@ == old(self)@.next(
                WorkerEventView::Refused { error: error@, now_unix },
            ),
    {
        let stage = self.stage;
        if next_of(stage).is_some() || stage == WorkerStage::Poll || stage == WorkerStage::Pin
            || stage == WorkerStage::Pending || stage == WorkerStage::Publish {
            self.take_failure(error, now_unix);
            return;
        }
        match stage {
            WorkerStage::WithdrawStart => {
                self.stage = WorkerStage::NotStarted;
            },
            WorkerStage::WithdrawFailed => {
                self.take_withdrawal(Some(error.as_str()));
            },
            WorkerStage::WithdrawExit => {
                let mut text = "invalidating cache on monitor exit failed: ".to_owned();
                text.append(error.as_str());
                self.error = text;
                self.stage = WorkerStage::ReportExit;
            },
            _ => {},
        }
    }

    /// Goes on with what came of what was asked for. What does not answer the question
    /// changes nothing.
    pub fn advance(&mut self, event: WorkerEvent)
        ensures
            final(self)@ == old(self)@.next(event@),
    {
        match event {
            WorkerEvent::Passed => {
                self.take_pass();
            },
            WorkerEvent::Refused { error, now_unix } => {
                self.take_refusal(error, now_unix);
            },
            WorkerEvent::Answer(yes) => {
                self.take_answer(yes);
            },
            WorkerEvent::Now(now_ms) => {
                if self.stage == WorkerStage::Clock {
                    let is_due = match self.last_refresh_ms {
                        None => true,
                        Some(last) => now_ms >= last && now_ms - last >= REFRESH_INTERVAL_MS,
                    };
                    if is_due {
                        self.last_refresh_ms = Some(now_ms);
                        self.stage = WorkerStage::Pin;
                    } else {
                        self.stage = WorkerStage::Begin;
                    }
                }
            },
            WorkerEvent::Published { digest, now_unix } => {
                if self.stage == WorkerStage::Publish {
                    self.take_publication(digest, now_unix);
                }
            },
        }
    }
}

// ---------------------------------------------------------------------------
// Laws
// ---------------------------------------------------------------------------

/// Whether nothing is trusted without an open monitor: whatever looks at the kernel,
/// plans or publishes does so while the monitor is open.
pub open spec fn guarded(worker: WorkerView) -> bool {
    (in_round(worker.stage) || worker.stage == WorkerStage::Clock) && worker.stage
        != WorkerStage::WithdrawLost && worker.stage != WorkerStage::Open ==> worker.watching
}

/// No trust survives a lost monitor, whatever comes of what is asked for; and where the
/// monitor is not open, the next round takes everything out of the cache, opens it and
/// takes everything out again.
pub proof fn law_no_trust_without_monitor(worker: WorkerView, event: WorkerEventView)
    ensures
        guarded(worker) ==> guarded(worker.next(event)),
        worker.stage == WorkerStage::Begin && !worker.watching ==> worker.next(
            WorkerEventView::Answer(false),
        ).stage == WorkerStage::WithdrawLost,
        passed_to(WorkerStage::WithdrawLost) == Some(WorkerStage::Open),
        passed_to(WorkerStage::Open) == Some(WorkerStage::WithdrawOpened),
{
}

/// A failure anywhere in a round gives the monitor up, takes everything out of the cache
/// and shows why.
pub proof fn law_failure_withdraws(worker: WorkerView, error: Seq<char>, now_unix: u64)
    requires
        in_round(worker.stage),
    ensures
        ({
            let next = worker.next(WorkerEventView::Refused { error, now_unix });
            &&& next.stage == WorkerStage::WithdrawFailed
            &&& !next.watching
            &&& next.status.state == AdmissionState::Blocked
            &&& next.status.reason == reason_of(error)
            &&& next.status.map_digest == worker.status.map_digest
        }),
{
}

/// The one way to a publication leads through the host, the plan and the admission of
/// both directions, past notifications that came in meanwhile and the end of the leases.
pub proof fn law_publication_follows_admission(worker: WorkerView, event: WorkerEventView)
    ensures
        ({
            let to = worker.next(event).stage;
            let moved = to != worker.stage;
            &&& moved && to == WorkerStage::Publish ==> worker.stage == WorkerStage::Conclude
                && event is Passed
            &&& moved && to == WorkerStage::Conclude ==> worker.stage == WorkerStage::Pending
                && event == WorkerEventView::Answer(false)
            &&& moved && to == WorkerStage::Pending ==> worker.stage == WorkerStage::AdmitReturn
                && event is Passed
            &&& moved && to == WorkerStage::AdmitReturn ==> worker.stage == WorkerStage::PlanReturn
                && event is Passed
            &&& moved && to == WorkerStage::PlanReturn ==> worker.stage == WorkerStage::Return
                && event is Passed
            &&& moved && to == WorkerStage::Return ==> worker.stage == WorkerStage::AdmitForward
                && event is Passed
            &&& moved && to == WorkerStage::AdmitForward ==> worker.stage
                == WorkerStage::PlanForward && event is Passed
            &&& moved && to == WorkerStage::PlanForward ==> worker.stage == WorkerStage::Locals
                && event is Passed
            &&& moved && to == WorkerStage::Locals ==> worker.stage == WorkerStage::Targets
                && event is Passed
            &&& moved && to == WorkerStage::Targets ==> worker.stage == WorkerStage::Host
                && event is Passed
            &&& moved && to == WorkerStage::Host ==> worker.stage == WorkerStage::Snapshot
                && event is Passed
        }),
        worker.status.state != AdmissionState::Published && worker.next(event).status.state
            == AdmissionState::Published ==> worker.stage == WorkerStage::Publish,
{
}

/// A worker that is asked to stop takes everything out of the cache before it ends,
/// whether it waits or begins a round.
pub proof fn law_stop_withdraws(worker: WorkerView, event: WorkerEventView)
    ensures
        worker.stage == WorkerStage::Begin || worker.stage is Backoff ==> worker.next(
            WorkerEventView::Answer(true),
        ).stage == WorkerStage::WithdrawExit,
        worker.stage != WorkerStage::Done && worker.next(event).stage == WorkerStage::Done
            ==> worker.stage == WorkerStage::WithdrawExit || worker.stage
            == WorkerStage::ReportExit,
        worker.stage != WorkerStage::ReportExit && worker.next(event).stage
            == WorkerStage::ReportExit ==> worker.stage == WorkerStage::WithdrawExit,
{
}

/// A failure that repeats itself is told once.
pub proof fn law_repeated_failure_is_told_once(
    worker: WorkerView,
    error: Seq<char>,
    clear_failure: Option<Seq<char>>,
)
    requires
        worker.stage == WorkerStage::WithdrawFailed,
        worker.error == error,
        worker.previous_error == Some(failure_words(error, clear_failure)),
    ensures
        !(worker.withdrawn(clear_failure).stage is Report),
        worker.withdrawn(clear_failure).previous_error == worker.previous_error,
{
}

/// A worker whose monitor is open and quiet looks at the clock, and refreshes at the first
/// round and then once half a second has passed since the last refresh. Where every step
/// passes the refresh ends in a publication.
pub proof fn law_quiet_rounds_publish(worker: WorkerView, now_ms: u64)
    requires
        worker.stage == WorkerStage::Begin,
        worker.watching,
        worker.last_refresh_ms matches Some(last) ==> now_ms >= last + 500,
    ensures
        ({
            let timed = worker.next(WorkerEventView::Answer(false)).next(
                WorkerEventView::Answer(false),
            ).next(WorkerEventView::Now(now_ms));
            let seen = timed.next(WorkerEventView::Answer(true)).next(WorkerEventView::Passed).next(
                WorkerEventView::Passed,
            ).next(WorkerEventView::Passed).next(WorkerEventView::Passed);
            let admitted = seen.next(WorkerEventView::Passed).next(WorkerEventView::Passed).next(
                WorkerEventView::Passed,
            ).next(WorkerEventView::Passed).next(WorkerEventView::Passed);
            let ready = admitted.next(WorkerEventView::Answer(false)).next(WorkerEventView::Passed);
            &&& timed.stage == WorkerStage::Pin
            &&& timed.last_refresh_ms == Some(now_ms)
            &&& timed.next(WorkerEventView::Answer(false)).stage == WorkerStage::Begin
            &&& seen.stage == WorkerStage::PlanForward
            &&& admitted.stage == WorkerStage::Pending
            &&& ready.stage == WorkerStage::Publish
            &&& ready.watching
        }),
{
}

/// Less than half a second after a refresh there is no other.
pub proof fn law_refreshes_are_spaced(worker: WorkerView, now_ms: u64)
    requires
        worker.stage == WorkerStage::Clock,
        worker.last_refresh_ms matches Some(last) && last <= now_ms < last + 500,
    ensures
        worker.next(WorkerEventView::Now(now_ms)).stage == WorkerStage::Begin,
        worker.next(WorkerEventView::Now(now_ms)).last_refresh_ms == worker.last_refresh_ms,
{
}

/// What the kernel tells takes everything out of the cache: before a refresh, and where it
/// comes in the middle of one.
pub proof fn law_kernel_changes_withdraw(worker: WorkerView, action: WorkerAction)
    ensures
        worker.stage == WorkerStage::Poll && asks(
            worker.next(WorkerEventView::Answer(true)),
            action,
        ) ==> action is Withdraw,
        worker.stage == WorkerStage::Pending && asks(
            worker.next(WorkerEventView::Answer(true)),
            action,
        ) ==> action is Withdraw,
        worker.stage == WorkerStage::Poll ==> worker.next(WorkerEventView::Answer(true)).next(
            WorkerEventView::Passed,
        ).stage == WorkerStage::Clock,
        worker.stage == WorkerStage::Pending ==> worker.next(WorkerEventView::Answer(true)).next(
            WorkerEventView::Passed,
        ).stage == WorkerStage::Begin,
{
}

/// A worker without a monitor empties the cache, opens the monitor, empties the cache again
/// and goes on to watch; one that starts empties the cache first, and does not start where
/// that fails.
pub proof fn law_monitor_is_opened_again(worker: WorkerView, action: WorkerAction, error: Seq<char>)
    ensures
        worker.stage == WorkerStage::Begin && !worker.watching ==> ({
            let emptied = worker.next(WorkerEventView::Answer(false));
            let opens = emptied.next(WorkerEventView::Passed);
            let open = opens.next(WorkerEventView::Passed);
            &&& asks(emptied, action) ==> action is Withdraw
            &&& asks(opens, action) ==> action is OpenMonitor
            &&& asks(open, action) ==> action is Withdraw
            &&& open.watching
            &&& open.next(WorkerEventView::Passed).stage == WorkerStage::Poll
        }),
        worker.stage == WorkerStage::WithdrawStart && asks(worker, action) ==> action is Withdraw,
        worker.stage == WorkerStage::WithdrawStart ==> worker.next(WorkerEventView::Passed).stage
            == WorkerStage::Begin && worker.next(
            WorkerEventView::Refused { error, now_unix: 0 },
        ).stage == WorkerStage::NotStarted,
{
}

/// A publication that was written is shown with its digest and its time, and clears a
/// failure that was told; one that was overtaken changes nothing that is shown.
pub proof fn law_publications_are_shown(worker: WorkerView, digest: u64, now_unix: u64)
    requires
        worker.stage == WorkerStage::Publish,
    ensures
        ({
            let next = worker.next(
                WorkerEventView::Published { digest: Some(digest), now_unix },
            );
            let overtaken = worker.next(WorkerEventView::Published { digest: None, now_unix });
            &&& next.status.state == AdmissionState::Published
            &&& next.status.reason == Reason::Unblocked
            &&& next.status.map_digest == digest
            &&& next.status.updated_unix_seconds == now_unix
            &&& next.previous_error is None
            &&& worker.previous_error is Some ==> next.stage == WorkerStage::Recovered
            &&& worker.previous_error is None ==> next.stage == WorkerStage::Begin
            &&& overtaken.status == worker.status
            &&& overtaken.previous_error == worker.previous_error
            &&& overtaken.stage == WorkerStage::Begin
        }),
{
}

/// After a failure the cache is emptied, the failure is told with what came of that, and the
/// worker waits five times a fifth of a second before it begins again.
pub proof fn law_failures_are_told(worker: WorkerView, clear: Seq<char>, now_unix: u64)
    requires
        worker.stage == WorkerStage::WithdrawFailed,
        worker.previous_error is None,
    ensures
        ({
            let told = worker.next(WorkerEventView::Passed);
            let both = worker.next(WorkerEventView::Refused { error: clear, now_unix });
            &&& told.stage == WorkerStage::Report
            &&& told.error == worker.error + "; redirect cache invalidated"@
            &&& both.stage == WorkerStage::Report
            &&& both.error == worker.error + "; cache invalidation ALSO failed: "@ + clear
            &&& told.previous_error == Some(told.error)
            &&& told.next(WorkerEventView::Passed).stage == WorkerStage::Backoff(5)
        }),
{
}

/// A worker that waits asks before each wait whether to stop.
pub proof fn law_waits_are_counted(worker: WorkerView, left: u8, action: WorkerAction)
    ensures
        worker.stage == WorkerStage::Backoff(left) ==> worker.next(
            WorkerEventView::Answer(false),
        ).stage == WorkerStage::Pause(left),
        worker.stage == WorkerStage::Backoff(left) && asks(worker, action) ==> action is AskStop,
        worker.stage == WorkerStage::Pause(left) && asks(worker, action) ==> action == (
        WorkerAction::Wait { ms: 200 }),
        worker.stage == WorkerStage::Pause(left) && left > 1 ==> worker.next(
            WorkerEventView::Passed,
        ).stage == WorkerStage::Backoff((left - 1) as u8),
        worker.stage == WorkerStage::Pause(left) && left <= 1 ==> worker.next(
            WorkerEventView::Passed,
        ).stage == WorkerStage::Begin,
{
}

/// Each stage of a refresh asks for its own step.
pub proof fn law_steps_are_asked_for(worker: WorkerView, action: WorkerAction)
    requires
        asks(worker, action),
    ensures
        worker.stage == WorkerStage::Poll ==> action is PollMonitor,
        worker.stage == WorkerStage::Pin ==> action is FindCache,
        worker.stage == WorkerStage::Snapshot ==> action is TakeSnapshot,
        worker.stage == WorkerStage::Host ==> action is CheckHost,
        worker.stage == WorkerStage::Targets ==> action is ObserveTargets,
        worker.stage == WorkerStage::Locals ==> action is ObserveLocals,
        worker.stage == WorkerStage::PlanForward ==> action is PlanForward,
        worker.stage == WorkerStage::AdmitForward ==> action is AdmitForward,
        worker.stage == WorkerStage::Return ==> action is ObserveReturn,
        worker.stage == WorkerStage::PlanReturn ==> action is PlanReturn,
        worker.stage == WorkerStage::AdmitReturn ==> action is AdmitReturn,
        worker.stage == WorkerStage::Pending ==> action is LookPending,
        worker.stage == WorkerStage::Conclude ==> action is Conclude,
        worker.stage == WorkerStage::Publish ==> action is Publish,
        worker.stage == WorkerStage::WithdrawFailed || worker.stage == WorkerStage::WithdrawExit
            ==> action is Withdraw,
        worker.stage == WorkerStage::Report ==> (action matches WorkerAction::Warn { text }
            && text@ == worker.error),
        worker.stage == WorkerStage::ReportExit ==> (action matches WorkerAction::TellError { text }
            && text@ == worker.error),
        worker.stage == WorkerStage::Recovered ==> action is TellRecovered,
        worker.stage == WorkerStage::Done ==> action is Finished,
{
}

} // verus!
