//! The replication worker, one event at a time: sessions with the peer while this
//! gateway is active, and growing waits between them.
use super::flow::{FlowEntry, FlowKey};
use super::flow_table::row_of;
use super::xsync::{
    deletes, due_to_flush, gathered_all, law_last_change_counts, mutation_key,
    next_batch, operations, upserts, wire_entry, wire_key, FlowMutation, FlowOp, FlowSyncBatch,
    WireEntry, WireKey, XsyncStatus, EVENT_POLL_INTERVAL_MS,
};
use super::xsync_session::{
    fresh_session, next_backoff_ms, peer_endpoint, waits_next, with_sent,
    without_gone, SessionView, XsyncSession,
};
use crate::config::GatewayHaPeer;
use crate::net::socket_value;
use crate::text::{decimal, opt_text, same_text};
use vstd::prelude::*;

verus! {

/// The first wait between sessions, in milliseconds.
pub const FIRST_BACKOFF_MS: u64 = 250;

/// How long a gateway that does not replicate waits, in milliseconds.
pub const IDLE_WAIT_MS: u64 = 1_000;

/// How long the peer may take to answer, in milliseconds.
pub const ANSWER_TIMEOUT_MS: u64 = 5_000;

/// Where the worker stands.
#[derive(Clone, Copy, Debug, PartialEq, Eq, Structural)]
pub enum SyncStage {
    /// Between sessions.
    Begin,
    // Opening a session.
    Settings,
    OpenRole,
    Idle,
    Token,
    Connect,
    SendHello,
    AwaitHello,
    OpenEvents,
    // Within a session.
    AskStop,
    Role,
    Drain,
    Sweep,
    Dump,
    Clock,
    Monotonic,
    Send,
    AwaitAck,
    Pause,
    // Behind a session.
    Limit,
    Backoff,
    Done,
}

/// What a session is opened with.
#[derive(Clone, Debug)]
pub struct SyncSettings {
    pub enabled: bool,
    pub connection_sync: bool,
    pub peers: Vec<GatewayHaPeer>,
    /// Where the control plane listens.
    pub listen: String,
    /// The port of replication.
    pub port: u16,
}

/// A request to the peer.
#[derive(Clone, Debug)]
pub struct SyncRequest {
    pub source: String,
    pub token: String,
    pub entries: Vec<WireEntry>,
    pub deletes: Vec<WireKey>,
}

/// What is asked for next.
#[derive(Clone, Debug)]
pub enum SyncAction {
    /// Look whether to stop.
    AskStop,
    ReadSettings,
    /// Look whether this gateway is active.
    ReadRole,
    Wait { ms: u64 },
    ReadToken,
    Connect { endpoint: String },
    Send { request: SyncRequest },
    /// Wait for an answer of the peer, up to a time.
    AwaitAnswer { timeout_ms: u64 },
    OpenEvents,
    DrainEvents,
    SweepFlows,
    DumpFlows,
    ReadClock,
    /// Read the clock by which flows are seen.
    ReadMonotonic,
    /// Read the longest wait between sessions.
    ReadLimit,
    Finished,
}

/// What came of it.
#[derive(Clone, Debug)]
pub enum SyncEvent {
    Passed,
    Failed { error: String },
    Answer(bool),
    Settings(SyncSettings),
    Role { state: String },
    Token(Option<String>),
    /// How many operations the peer accepted; none where it closed the stream.
    Answered { accepted: Option<u64>, now_ms: u64 },
    Drained { mutations: Vec<FlowMutation>, now_ms: u64 },
    Dumped { flows: Vec<FlowEntry>, done_ms: u64 },
    Now(u64),
    NowNs(u64),
    Limit(Option<u64>),
}

/// What came of it, as plain values.
pub enum SyncEventView {
    Passed,
    Failed { error: Seq<char> },
    Answer(bool),
    Settings(SyncSettings),
    Role { state: Seq<char> },
    Token(Option<Seq<char>>),
    Answered { accepted: Option<u64>, now_ms: u64 },
    Drained { mutations: Seq<FlowMutation>, now_ms: u64 },
    Dumped { flows: Seq<FlowEntry>, done_ms: u64 },
    Now(u64),
    NowNs(u64),
    Limit(Option<u64>),
}

impl View for SyncEvent {
    type V = SyncEventView;

    open spec fn view(&self) -> SyncEventView {
        match *self {
            SyncEvent::Passed => SyncEventView::Passed,
            SyncEvent::Failed { error } => SyncEventView::Failed { error: error@ },
            SyncEvent::Answer(yes) => SyncEventView::Answer(yes),
            SyncEvent::Settings(settings) => SyncEventView::Settings(settings),
            SyncEvent::Role { state } => SyncEventView::Role { state: state@ },
            SyncEvent::Token(token) => SyncEventView::Token(opt_text(token)),
            SyncEvent::Answered { accepted, now_ms } => SyncEventView::Answered {
                accepted,
                now_ms,
            },
            SyncEvent::Drained { mutations, now_ms } => SyncEventView::Drained {
                mutations: mutations@,
                now_ms,
            },
            SyncEvent::Dumped { flows, done_ms } => SyncEventView::Dumped {
                flows: flows@,
                done_ms,
            },
            SyncEvent::Now(ms) => SyncEventView::Now(ms),
            SyncEvent::NowNs(ns) => SyncEventView::NowNs(ns),
            SyncEvent::Limit(limit) => SyncEventView::Limit(limit),
        }
    }
}

/// The replication worker.
pub struct SyncRun {
    /// The name of this gateway.
    pub node: String,
    pub stage: SyncStage,
    pub session: XsyncSession,
    pub status: XsyncStatus,
    pub endpoint: String,
    pub token: String,
    /// When the last changes were taken.
    pub drained_ms: u64,
    /// Whether what is gathered goes out at once.
    pub force: bool,
    /// What is on its way to the peer.
    pub batch: FlowSyncBatch,
    /// When it was sent, on the clock by which flows are seen.
    pub sent_ns: u64,
    pub wait_ms: u64,
    pub backoff_ms: u64,
}

/// How replication fares, as plain values.
pub struct StatusView {
    pub state: Seq<char>,
    pub peer: Option<Seq<char>>,
    pub last_error: Option<Seq<char>>,
    pub last_ack_applied: usize,
}

/// The replication worker, as plain values.
pub struct SyncView {
    pub node: Seq<char>,
    pub stage: SyncStage,
    pub session: SessionView,
    pub status: StatusView,
    pub endpoint: Seq<char>,
    pub token: Seq<char>,
    pub drained_ms: u64,
    pub force: bool,
    pub entries: Seq<FlowEntry>,
    pub gone: Seq<FlowKey>,
    pub sent_ns: u64,
    pub wait_ms: u64,
    pub backoff_ms: u64,
}

impl View for XsyncStatus {
    type V = StatusView;

    open spec fn view(&self) -> StatusView {
        StatusView {
            state: self.state@,
            peer: opt_text(self.peer),
            last_error: opt_text(self.last_error),
            last_ack_applied: self.last_ack_applied,
        }
    }
}

impl View for SyncRun {
    type V = SyncView;

    open spec fn view(&self) -> SyncView {
        SyncView {
            node: self.node@,
            stage: self.stage,
            session: self.session@,
            status: self.status@,
            endpoint: self.endpoint@,
            token: self.token@,
            drained_ms: self.drained_ms,
            force: self.force,
            entries: self.batch.entries@,
            gone: self.batch.deletes@,
            sent_ns: self.sent_ns,
            wait_ms: self.wait_ms,
            backoff_ms: self.backoff_ms,
        }
    }
}

/// Whether what goes wrong at a stage ends the session.
pub open spec fn may_fail(stage: SyncStage) -> bool {
    match stage {
        SyncStage::Settings | SyncStage::OpenRole | SyncStage::Token | SyncStage::Connect
        | SyncStage::SendHello | SyncStage::AwaitHello | SyncStage::OpenEvents | SyncStage::Role
        | SyncStage::Dump | SyncStage::Send | SyncStage::AwaitAck => true,
        _ => false,
    }
}

/// A count as large as a machine word holds.
pub open spec fn capped(count: u64) -> usize {
    if count <= usize::MAX {
        count as usize
    } else {
        usize::MAX
    }
}

impl SyncView {
    /// The same worker at another stage.
    pub open spec fn at(self, stage: SyncStage) -> SyncView {
        SyncView { stage, ..self }
    }

    /// The worker behind a session that went wrong.
    pub open spec fn failed(self, error: Seq<char>) -> SyncView {
        SyncView {
            stage: SyncStage::Limit,
            status: StatusView { state: "error"@, last_error: Some(error), ..self.status },
            ..self
        }
    }

    /// The worker with its settings. The first peer is the one; the port is that of the
    /// control plane, or of replication where the control plane listens on no address.
    pub open spec fn with_settings(self, settings: SyncSettings) -> SyncView {
        let endpoint = if settings.peers.len() == 0 {
            Seq::empty()
        } else {
            "http://"@ + settings.peers[0].underlay_ip@ + ":"@ + decimal(
                match socket_value(settings.listen@) {
                    Some((_, port)) => port as nat,
                    None => settings.port as nat,
                },
            )
        };
        SyncView {
            stage: if settings.enabled && settings.connection_sync {
                SyncStage::OpenRole
            } else {
                SyncStage::Idle
            },
            endpoint,
            ..self
        }
    }

    /// The worker that knows whether this gateway is active.
    pub open spec fn with_role(self, state: Seq<char>) -> SyncView {
        if self.stage == SyncStage::OpenRole {
            if state != "MASTER"@ {
                self.at(SyncStage::Idle)
            } else if self.endpoint.len() == 0 {
                self.failed("xsync peer is not configured"@)
            } else {
                self.at(SyncStage::Token)
            }
        } else if self.stage == SyncStage::Role {
            if state == "MASTER"@ {
                self.at(SyncStage::Drain)
            } else {
                SyncView {
                    stage: SyncStage::Limit,
                    status: StatusView { state: "standby"@, last_error: None, ..self.status },
                    ..self
                }
            }
        } else {
            self
        }
    }

    /// The worker that took what the datapath reported.
    pub open spec fn drained(self, mutations: Seq<FlowMutation>, now_ms: u64) -> SyncView {
        SyncView {
            stage: if now_ms >= self.session.reconcile.next_at_ms {
                SyncStage::Sweep
            } else {
                SyncStage::Clock
            },
            session: self.session.after_events(mutations, now_ms),
            drained_ms: now_ms,
            force: false,
            ..self
        }
    }

    /// The worker that compared all flows with what the peer knows.
    pub open spec fn dumped(self, flows: Seq<FlowEntry>, done_ms: u64) -> SyncView {
        SyncView {
            stage: SyncStage::Clock,
            session: self.session.after_dump(flows, self.drained_ms, done_ms),
            force: true,
            ..self
        }
    }

    /// The worker that took what goes out now, if anything.
    pub open spec fn flushed(self, now_ms: u64) -> SyncView {
        if due_to_flush(self.session.rows, self.session.oldest_ms, now_ms, self.force) {
            let next = next_batch(self.session.rows);
            SyncView {
                stage: if next.entries.len() == 0 && next.deletes.len() == 0 {
                    SyncStage::Pause
                } else {
                    SyncStage::Monotonic
                },
                session: self.session.after_take(now_ms),
                entries: next.entries,
                gone: next.deletes,
                ..self
            }
        } else {
            self.at(SyncStage::Pause)
        }
    }

    /// The worker behind an answer of the peer.
    pub open spec fn answered(self, accepted: Option<u64>, now_ms: u64) -> SyncView {
        if self.stage == SyncStage::AwaitHello {
            match accepted {
                None => self.failed("xSync handshake was not acknowledged"@),
                Some(_) => self.at(SyncStage::OpenEvents),
            }
        } else if self.stage == SyncStage::AwaitAck {
            match accepted {
                None => self.failed("xSync peer closed stream"@),
                Some(count) => SyncView {
                    stage: SyncStage::Pause,
                    status: StatusView { last_ack_applied: capped(count), ..self.status },
                    session: self.session.after_ack(self.entries, self.gone, count, now_ms),
                    ..self
                },
            }
        } else {
            self
        }
    }

    /// The worker behind a step. What does not answer the question changes nothing.
    pub open spec fn next(self, event: SyncEventView) -> SyncView {
        match event {
            SyncEventView::Failed { error } => if may_fail(self.stage) {
                self.failed(error)
            } else if self.stage == SyncStage::Sweep {
                self.at(SyncStage::Dump)
            } else {
                self
            },
            SyncEventView::Passed => match self.stage {
                SyncStage::Idle => self.at(SyncStage::Limit),
                SyncStage::Connect => self.at(SyncStage::SendHello),
                SyncStage::SendHello => self.at(SyncStage::AwaitHello),
                SyncStage::Sweep => self.at(SyncStage::Dump),
                SyncStage::Send => self.at(SyncStage::AwaitAck),
                SyncStage::Pause => self.at(SyncStage::AskStop),
                SyncStage::Backoff => self.at(SyncStage::Begin),
                _ => self,
            },
            SyncEventView::Answer(yes) => match self.stage {
                SyncStage::Begin => self.at(
                    if yes {
                        SyncStage::Done
                    } else {
                        SyncStage::Settings
                    },
                ),
                SyncStage::AskStop => self.at(
                    if yes {
                        SyncStage::Limit
                    } else {
                        SyncStage::Role
                    },
                ),
                _ => self,
            },
            SyncEventView::Settings(settings) => if self.stage == SyncStage::Settings {
                self.with_settings(settings)
            } else {
                self
            },
            SyncEventView::Role { state } => self.with_role(state),
            SyncEventView::Token(token) => if self.stage == SyncStage::Token {
                match token {
                    None => self.failed("xsync peer token unavailable"@),
                    Some(token) => SyncView { stage: SyncStage::Connect, token, ..self },
                }
            } else {
                self
            },
            SyncEventView::Answered { accepted, now_ms } => self.answered(accepted, now_ms),
            SyncEventView::Drained { mutations, now_ms } => if self.stage == SyncStage::Drain {
                self.drained(mutations, now_ms)
            } else {
                self
            },
            SyncEventView::Dumped { flows, done_ms } => if self.stage == SyncStage::Dump {
                self.dumped(flows, done_ms)
            } else {
                self
            },
            SyncEventView::Now(now_ms) => if self.stage == SyncStage::OpenEvents {
                SyncView {
                    stage: SyncStage::AskStop,
                    session: fresh_session(now_ms),
                    status: StatusView {
                        state: "connected"@,
                        peer: Some(self.endpoint),
                        last_error: None,
                        ..self.status
                    },
                    ..self
                }
            } else if self.stage == SyncStage::Clock {
                self.flushed(now_ms)
            } else {
                self
            },
            SyncEventView::NowNs(now_ns) => if self.stage == SyncStage::Monotonic {
                SyncView { stage: SyncStage::Send, sent_ns: now_ns, ..self }
            } else {
                self
            },
            SyncEventView::Limit(limit) => if self.stage == SyncStage::Limit {
                SyncView {
                    stage: SyncStage::Backoff,
                    wait_ms: self.backoff_ms,
                    backoff_ms: waits_next(self.backoff_ms, limit),
                    ..self
                }
            } else {
                self
            },
        }
    }
}

/// Whether a request is the one that opens a session: it names the sender and holds no
/// operations.
pub open spec fn is_hello(run: SyncView, request: SyncRequest) -> bool {
    &&& request.source@ == run.node
    &&& request.token@ == run.token
    &&& request.entries@.len() == 0
    &&& request.deletes@.len() == 0
}

/// Whether a request holds what is on its way.
pub open spec fn is_update(run: SyncView, request: SyncRequest) -> bool {
    &&& request.source@ == run.node
    &&& request.token@ == run.token
    &&& request.entries@ == run.entries.map_values(
        |entry: FlowEntry| wire_entry(entry, run.sent_ns),
    )
    &&& request.deletes@ == run.gone.map_values(|key: FlowKey| wire_key(key))
}

/// Whether an action is what the worker asks for.
pub open spec fn asks(run: SyncView, action: SyncAction) -> bool {
    match run.stage {
        SyncStage::Begin | SyncStage::AskStop => action is AskStop,
        SyncStage::Settings => action is ReadSettings,
        SyncStage::OpenRole | SyncStage::Role => action is ReadRole,
        SyncStage::Idle => action == (SyncAction::Wait { ms: IDLE_WAIT_MS }),
        SyncStage::Token => action is ReadToken,
        SyncStage::Connect => action matches SyncAction::Connect { endpoint } && endpoint@
            == run.endpoint,
        SyncStage::SendHello => action matches SyncAction::Send { request } && is_hello(
            run,
            request,
        ),
        SyncStage::AwaitHello | SyncStage::AwaitAck => action == (SyncAction::AwaitAnswer {
            timeout_ms: ANSWER_TIMEOUT_MS,
        }),
        SyncStage::OpenEvents => action is OpenEvents,
        SyncStage::Drain => action is DrainEvents,
        SyncStage::Sweep => action is SweepFlows,
        SyncStage::Dump => action is DumpFlows,
        SyncStage::Clock => action is ReadClock,
        SyncStage::Monotonic => action is ReadMonotonic,
        SyncStage::Send => action matches SyncAction::Send { request } && is_update(run, request),
        SyncStage::Pause => action == (SyncAction::Wait { ms: EVENT_POLL_INTERVAL_MS }),
        SyncStage::Limit => action is ReadLimit,
        SyncStage::Backoff => action == (SyncAction::Wait { ms: run.wait_ms }),
        SyncStage::Done => action is Finished,
    }
}

/// The worker before its first session.
pub open spec fn first(node: Seq<char>, status: StatusView) -> SyncView {
    SyncView {
        node,
        stage: SyncStage::Begin,
        session: fresh_session(0),
        status,
        endpoint: Seq::empty(),
        token: Seq::empty(),
        drained_ms: 0,
        force: false,
        entries: Seq::empty(),
        gone: Seq::empty(),
        sent_ns: 0,
        wait_ms: 0,
        backoff_ms: FIRST_BACKOFF_MS,
    }
}

fn can_fail(stage: SyncStage) -> (b: bool)
    ensures
        b == may_fail(stage),
{
    match stage {
        SyncStage::Settings | SyncStage::OpenRole | SyncStage::Token | SyncStage::Connect
        | SyncStage::SendHello | SyncStage::AwaitHello | SyncStage::OpenEvents | SyncStage::Role
        | SyncStage::Dump | SyncStage::Send | SyncStage::AwaitAck => true,
        _ => false,
    }
}

fn cap(count: u64) -> (size: usize)
    ensures
        size == capped(count),
{
    if count <= usize::MAX as u64 {
        count as usize
    } else {
        usize::MAX
    }
}

impl SyncRun {
    pub open spec fn wf(&self) -> bool {
        self.session.wf()
    }

    /// The worker of a gateway.
    pub fn run_worker(node: String, status: XsyncStatus) -> (run: Self)
        ensures
            run.wf(),
            run@ == first(node@, status@),
    {
        let run = SyncRun {
            node,
            stage: SyncStage::Begin,
            session: XsyncSession::new(0),
            status,
            endpoint: String::new(),
            token: String::new(),
            drained_ms: 0,
            force: false,
            batch: FlowSyncBatch { entries: Vec::new(), deletes: Vec::new() },
            sent_ns: 0,
            wait_ms: 0,
            backoff_ms: FIRST_BACKOFF_MS,
        };
        assert(run.endpoint@ =~= Seq::<char>::empty());
        assert(run.batch.entries@ =~= Seq::<FlowEntry>::empty());
        assert(run.batch.deletes@ =~= Seq::<FlowKey>::empty());
        run
    }

    fn hello(&self) -> (request: SyncRequest)
        ensures
            is_hello(self@, request),
    {
        SyncRequest {
            source: self.node.clone(),
            token: self.token.clone(),
            entries: Vec::new(),
            deletes: Vec::new(),
        }
    }

    fn update(&self) -> (request: SyncRequest)
        ensures
            is_update(self@, request),
    {
        let (entries, deletes) = self.batch.encode(self.sent_ns);
        SyncRequest { source: self.node.clone(), token: self.token.clone(), entries, deletes }
    }

    /// What the worker asks for next.
    pub fn action(&self) -> (action: SyncAction)
        ensures
            asks(self@, action),
    {
        match self.stage {
            SyncStage::Begin | SyncStage::AskStop => SyncAction::AskStop,
            SyncStage::Settings => SyncAction::ReadSettings,
            SyncStage::OpenRole | SyncStage::Role => SyncAction::ReadRole,
            SyncStage::Idle => SyncAction::Wait { ms: IDLE_WAIT_MS },
            SyncStage::Token => SyncAction::ReadToken,
            SyncStage::Connect => SyncAction::Connect { endpoint: self.endpoint.clone() },
            SyncStage::SendHello => SyncAction::Send { request: self.hello() },
            SyncStage::AwaitHello | SyncStage::AwaitAck => SyncAction::AwaitAnswer {
                timeout_ms: ANSWER_TIMEOUT_MS,
            },
            SyncStage::OpenEvents => SyncAction::OpenEvents,
            SyncStage::Drain => SyncAction::DrainEvents,
            SyncStage::Sweep => SyncAction::SweepFlows,
            SyncStage::Dump => SyncAction::DumpFlows,
            SyncStage::Clock => SyncAction::ReadClock,
            SyncStage::Monotonic => SyncAction::ReadMonotonic,
            SyncStage::Send => SyncAction::Send { request: self.update() },
            SyncStage::Pause => SyncAction::Wait { ms: EVENT_POLL_INTERVAL_MS },
            SyncStage::Limit => SyncAction::ReadLimit,
            SyncStage::Backoff => SyncAction::Wait { ms: self.wait_ms },
            SyncStage::Done => SyncAction::Finished,
        }
    }

    fn fail(&mut self, error: String)
        requires
            old(self).wf(),
        ensures
            final(self).wf(),
            final(self)@ == old(self)@.failed(error@),
    {
        self.status.set_error(error);
        self.stage = SyncStage::Limit;
    }

    fn take_settings(&mut self, settings: SyncSettings)
        requires
            old(self).wf(),
        ensures
            final(self).wf(),
            final(self)@ == old(self)@.with_settings(settings),
    {
        self.endpoint = if settings.peers.len() == 0 {
            let none = String::new();
            assert(none@ =~= Seq::<char>::empty());
            none
        } else {
            peer_endpoint(&settings.peers[0], settings.listen.as_str(), settings.port)
        };
        self.stage = if settings.enabled && settings.connection_sync {
            SyncStage::OpenRole
        } else {
            SyncStage::Idle
        };
    }

    fn take_role(&mut self, state: &str)
        requires
            old(self).wf(),
        ensures
            final(self).wf(),
            final(self)@ == old(self)@.with_role(state@),
    {
        let active = same_text(state, "MASTER");
        if self.stage == SyncStage::OpenRole {
            if !active {
                self.stage = SyncStage::Idle;
                return ;
            }
            proof {
                reveal_strlit("");
            }
            let unknown = same_text(self.endpoint.as_str(), "");
            assert(unknown == (self.endpoint@.len() == 0)) by {
                if self.endpoint@.len() == 0 {
                    assert(self.endpoint@ =~= ""@);
                }
            }
            if unknown {
                self.fail(String::from_str("xsync peer is not configured"));
            } else {
                self.stage = SyncStage::Token;
            }
        } else if self.stage == SyncStage::Role {
            if active {
                self.stage = SyncStage::Drain;
            } else {
                self.status.set_state("standby", None, None);
                self.stage = SyncStage::Limit;
            }
        }
    }

    fn take_answer(&mut self, accepted: Option<u64>, now_ms: u64)
        requires
            old(self).wf(),
        ensures
            final(self).wf(),
            final(self)@ == old(self)@.answered(accepted, now_ms),
    {
        if self.stage == SyncStage::AwaitHello {
            match accepted {
                None => {
                    self.fail(String::from_str("xSync handshake was not acknowledged"));
                },
                Some(_) => {
                    self.stage = SyncStage::OpenEvents;
                },
            }
        } else if self.stage == SyncStage::AwaitAck {
            match accepted {
                None => {
                    self.fail(String::from_str("xSync peer closed stream"));
                },
                Some(count) => {
                    self.status.set_ack(cap(count));
                    self.session.on_ack(&self.batch, count, now_ms);
                    self.stage = SyncStage::Pause;
                },
            }
        }
    }

    fn take_time(&mut self, now_ms: u64)
        requires
            old(self).wf(),
        ensures
            final(self).wf(),
            final(self)@ == old(self)@.next(SyncEventView::Now(now_ms)),
    {
        if self.stage == SyncStage::OpenEvents {
            self.session = XsyncSession::new(now_ms);
            let endpoint = self.endpoint.clone();
            self.status.set_state("connected", Some(endpoint), None);
            self.stage = SyncStage::AskStop;
        } else if self.stage == SyncStage::Clock {
            match self.session.next_request(now_ms, self.force) {
                None => {
                    self.stage = SyncStage::Pause;
                },
                Some(batch) => {
                    self.stage = if batch.is_empty() {
                        SyncStage::Pause
                    } else {
                        SyncStage::Monotonic
                    };
                    self.batch = batch;
                },
            }
        }
    }

    fn take_pass(&mut self)
        requires
            old(self).wf(),
        ensures
            final(self).wf(),
            final(self)@ == old(self)@.next(SyncEventView::Passed),
    {
        self.stage = match self.stage {
            SyncStage::Idle => SyncStage::Limit,
            SyncStage::Connect => SyncStage::SendHello,
            SyncStage::SendHello => SyncStage::AwaitHello,
            SyncStage::Sweep => SyncStage::Dump,
            SyncStage::Send => SyncStage::AwaitAck,
            SyncStage::Pause => SyncStage::AskStop,
            SyncStage::Backoff => SyncStage::Begin,
            stage => stage,
        };
    }

    fn take_failure(&mut self, error: String)
        requires
            old(self).wf(),
        ensures
            final(self).wf(),
            final(self)@ == old(self)@.next(SyncEventView::Failed { error: error@ }),
    {
        if can_fail(self.stage) {
            self.fail(error);
        } else if self.stage == SyncStage::Sweep {
            self.stage = SyncStage::Dump;
        }
    }

    fn take_yes_or_no(&mut self, yes: bool)
        requires
            old(self).wf(),
        ensures
            final(self).wf(),
            final(self)@ == old(self)@.next(SyncEventView::Answer(yes)),
    {
        match self.stage {
            SyncStage::Begin => {
                self.stage = if yes {
                    SyncStage::Done
                } else {
                    SyncStage::Settings
                };
            },
            SyncStage::AskStop => {
                self.stage = if yes {
                    SyncStage::Limit
                } else {
                    SyncStage::Role
                };
            },
            _ => {},
        }
    }

    fn take_token(&mut self, token: Option<String>)
        requires
            old(self).wf(),
        ensures
            final(self).wf(),
            final(self)@ == old(self)@.next(SyncEventView::Token(opt_text(token))),
    {
        if self.stage == SyncStage::Token {
            match token {
                None => {
                    self.fail(String::from_str("xsync peer token unavailable"));
                },
                Some(token) => {
                    self.token = token;
                    self.stage = SyncStage::Connect;
                },
            }
        }
    }

    fn take_changes(&mut self, mutations: &[FlowMutation], now_ms: u64)
        requires
            old(self).wf(),
        ensures
            final(self).wf(),
            final(self)@ == old(self)@.next(
                SyncEventView::Drained { mutations: mutations@, now_ms },
            ),
    {
        if self.stage == SyncStage::Drain {
            let due = self.session.on_events(mutations, now_ms);
            self.drained_ms = now_ms;
            self.force = false;
            self.stage = if due {
                SyncStage::Sweep
            } else {
                SyncStage::Clock
            };
        }
    }

    fn take_flows(&mut self, flows: &[FlowEntry], done_ms: u64)
        requires
            old(self).wf(),
        ensures
            final(self).wf(),
            final(self)@ == old(self)@.next(SyncEventView::Dumped { flows: flows@, done_ms }),
    {
        if self.stage == SyncStage::Dump {
            self.session.on_dump(flows, self.drained_ms, done_ms);
            self.force = true;
            self.stage = SyncStage::Clock;
        }
    }

    /// Goes on with what came of what was asked for. What does not answer the question
    /// changes nothing.
    pub fn advance(&mut self, event: SyncEvent)
        requires
            old(self).wf(),
        ensures
            final(self).wf(),
            final(self)@ == old(self)@.next(event@),
    {
        match event {
            SyncEvent::Passed => self.take_pass(),
            SyncEvent::Failed { error } => self.take_failure(error),
            SyncEvent::Answer(yes) => self.take_yes_or_no(yes),
            SyncEvent::Settings(settings) => {
                if self.stage == SyncStage::Settings {
                    self.take_settings(settings);
                }
            },
            SyncEvent::Role { state } => self.take_role(state.as_str()),
            SyncEvent::Token(token) => self.take_token(token),
            SyncEvent::Answered { accepted, now_ms } => self.take_answer(accepted, now_ms),
            SyncEvent::Drained { mutations, now_ms } => self.take_changes(
                mutations.as_slice(),
                now_ms,
            ),
            SyncEvent::Dumped { flows, done_ms } => self.take_flows(flows.as_slice(), done_ms),
            SyncEvent::Now(now_ms) => self.take_time(now_ms),
            SyncEvent::NowNs(now_ns) => {
                if self.stage == SyncStage::Monotonic {
                    self.sent_ns = now_ns;
                    self.stage = SyncStage::Send;
                }
            },
            SyncEvent::Limit(limit) => {
                if self.stage == SyncStage::Limit {
                    self.wait_ms = self.backoff_ms;
                    self.backoff_ms = next_backoff_ms(self.backoff_ms, limit);
                    self.stage = SyncStage::Backoff;
                }
            },
        }
    }
}

// ---------------------------------------------------------------------------
// Laws
// ---------------------------------------------------------------------------

/// Only an active gateway replicates: a session is opened, and goes on, only where this
/// gateway was just found active.
pub proof fn law_only_active_gateway_sends(run: SyncView, event: SyncEventView)
    ensures
        ({
            let to = run.next(event).stage;
            &&& to != run.stage && to == SyncStage::Token ==> run.stage == SyncStage::OpenRole
                && event == (SyncEventView::Role { state: "MASTER"@ })
            &&& to != run.stage && to == SyncStage::Drain ==> run.stage == SyncStage::Role && event
                == (SyncEventView::Role { state: "MASTER"@ })
            &&& to != run.stage && to == SyncStage::Send ==> run.stage == SyncStage::Monotonic
            &&& to != run.stage && to == SyncStage::Monotonic ==> run.stage == SyncStage::Clock
            &&& to != run.stage && to == SyncStage::Clock ==> run.stage == SyncStage::Drain
                || run.stage == SyncStage::Dump
            &&& to != run.stage && to == SyncStage::Dump ==> run.stage == SyncStage::Sweep
            &&& to != run.stage && to == SyncStage::Sweep ==> run.stage == SyncStage::Drain
        }),
{
}

/// What the peer is taken to know changes only where it accepted every operation of a
/// request, or where a session begins; then it knows nothing.
pub proof fn law_peer_knows_what_it_accepted(run: SyncView, event: SyncEventView)
    ensures
        run.stage == SyncStage::OpenEvents && event is Now ==> run.next(
            event,
        ).session.replica.len() == 0,
        run.stage == SyncStage::AwaitAck ==> run.next(event).session.replica == match event {
            SyncEventView::Answered { accepted: Some(count), .. } => if count == operations(
                run.entries,
                run.gone,
            ) {
                without_gone(with_sent(run.session.replica, run.entries), run.gone)
            } else {
                run.session.replica
            },
            _ => run.session.replica,
        },
        run.stage != SyncStage::OpenEvents && run.stage != SyncStage::AwaitAck ==> run.next(
            event,
        ).session.replica == run.session.replica,
{
}

proof fn lemma_gathered_keeps(
    rows: Seq<(FlowKey, FlowOp)>,
    mutations: Seq<FlowMutation>,
    key: FlowKey,
)
    ensures
        row_of(rows, key) is Some ==> row_of(gathered_all(rows, mutations), key) is Some,
        (exists|i: int| 0 <= i < mutations.len() && mutation_key(#[trigger] mutations[i]) == key)
            ==> row_of(gathered_all(rows, mutations), key) is Some,
    decreases mutations.len(),
{
    if mutations.len() > 0 {
        let before = mutations.drop_last();
        lemma_gathered_keeps(rows, before, key);
        law_last_change_counts(gathered_all(rows, before), mutations.last(), key);
        if exists|i: int| 0 <= i < mutations.len() && mutation_key(#[trigger] mutations[i]) == key {
            let i = choose|i: int|
                0 <= i < mutations.len() && mutation_key(#[trigger] mutations[i]) == key;
            if i < before.len() {
                assert(mutation_key(before[i]) == key);
            }
        }
    }
}

/// Operations that the peer did not accept are not lost: each of their flows is to be
/// sent again, and the flows are compared as a whole at once.
pub proof fn law_refused_operations_stay(run: SyncView, count: u64, now_ms: u64, at: int)
    requires
        run.stage == SyncStage::AwaitAck,
        count != operations(run.entries, run.gone),
    ensures
        ({
            let next = run.next(SyncEventView::Answered { accepted: Some(count), now_ms });
            &&& 0 <= at < run.entries.len() ==> row_of(next.session.rows, run.entries[at].key)
                is Some
            &&& 0 <= at < run.gone.len() ==> row_of(next.session.rows, run.gone[at]) is Some
            &&& next.session.reconcile.next_at_ms == now_ms
        }),
{
    let first = gathered_all(run.session.rows, deletes(run.gone));
    if 0 <= at < run.entries.len() {
        let key = run.entries[at].key;
        assert(mutation_key(upserts(run.entries)[at]) == key);
        lemma_gathered_keeps(first, upserts(run.entries), key);
    }
    if 0 <= at < run.gone.len() {
        let key = run.gone[at];
        assert(mutation_key(deletes(run.gone)[at]) == key);
        lemma_gathered_keeps(run.session.rows, deletes(run.gone), key);
        lemma_gathered_keeps(first, upserts(run.entries), key);
    }
}

/// The wait between sessions doubles up to a limit, and is never shorter than the first.
pub proof fn law_waits_are_bounded(run: SyncView, limit: Option<u64>)
    requires
        run.stage == SyncStage::Limit,
        FIRST_BACKOFF_MS <= run.backoff_ms,
    ensures
        ({
            let next = run.next(SyncEventView::Limit(limit));
            &&& next.wait_ms == run.backoff_ms
            &&& FIRST_BACKOFF_MS <= next.backoff_ms
            &&& next.backoff_ms <= match limit {
                Some(ms) => if ms < FIRST_BACKOFF_MS {
                    FIRST_BACKOFF_MS
                } else {
                    ms
                },
                None => 5_000,
            }
        }),
{
}

/// An active gateway that replicates opens a session with its first peer: it reads its
/// settings, its role and the token, connects, says who it is and waits for the answer. A
/// session that is open compares all flows at once.
pub proof fn law_sessions_are_opened(
    run: SyncView,
    settings: SyncSettings,
    token: Seq<char>,
    accepted: u64,
    now_ms: u64,
)
    requires
        run.stage == SyncStage::Begin,
        settings.enabled,
        settings.connection_sync,
        settings.peers@.len() > 0,
    ensures
        ({
            let set = run.next(SyncEventView::Answer(false)).next(
                SyncEventView::Settings(settings),
            );
            let ready = set.next(SyncEventView::Role { state: "MASTER"@ }).next(
                SyncEventView::Token(Some(token)),
            );
            let said = ready.next(SyncEventView::Passed).next(SyncEventView::Passed);
            let open = said.next(SyncEventView::Answered { accepted: Some(accepted), now_ms }).next(
                SyncEventView::Now(now_ms),
            );
            &&& socket_value(settings.listen@) is None ==> set.endpoint == "http://"@
                + settings.peers@[0].underlay_ip@ + ":"@ + decimal(settings.port as nat)
            &&& socket_value(settings.listen@) matches Some((_, port)) ==> set.endpoint
                == "http://"@ + settings.peers@[0].underlay_ip@ + ":"@ + decimal(port as nat)
            &&& set.stage == SyncStage::OpenRole
            &&& ready.stage == SyncStage::Connect
            &&& ready.token == token
            &&& ready.endpoint == set.endpoint
            &&& said.stage == SyncStage::AwaitHello
            &&& open.stage == SyncStage::AskStop
            &&& open.session.reconcile.next_at_ms == now_ms
            &&& open.status.state == "connected"@
            &&& open.status.peer == Some(set.endpoint)
            &&& open.status.last_error is None
            &&& open.node == run.node
        }),
{
    reveal_strlit("http://");
}

/// A gateway that does not replicate, or that is not active, waits a second and opens no
/// session.
pub proof fn law_idle_gateways_wait(
    run: SyncView,
    settings: SyncSettings,
    state: Seq<char>,
    action: SyncAction,
)
    requires
        run.stage == SyncStage::Settings,
        !settings.enabled || !settings.connection_sync || state != "MASTER"@,
    ensures
        ({
            let next = run.next(SyncEventView::Settings(settings)).next(
                SyncEventView::Role { state },
            );
            &&& next.stage == SyncStage::Idle
            &&& asks(next, action) ==> action == (SyncAction::Wait { ms: 1_000 })
            &&& next.next(SyncEventView::Passed).stage == SyncStage::Limit
        }),
{
}

/// Within a session the active gateway takes the changes of the datapath, compares all flows
/// where that is due, and sends what is gathered.
pub proof fn law_changes_are_sent_on(
    run: SyncView,
    mutations: Seq<FlowMutation>,
    flows: Seq<FlowEntry>,
    drained_ms: u64,
    done_ms: u64,
)
    requires
        run.stage == SyncStage::AskStop,
    ensures
        ({
            let drained = run.next(SyncEventView::Answer(false)).next(
                SyncEventView::Role { state: "MASTER"@ },
            ).next(SyncEventView::Drained { mutations, now_ms: drained_ms });
            let compared = drained.next(SyncEventView::Passed).next(
                SyncEventView::Dumped { flows, done_ms },
            );
            &&& drained.session.rows == gathered_all(run.session.rows, mutations)
            &&& drained_ms < run.session.reconcile.next_at_ms ==> drained.stage == SyncStage::Clock
                && !drained.force
            &&& drained_ms >= run.session.reconcile.next_at_ms ==> compared.stage
                == SyncStage::Clock && compared.force
            &&& run.next(SyncEventView::Answer(true)).stage == SyncStage::Limit
            &&& run.next(SyncEventView::Answer(false)).next(
                SyncEventView::Role { state: "BACKUP"@ },
            ).stage == SyncStage::Limit
        }),
{
    reveal_strlit("MASTER");
    reveal_strlit("BACKUP");
    assert("MASTER"@[0] != "BACKUP"@[0]);
}

/// What is due goes out in a request, and the answer is waited for; where nothing is due the
/// worker pauses and goes on.
pub proof fn law_due_operations_are_sent(run: SyncView, now_ms: u64, now_ns: u64)
    requires
        run.stage == SyncStage::Clock,
    ensures
        ({
            let taken = run.next(SyncEventView::Now(now_ms));
            let sent = taken.next(SyncEventView::NowNs(now_ns)).next(SyncEventView::Passed);
            let next = next_batch(run.session.rows);
            let due = run.session.rows.len() > 0 && (run.force || run.session.rows.len() >= 4096 || (
            run.session.oldest_ms matches Some(ms) && now_ms >= ms + 50));
            &&& due && next.entries.len() + next.deletes.len() > 0 ==> taken.entries == next.entries
                && taken.gone == next.deletes && taken.session.rows == next.left && sent.stage
                == SyncStage::AwaitAck && sent.sent_ns == now_ns
            &&& !due ==> taken.stage == SyncStage::Pause && taken.session == run.session
            &&& taken.at(SyncStage::Pause).next(SyncEventView::Passed).stage == SyncStage::AskStop
        }),
{
}

/// A request is sent under the name of the gateway and with its token; the one that opens a
/// session holds no flows, the others each flow that is on its way, in its place.
pub proof fn law_requests_hold_what_is_on_its_way(run: SyncView, action: SyncAction, i: int)
    requires
        asks(run, action),
    ensures
        run.stage == SyncStage::SendHello || run.stage == SyncStage::Send ==> (
        action matches SyncAction::Send { request } && request.source@ == run.node
            && request.token@ == run.token),
        run.stage == SyncStage::SendHello ==> (action matches SyncAction::Send { request }
            && request.entries@.len() == 0 && request.deletes@.len() == 0),
        run.stage == SyncStage::Send ==> (action matches SyncAction::Send { request } && {
            &&& request.entries@.len() == run.entries.len()
            &&& request.deletes@.len() == run.gone.len()
            &&& 0 <= i < run.entries.len() ==> request.entries@[i] == wire_entry(
                run.entries[i],
                run.sent_ns,
            )
            &&& 0 <= i < run.gone.len() ==> request.deletes@[i] == wire_key(run.gone[i])
        }),
        run.stage == SyncStage::AwaitHello || run.stage == SyncStage::AwaitAck ==> action == (
        SyncAction::AwaitAnswer { timeout_ms: 5_000 }),
        run.stage == SyncStage::Pause ==> action == (SyncAction::Wait { ms: 25 }),
        run.stage == SyncStage::Backoff ==> action == (SyncAction::Wait { ms: run.wait_ms }),
        run.stage == SyncStage::Connect ==> (action matches SyncAction::Connect { endpoint }
            && endpoint@ == run.endpoint),
        run.stage == SyncStage::Role || run.stage == SyncStage::OpenRole ==> action
            == SyncAction::ReadRole,
        run.stage == SyncStage::Begin || run.stage == SyncStage::AskStop ==> action
            == SyncAction::AskStop,
{
}

/// What goes wrong in a session ends it: the status says why, and the worker waits and
/// begins again; the wait is a quarter of a second at first.
pub proof fn law_broken_sessions_are_retried(
    run: SyncView,
    error: Seq<char>,
    limit: Option<u64>,
    node: Seq<char>,
    status: StatusView,
)
    ensures
        run.stage == SyncStage::Connect || run.stage == SyncStage::Send || run.stage
            == SyncStage::AwaitAck || run.stage == SyncStage::AwaitHello || run.stage
            == SyncStage::SendHello || run.stage == SyncStage::Dump || run.stage == SyncStage::Role
            || run.stage == SyncStage::OpenEvents || run.stage == SyncStage::Token || run.stage
            == SyncStage::Settings ==> ({
            let next = run.next(SyncEventView::Failed { error });
            let waits = next.next(SyncEventView::Limit(limit));
            &&& next.stage == SyncStage::Limit
            &&& next.status.state == "error"@
            &&& next.status.last_error == Some(error)
            &&& next.status.peer == run.status.peer
            &&& waits.stage == SyncStage::Backoff
            &&& waits.wait_ms == run.backoff_ms
            &&& waits.next(SyncEventView::Passed).stage == SyncStage::Begin
        }),
        run.stage == SyncStage::Sweep ==> run.next(SyncEventView::Failed { error }).stage
            == SyncStage::Dump,
        first(node, status).backoff_ms == 250,
        first(node, status).stage == SyncStage::Begin,
        first(node, status).status == status,
        first(node, status).node == node,
{
}

} // verus!
