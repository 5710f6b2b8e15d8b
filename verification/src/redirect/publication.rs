//! Writing a planned publication into the cache, one step at a time: both directions are
//! emptied, then local addresses, route leases and return leases are put in. The first
//! step that fails ends it; what it leaves is then to be cleared.
use crate::redirect::maps::{lemma_drop_one, lemma_listed, lists, part_dropped};
use crate::redirect::planner::{NativeTargetKey, NativeTargetRoute};
use crate::redirect::reconcile::{LeaseEntry, RouteEntry};
use crate::redirect::return_planner::{ReturnLease, ReturnLeaseKey};
use crate::text::opt_text;
use vstd::prelude::*;

verus! {

/// Where writing stands.
#[derive(Clone, Copy, Debug, PartialEq, Eq, Structural)]
pub enum WriteStage {
    ListReplies,
    DropReply,
    ListRoutes,
    DropRoute,
    OpenLocals,
    PutLocal,
    PutRoute,
    OpenReplies,
    PutReply,
    Done,
    Failed,
}

/// What writing asks for next.
#[derive(Clone, Copy, Debug, PartialEq, Eq)]
pub enum WriteAction {
    ListReplies,
    DropReply(ReturnLeaseKey),
    ListRoutes,
    DropRoute(NativeTargetKey),
    OpenLocals,
    PutLocal(u32),
    PutRoute(RouteEntry),
    OpenReplies,
    PutReply(LeaseEntry),
    Finished,
    Failed,
}

/// What came of it.
#[derive(Debug)]
pub enum WriteEvent {
    /// There is no such map.
    Absent,
    Replies(Vec<ReturnLeaseKey>),
    Routes(Vec<NativeTargetKey>),
    Passed,
    Failed { error: String },
}

/// What came of it, as plain values.
pub enum WriteEventView {
    Absent,
    Replies(Seq<ReturnLeaseKey>),
    Routes(Seq<NativeTargetKey>),
    Passed,
    Failed { error: Seq<char> },
}

impl View for WriteEvent {
    type V = WriteEventView;

    open spec fn view(&self) -> WriteEventView {
        match *self {
            WriteEvent::Absent => WriteEventView::Absent,
            WriteEvent::Replies(keys) => WriteEventView::Replies(keys@),
            WriteEvent::Routes(keys) => WriteEventView::Routes(keys@),
            WriteEvent::Passed => WriteEventView::Passed,
            WriteEvent::Failed { error } => WriteEventView::Failed { error: error@ },
        }
    }
}

/// Writes a planned publication.
#[derive(Debug)]
pub struct CacheWrite {
    pub stage: WriteStage,
    pub locals: Vec<u32>,
    pub desired: Vec<RouteEntry>,
    pub leases: Vec<LeaseEntry>,
    /// The keys that are being dropped.
    pub old_replies: Vec<ReturnLeaseKey>,
    pub old_routes: Vec<NativeTargetKey>,
    /// How far the list is done that is being dropped or put in.
    pub at: usize,
    pub error: Option<String>,
}

/// Writing, as plain values.
pub struct WriteView {
    pub stage: WriteStage,
    pub locals: Seq<u32>,
    pub desired: Seq<RouteEntry>,
    pub leases: Seq<LeaseEntry>,
    pub old_replies: Seq<ReturnLeaseKey>,
    pub old_routes: Seq<NativeTargetKey>,
    pub at: nat,
    pub error: Option<Seq<char>>,
}

impl View for CacheWrite {
    type V = WriteView;

    open spec fn view(&self) -> WriteView {
        WriteView {
            stage: self.stage,
            locals: self.locals@,
            desired: self.desired@,
            leases: self.leases@,
            old_replies: self.old_replies@,
            old_routes: self.old_routes@,
            at: self.at as nat,
            error: opt_text(self.error),
        }
    }
}

/// Writing that has not begun.
pub open spec fn first_write(
    desired: Seq<RouteEntry>,
    leases: Seq<LeaseEntry>,
    locals: Seq<u32>,
) -> WriteView {
    WriteView {
        stage: WriteStage::ListReplies,
        locals,
        desired,
        leases,
        old_replies: Seq::empty(),
        old_routes: Seq::empty(),
        at: 0,
        error: None,
    }
}

impl WriteView {
    /// How long the list is that is being dropped or put in.
    pub open spec fn list_len(self) -> nat {
        match self.stage {
            WriteStage::DropReply => self.old_replies.len(),
            WriteStage::DropRoute => self.old_routes.len(),
            WriteStage::PutLocal => self.locals.len(),
            WriteStage::PutRoute => self.desired.len(),
            WriteStage::PutReply => self.leases.len(),
            _ => 0,
        }
    }

    /// Whether a list is being dropped or put in.
    pub open spec fn on_list(self) -> bool {
        match self.stage {
            WriteStage::DropReply | WriteStage::DropRoute | WriteStage::PutLocal
            | WriteStage::PutRoute | WriteStage::PutReply => true,
            _ => false,
        }
    }

    /// Whether there is an item where one is asked for.
    pub open spec fn wf(self) -> bool {
        self.on_list() ==> self.at < self.list_len()
    }

    /// What writing asks for next.
    pub open spec fn asks(self) -> WriteAction {
        let at = self.at as int;
        match self.stage {
            WriteStage::ListReplies => WriteAction::ListReplies,
            WriteStage::DropReply => WriteAction::DropReply(self.old_replies[at]),
            WriteStage::ListRoutes => WriteAction::ListRoutes,
            WriteStage::DropRoute => WriteAction::DropRoute(self.old_routes[at]),
            WriteStage::OpenLocals => WriteAction::OpenLocals,
            WriteStage::PutLocal => WriteAction::PutLocal(self.locals[at]),
            WriteStage::PutRoute => WriteAction::PutRoute(self.desired[at]),
            WriteStage::OpenReplies => WriteAction::OpenReplies,
            WriteStage::PutReply => WriteAction::PutReply(self.leases[at]),
            WriteStage::Done => WriteAction::Finished,
            WriteStage::Failed => WriteAction::Failed,
        }
    }

    /// Where writing goes on behind the routes: without return leases it is done.
    pub open spec fn past_routes(self) -> WriteView {
        WriteView {
            stage: if self.leases.len() == 0 {
                WriteStage::Done
            } else {
                WriteStage::OpenReplies
            },
            at: 0,
            ..self
        }
    }

    /// Where writing goes on behind the local addresses.
    pub open spec fn past_locals(self) -> WriteView {
        if self.desired.len() == 0 {
            self.past_routes()
        } else {
            WriteView { stage: WriteStage::PutRoute, at: 0, ..self }
        }
    }

    /// Where writing goes on once a list is done.
    pub open spec fn past_list(self) -> WriteView {
        match self.stage {
            WriteStage::DropReply => WriteView { stage: WriteStage::ListRoutes, at: 0, ..self },
            WriteStage::DropRoute => WriteView { stage: WriteStage::OpenLocals, at: 0, ..self },
            WriteStage::PutLocal => self.past_locals(),
            WriteStage::PutRoute => self.past_routes(),
            _ => WriteView { stage: WriteStage::Done, at: 0, ..self },
        }
    }

    /// Writing behind a step that passed.
    pub open spec fn passed(self) -> WriteView {
        if self.on_list() {
            if self.at + 1 == self.list_len() {
                self.past_list()
            } else {
                WriteView { at: self.at + 1, ..self }
            }
        } else if self.stage == WriteStage::OpenLocals {
            if self.locals.len() == 0 {
                self.past_locals()
            } else {
                WriteView { stage: WriteStage::PutLocal, at: 0, ..self }
            }
        } else if self.stage == WriteStage::OpenReplies {
            WriteView {
                stage: if self.leases.len() == 0 {
                    WriteStage::Done
                } else {
                    WriteStage::PutReply
                },
                at: 0,
                ..self
            }
        } else {
            self
        }
    }

    /// Writing behind a step. What does not answer the question changes nothing.
    pub open spec fn next(self, event: WriteEventView) -> WriteView {
        match event {
            WriteEventView::Failed { error } => if self.stage == WriteStage::Done || self.stage
                == WriteStage::Failed {
                self
            } else {
                WriteView { stage: WriteStage::Failed, error: Some(error), ..self }
            },
            WriteEventView::Passed => self.passed(),
            WriteEventView::Absent => if self.stage == WriteStage::ListReplies {
                WriteView { stage: WriteStage::ListRoutes, at: 0, ..self }
            } else {
                self
            },
            WriteEventView::Replies(keys) => if self.stage == WriteStage::ListReplies {
                WriteView {
                    stage: if keys.len() == 0 {
                        WriteStage::ListRoutes
                    } else {
                        WriteStage::DropReply
                    },
                    old_replies: keys,
                    at: 0,
                    ..self
                }
            } else {
                self
            },
            WriteEventView::Routes(keys) => if self.stage == WriteStage::ListRoutes {
                WriteView {
                    stage: if keys.len() == 0 {
                        WriteStage::OpenLocals
                    } else {
                        WriteStage::DropRoute
                    },
                    old_routes: keys,
                    at: 0,
                    ..self
                }
            } else {
                self
            },
        }
    }
}

impl CacheWrite {
    /// Writing that has not begun.
    pub fn new(desired: Vec<RouteEntry>, leases: Vec<LeaseEntry>, locals: Vec<u32>) -> (write: Self)
        ensures
            write@.wf(),
            write@ == first_write(desired@, leases@, locals@),
    {
        let write = CacheWrite {
            stage: WriteStage::ListReplies,
            locals,
            desired,
            leases,
            old_replies: Vec::new(),
            old_routes: Vec::new(),
            at: 0,
            error: None,
        };
        assert(write.old_replies@ =~= Seq::<ReturnLeaseKey>::empty());
        assert(write.old_routes@ =~= Seq::<NativeTargetKey>::empty());
        write
    }

    /// What writing asks for next.
    pub fn action(&self) -> (action: WriteAction)
        requires
            self@.wf(),
        ensures
            action == self@.asks(),
    {
        match self.stage {
            WriteStage::ListReplies => WriteAction::ListReplies,
            WriteStage::DropReply => WriteAction::DropReply(self.old_replies[self.at]),
            WriteStage::ListRoutes => WriteAction::ListRoutes,
            WriteStage::DropRoute => WriteAction::DropRoute(self.old_routes[self.at]),
            WriteStage::OpenLocals => WriteAction::OpenLocals,
            WriteStage::PutLocal => WriteAction::PutLocal(self.locals[self.at]),
            WriteStage::PutRoute => WriteAction::PutRoute(self.desired[self.at]),
            WriteStage::OpenReplies => WriteAction::OpenReplies,
            WriteStage::PutReply => WriteAction::PutReply(self.leases[self.at]),
            WriteStage::Done => WriteAction::Finished,
            WriteStage::Failed => WriteAction::Failed,
        }
    }

    fn enter(&mut self, stage: WriteStage)
        ensures
            final(self)@ == (WriteView { stage, at: 0, ..old(self)@ }),
    {
        self.stage = stage;
        self.at = 0;
    }

    fn leave_routes(&mut self)
        ensures
            final(self)@ == old(self)@.past_routes(),
    {
        if self.leases.len() == 0 {
            self.enter(WriteStage::Done);
        } else {
            self.enter(WriteStage::OpenReplies);
        }
    }

    fn leave_locals(&mut self)
        ensures
            final(self)@ == old(self)@.past_locals(),
    {
        if self.desired.len() == 0 {
            self.leave_routes();
        } else {
            self.enter(WriteStage::PutRoute);
        }
    }

    fn take_item(&mut self, count: usize)
        requires
            old(self)@.on_list(),
            old(self)@.at < count,
            count == old(self)@.list_len(),
        ensures
            final(self)@ == old(self)@.passed(),
    {
        if self.at + 1 < count {
            self.at = self.at + 1;
            return ;
        }
        match self.stage {
            WriteStage::DropReply => self.enter(WriteStage::ListRoutes),
            WriteStage::DropRoute => self.enter(WriteStage::OpenLocals),
            WriteStage::PutLocal => self.leave_locals(),
            WriteStage::PutRoute => self.leave_routes(),
            _ => self.enter(WriteStage::Done),
        }
    }

    fn take_pass(&mut self)
        requires
            old(self)@.wf(),
        ensures
            final(self)@ == old(self)@.passed(),
    {
        match self.stage {
            WriteStage::DropReply => self.take_item(self.old_replies.len()),
            WriteStage::DropRoute => self.take_item(self.old_routes.len()),
            WriteStage::PutLocal => self.take_item(self.locals.len()),
            WriteStage::PutRoute => self.take_item(self.desired.len()),
            WriteStage::PutReply => self.take_item(self.leases.len()),
            WriteStage::OpenLocals => {
                if self.locals.len() == 0 {
                    self.leave_locals();
                } else {
                    self.enter(WriteStage::PutLocal);
                }
            },
            WriteStage::OpenReplies => {
                if self.leases.len() == 0 {
                    self.enter(WriteStage::Done);
                } else {
                    self.enter(WriteStage::PutReply);
                }
            },
            _ => {},
        }
    }

    /// Goes on with what came of what was asked for. What does not answer the question
    /// changes nothing.
    pub fn advance(&mut self, event: WriteEvent)
        requires
            old(self)@.wf(),
        ensures
            final(self)@.wf(),
            final(self)@ == old(self)@.next(event@),
    {
        match event {
            WriteEvent::Failed { error } => {
                if self.stage != WriteStage::Done && self.stage != WriteStage::Failed {
                    self.stage = WriteStage::Failed;
                    self.error = Some(error);
                }
            },
            WriteEvent::Passed => self.take_pass(),
            WriteEvent::Absent => {
                if self.stage == WriteStage::ListReplies {
                    self.enter(WriteStage::ListRoutes);
                }
            },
            WriteEvent::Replies(keys) => {
                if self.stage == WriteStage::ListReplies {
                    let none = keys.len() == 0;
                    self.old_replies = keys;
                    if none {
                        self.enter(WriteStage::ListRoutes);
                    } else {
                        self.enter(WriteStage::DropReply);
                    }
                }
            },
            WriteEvent::Routes(keys) => {
                if self.stage == WriteStage::ListRoutes {
                    let none = keys.len() == 0;
                    self.old_routes = keys;
                    if none {
                        self.enter(WriteStage::OpenLocals);
                    } else {
                        self.enter(WriteStage::DropRoute);
                    }
                }
            },
        }
    }

    /// Whether the publication stands, once writing has ended.
    pub fn written(&self) -> (written: bool)
        ensures
            written == (self@.stage == WriteStage::Done),
    {
        self.stage == WriteStage::Done
    }
}

// ---------------------------------------------------------------------------
// Laws
// ---------------------------------------------------------------------------

/// What the maps hold.
#[verifier::ext_equal]
pub struct WriteModel {
    pub routes: Map<NativeTargetKey, NativeTargetRoute>,
    pub replies: Map<ReturnLeaseKey, ReturnLease>,
    pub locals: Set<u32>,
}

/// A map with entries put into it, in order.
pub open spec fn put_all<K, V>(map: Map<K, V>, entries: Seq<(K, V)>) -> Map<K, V>
    decreases entries.len(),
{
    if entries.len() == 0 {
        map
    } else {
        put_all(map, entries.drop_last()).insert(entries.last().0, entries.last().1)
    }
}

/// Whether what is said of the maps is true of them. Failures may come at any time.
pub open spec fn truthful(model: WriteModel, write: WriteView, event: WriteEventView) -> bool {
    match (write.stage, event) {
        (WriteStage::ListReplies, WriteEventView::Absent) => model.replies.dom()
            =~= Set::<ReturnLeaseKey>::empty(),
        (WriteStage::ListReplies, WriteEventView::Replies(keys)) => lists(
            keys,
            model.replies.dom(),
        ),
        (WriteStage::ListRoutes, WriteEventView::Routes(keys)) => lists(keys, model.routes.dom()),
        _ => true,
    }
}

/// The maps behind a step that passed: a key that was dropped is gone, an entry that was
/// put in is there, nothing else changes.
pub open spec fn step_model(
    model: WriteModel,
    write: WriteView,
    event: WriteEventView,
) -> WriteModel {
    match (write.asks(), event) {
        (WriteAction::DropReply(key), WriteEventView::Passed) => WriteModel {
            replies: model.replies.remove(key),
            ..model
        },
        (WriteAction::DropRoute(key), WriteEventView::Passed) => WriteModel {
            routes: model.routes.remove(key),
            ..model
        },
        (WriteAction::PutLocal(ip), WriteEventView::Passed) => WriteModel {
            locals: model.locals.insert(ip),
            ..model
        },
        (WriteAction::PutRoute(entry), WriteEventView::Passed) => WriteModel {
            routes: model.routes.insert(entry.0, entry.1),
            ..model
        },
        (WriteAction::PutReply(entry), WriteEventView::Passed) => WriteModel {
            replies: model.replies.insert(entry.0, entry.1),
            ..model
        },
        _ => model,
    }
}

/// Writing and the maps behind steps that are told truthfully; none where one is not.
pub open spec fn write_run(begun: WriteView, model: WriteModel, events: Seq<WriteEventView>) -> Option<
    (WriteView, WriteModel),
>
    decreases events.len(),
{
    if events.len() == 0 {
        Some((begun, model))
    } else {
        match write_run(begun, model, events.drop_last()) {
            None => None,
            Some((write, now)) => if truthful(now, write, events.last()) {
                Some((write.next(events.last()), step_model(now, write, events.last())))
            } else {
                None
            },
        }
    }
}

spec fn locals_kept(start: WriteModel, now: WriteModel, locals: Seq<u32>) -> bool {
    forall|ip: u32| #[trigger]
        now.locals.contains(ip) <==> start.locals.contains(ip) || locals.contains(ip)
}

spec fn no_replies(now: WriteModel) -> bool {
    now.replies.dom() =~= Set::<ReturnLeaseKey>::empty()
}

spec fn no_routes(now: WriteModel) -> bool {
    now.routes.dom() =~= Set::<NativeTargetKey>::empty()
}

spec fn write_holds(write: WriteView, start: WriteModel, now: WriteModel) -> bool {
    let at = write.at as int;
    match write.stage {
        WriteStage::ListReplies => now == start,
        WriteStage::DropReply => {
            &&& part_dropped(write.old_replies, write.at, start.replies.dom(), now.replies.dom())
            &&& write.at < write.old_replies.len()
            &&& now.routes == start.routes
            &&& now.locals == start.locals
        },
        WriteStage::ListRoutes => no_replies(now) && now.routes == start.routes && now.locals
            == start.locals,
        WriteStage::DropRoute => {
            &&& no_replies(now)
            &&& part_dropped(write.old_routes, write.at, start.routes.dom(), now.routes.dom())
            &&& write.at < write.old_routes.len()
            &&& now.locals == start.locals
        },
        WriteStage::OpenLocals => no_replies(now) && no_routes(now) && now.locals == start.locals,
        WriteStage::PutLocal => {
            &&& no_replies(now) && no_routes(now)
            &&& write.at < write.locals.len()
            &&& locals_kept(start, now, write.locals.take(at))
        },
        WriteStage::PutRoute => {
            &&& no_replies(now)
            &&& write.at < write.desired.len()
            &&& now.routes == put_all(
                Map::<NativeTargetKey, NativeTargetRoute>::empty(),
                write.desired.take(at),
            )
            &&& locals_kept(start, now, write.locals)
        },
        WriteStage::OpenReplies => {
            &&& no_replies(now)
            &&& now.routes == put_all(
                Map::<NativeTargetKey, NativeTargetRoute>::empty(),
                write.desired,
            )
            &&& locals_kept(start, now, write.locals)
        },
        WriteStage::PutReply => {
            &&& write.at < write.leases.len()
            &&& now.replies == put_all(
                Map::<ReturnLeaseKey, ReturnLease>::empty(),
                write.leases.take(at),
            )
            &&& now.routes == put_all(
                Map::<NativeTargetKey, NativeTargetRoute>::empty(),
                write.desired,
            )
            &&& locals_kept(start, now, write.locals)
        },
        WriteStage::Done => {
            &&& now.replies == put_all(Map::<ReturnLeaseKey, ReturnLease>::empty(), write.leases)
            &&& now.routes == put_all(
                Map::<NativeTargetKey, NativeTargetRoute>::empty(),
                write.desired,
            )
            &&& locals_kept(start, now, write.locals)
        },
        WriteStage::Failed => true,
    }
}

proof fn lemma_past_routes(write: WriteView, start: WriteModel, now: WriteModel)
    requires
        no_replies(now),
        now.routes == put_all(
            Map::<NativeTargetKey, NativeTargetRoute>::empty(),
            write.desired,
        ),
        locals_kept(start, now, write.locals),
    ensures
        write_holds(write.past_routes(), start, now),
{
    assert(now.replies =~= Map::<ReturnLeaseKey, ReturnLease>::empty());
}

proof fn lemma_past_locals(write: WriteView, start: WriteModel, now: WriteModel)
    requires
        no_replies(now),
        no_routes(now),
        locals_kept(start, now, write.locals),
    ensures
        write_holds(write.past_locals(), start, now),
{
    assert(now.routes =~= Map::<NativeTargetKey, NativeTargetRoute>::empty());
    if write.desired.len() == 0 {
        lemma_past_routes(write, start, now);
    } else {
        assert(write.desired.take(0).len() == 0);
    }
}

proof fn lemma_put_one<K, V>(map: Map<K, V>, entries: Seq<(K, V)>, at: int)
    requires
        0 <= at < entries.len(),
    ensures
        put_all(map, entries.take(at + 1)) == put_all(map, entries.take(at)).insert(
            entries[at].0,
            entries[at].1,
        ),
        at + 1 == entries.len() ==> entries.take(at + 1) == entries,
{
    assert(entries.take(at + 1).drop_last() =~= entries.take(at));
    assert(entries.take(at + 1).last() == entries[at]);
    if at + 1 == entries.len() {
        assert(entries.take(at + 1) =~= entries);
    }
}

proof fn lemma_local_one(start: WriteModel, now: WriteModel, locals: Seq<u32>, at: int)
    requires
        0 <= at < locals.len(),
        locals_kept(start, now, locals.take(at)),
    ensures
        locals_kept(
            start,
            (WriteModel { locals: now.locals.insert(locals[at]), ..now }),
            locals.take(at + 1),
        ),
        at + 1 == locals.len() ==> locals.take(at + 1) == locals,
{
    let less = locals.take(at);
    let more = locals.take(at + 1);
    assert(more =~= less.push(locals[at]));
    assert forall|ip: u32| more.contains(ip) <==> less.contains(ip) || ip == locals[at] by {
        if less.contains(ip) {
            let i = less.index_of(ip);
            assert(more[i] == ip);
        }
        assert(more[at] == locals[at]);
        if more.contains(ip) && ip != locals[at] {
            let i = more.index_of(ip);
            assert(less[i] == ip);
        }
    }
    if at + 1 == locals.len() {
        assert(more =~= locals);
    }
}

proof fn lemma_write_pass(write: WriteView, start: WriteModel, now: WriteModel)
    requires
        write_holds(write, start, now),
    ensures
        write_holds(write.passed(), start, step_model(now, write, WriteEventView::Passed)),
{
    let at = write.at as int;
    let then = step_model(now, write, WriteEventView::Passed);
    match write.stage {
        WriteStage::DropReply => {
            lemma_drop_one(write.old_replies, write.at, start.replies.dom(), now.replies.dom());
            assert(then.replies.dom() =~= now.replies.dom().remove(write.old_replies[at]));
        },
        WriteStage::DropRoute => {
            lemma_drop_one(write.old_routes, write.at, start.routes.dom(), now.routes.dom());
            assert(then.routes.dom() =~= now.routes.dom().remove(write.old_routes[at]));
        },
        WriteStage::OpenLocals => {
            if write.locals.len() == 0 {
                assert(locals_kept(start, now, write.locals));
                lemma_past_locals(write, start, now);
            } else {
                assert(write.locals.take(0).len() == 0);
            }
        },
        WriteStage::PutLocal => {
            lemma_local_one(start, now, write.locals, at);
            if at + 1 == write.locals.len() {
                lemma_past_locals(write, start, then);
            }
        },
        WriteStage::PutRoute => {
            lemma_put_one(
                Map::<NativeTargetKey, NativeTargetRoute>::empty(),
                write.desired,
                at,
            );
            assert(locals_kept(start, then, write.locals));
            if at + 1 == write.desired.len() {
                lemma_past_routes(write, start, then);
            }
        },
        WriteStage::OpenReplies => {
            assert(now.replies =~= Map::<ReturnLeaseKey, ReturnLease>::empty());
            assert(write.leases.take(0).len() == 0);
        },
        WriteStage::PutReply => {
            lemma_put_one(Map::<ReturnLeaseKey, ReturnLease>::empty(), write.leases, at);
            assert(locals_kept(start, then, write.locals));
        },
        _ => {},
    }
}

proof fn lemma_write_step(
    write: WriteView,
    start: WriteModel,
    now: WriteModel,
    event: WriteEventView,
)
    requires
        write_holds(write, start, now),
        truthful(now, write, event),
    ensures
        write_holds(write.next(event), start, step_model(now, write, event)),
{
    match event {
        WriteEventView::Passed => lemma_write_pass(write, start, now),
        WriteEventView::Replies(keys) => {
            if write.stage == WriteStage::ListReplies {
                lemma_listed(keys, now.replies.dom());
            }
        },
        WriteEventView::Routes(keys) => {
            if write.stage == WriteStage::ListRoutes {
                lemma_listed(keys, now.routes.dom());
            }
        },
        _ => {},
    }
}

proof fn lemma_write_run(begun: WriteView, start: WriteModel, events: Seq<WriteEventView>)
    requires
        begun.stage == WriteStage::ListReplies,
    ensures
        write_run(begun, start, events) matches Some((write, now)) ==> write_holds(
            write,
            start,
            now,
        ) && write.desired == begun.desired && write.leases == begun.leases && write.locals
            == begun.locals,
    decreases events.len(),
{
    if events.len() > 0 {
        lemma_write_run(begun, start, events.drop_last());
        if let Some((write, now)) = write_run(begun, start, events.drop_last()) {
            if truthful(now, write, events.last()) {
                lemma_write_step(write, start, now, events.last());
            }
        }
    }
}

/// A publication that was written leaves exactly what was planned, in both directions,
/// whatever was there before; local addresses that were known stay known. This holds of
/// every way in which the steps can go, as long as no one else writes the maps meanwhile.
pub proof fn law_cache_holds_what_was_published(
    desired: Seq<RouteEntry>,
    leases: Seq<LeaseEntry>,
    locals: Seq<u32>,
    start: WriteModel,
    events: Seq<WriteEventView>,
    ip: u32,
)
    ensures
        match write_run(first_write(desired, leases, locals), start, events) {
            Some((write, now)) if write.stage == WriteStage::Done => {
                &&& now.routes == put_all(
                    Map::<NativeTargetKey, NativeTargetRoute>::empty(),
                    desired,
                )
                &&& now.replies == put_all(Map::<ReturnLeaseKey, ReturnLease>::empty(), leases)
                &&& now.locals.contains(ip) <==> start.locals.contains(ip) || locals.contains(ip)
            },
            _ => true,
        },
{
    lemma_write_run(first_write(desired, leases, locals), start, events);
}

/// The first step that fails ends writing, and a publication that failed is never taken
/// for one that stands.
pub proof fn law_failed_write_ends(write: WriteView, error: Seq<char>, event: WriteEventView)
    requires
        write.stage != WriteStage::Done,
        write.stage != WriteStage::Failed,
    ensures
        ({
            let failed = write.next(WriteEventView::Failed { error });
            &&& failed.stage == WriteStage::Failed
            &&& failed.error == Some(error)
            &&& failed.next(event) == failed
        }),
{
}

/// Writing goes on with every step that passes: old replies and then old routes are dropped
/// one by one, then the local addresses, the routes and the replies that were planned are
/// put in one by one.
pub proof fn law_writing_goes_on(
    write: WriteView,
    replies: Seq<ReturnLeaseKey>,
    routes: Seq<NativeTargetKey>,
)
    requires
        write.wf(),
    ensures
        ({
            let at = write.at as int;
            let next = write.next(WriteEventView::Passed).asks();
            &&& write.stage == WriteStage::ListReplies && replies.len() > 0 ==> write.next(
                WriteEventView::Replies(replies),
            ).asks() == WriteAction::DropReply(replies[0])
            &&& write.stage == WriteStage::ListReplies && replies.len() == 0 ==> write.next(
                WriteEventView::Replies(replies),
            ).asks() == WriteAction::ListRoutes
            &&& write.stage == WriteStage::ListReplies ==> write.next(
                WriteEventView::Absent,
            ).asks() == WriteAction::ListRoutes
            &&& write.stage == WriteStage::DropReply && at + 1 < write.old_replies.len() ==> next
                == WriteAction::DropReply(write.old_replies[at + 1])
            &&& write.stage == WriteStage::DropReply && at + 1 == write.old_replies.len() ==> next
                == WriteAction::ListRoutes
            &&& write.stage == WriteStage::ListRoutes && routes.len() > 0 ==> write.next(
                WriteEventView::Routes(routes),
            ).asks() == WriteAction::DropRoute(routes[0])
            &&& write.stage == WriteStage::ListRoutes && routes.len() == 0 ==> write.next(
                WriteEventView::Routes(routes),
            ).asks() == WriteAction::OpenLocals
            &&& write.stage == WriteStage::DropRoute && at + 1 < write.old_routes.len() ==> next
                == WriteAction::DropRoute(write.old_routes[at + 1])
            &&& write.stage == WriteStage::DropRoute && at + 1 == write.old_routes.len() ==> next
                == WriteAction::OpenLocals
            &&& write.stage == WriteStage::OpenLocals && write.locals.len() > 0 ==> next
                == WriteAction::PutLocal(write.locals[0])
            &&& write.stage == WriteStage::PutLocal && at + 1 < write.locals.len() ==> next
                == WriteAction::PutLocal(write.locals[at + 1])
            &&& write.stage == WriteStage::PutLocal && at + 1 == write.locals.len()
                && write.desired.len() > 0 ==> next == WriteAction::PutRoute(write.desired[0])
            &&& write.stage == WriteStage::PutRoute && at + 1 < write.desired.len() ==> next
                == WriteAction::PutRoute(write.desired[at + 1])
            &&& write.stage == WriteStage::PutRoute && at + 1 == write.desired.len()
                && write.leases.len() > 0 ==> next == WriteAction::OpenReplies
            &&& write.stage == WriteStage::PutRoute && at + 1 == write.desired.len()
                && write.leases.len() == 0 ==> next == WriteAction::Finished
            &&& write.stage == WriteStage::OpenReplies && write.leases.len() > 0 ==> next
                == WriteAction::PutReply(write.leases[0])
            &&& write.stage == WriteStage::PutReply && at + 1 < write.leases.len() ==> next
                == WriteAction::PutReply(write.leases[at + 1])
            &&& write.stage == WriteStage::PutReply && at + 1 == write.leases.len() ==> next
                == WriteAction::Finished
            &&& write.stage == WriteStage::OpenLocals && write.locals.len() == 0
                && write.desired.len() == 0 && write.leases.len() == 0 ==> next
                == WriteAction::Finished
        }),
{
}

} // verus!
