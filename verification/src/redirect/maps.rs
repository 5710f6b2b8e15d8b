//! Who may write the redirect cache, and when. Business changes, invalidation
//! and publication share one revision: a publication planned under an older
//! revision never reaches the cache.
use crate::redirect::error::RedirectError;
use crate::redirect::planner::{NativeTargetKey, TargetCandidate};
use crate::redirect::reconcile::{LeaseEntry, RouteEntry};
use crate::redirect::return_planner::ReturnLeaseKey;
use crate::text::opt_text;
use vstd::prelude::*;

verus! {

/// The one writer of the cache. While it is held, no one else has a turn.
#[derive(Debug)]
pub struct CacheWriter {
    revision: u64,
    held: bool,
}

/// Whether it is one's turn to use the writer.
#[derive(Debug)]
pub enum Turn<T> {
    /// The writer is held: nothing was done, ask again when it is free.
    Wait,
    Go(T),
}

/// Held across a business change: both directions of the cache were cleared, and the
/// writer stays held until the change ends.
#[derive(Debug, PartialEq, Eq, Structural)]
pub struct MutationGuard {
    revision: u64,
}

/// What a publication was planned under.
#[derive(Clone, Copy, Debug, PartialEq, Eq, Structural)]
pub struct SnapshotToken {
    revision: u64,
    map_id: u32,
    return_map_id: Option<u32>,
}

impl CacheWriter {
    pub closed spec fn revision(self) -> u64 {
        self.revision
    }

    pub closed spec fn held(self) -> bool {
        self.held
    }

    /// A writer that nothing was planned under yet.
    pub fn new() -> (writer: Self)
        ensures
            writer.revision() == 0,
            !writer.held(),
    {
        CacheWriter { revision: 0, held: false }
    }

    fn advance(&mut self) -> (done: Result<(), RedirectError>)
        ensures
            final(self).held() == old(self).held(),
            match done {
                Ok(()) => final(self).revision() == old(self).revision() + 1,
                Err(error) => error == RedirectError::RevisionExhausted && old(self).revision()
                    == u64::MAX && final(self).revision() == old(self).revision(),
            },
    {
        match self.revision.checked_add(1) {
            Some(revision) => {
                self.revision = revision;
                Ok(())
            },
            None => Err(RedirectError::RevisionExhausted),
        }
    }

    /// Takes the writer to clear the cache under the next revision.
    fn take_to_clear(&mut self) -> (turn: Turn<Result<CacheClear, RedirectError>>)
        ensures
            begins_clearing(*old(self), *final(self), turn),
    {
        if self.held {
            return Turn::Wait;
        }
        match self.advance() {
            Ok(()) => {
                self.held = true;
                Turn::Go(Ok(CacheClear::new()))
            },
            Err(error) => Turn::Go(Err(error)),
        }
    }
}

/// Whether a writer was taken to clear the cache: not where it is held, and not where the
/// revisions are used up; nothing changes then.
pub open spec fn begins_clearing(
    before: CacheWriter,
    after: CacheWriter,
    turn: Turn<Result<CacheClear, RedirectError>>,
) -> bool {
    if before.held() {
        turn is Wait && after == before
    } else if before.revision() == u64::MAX {
        turn == Turn::Go(Err::<CacheClear, RedirectError>(RedirectError::RevisionExhausted))
            && after == before
    } else {
        &&& turn matches Turn::Go(Ok(clear)) && clear@ == first_clear()
        &&& after.held()
        &&& after.revision() == before.revision() + 1
    }
}

impl MutationGuard {
    pub closed spec fn revision(self) -> u64 {
        self.revision
    }
}

impl SnapshotToken {
    pub closed spec fn revision(self) -> u64 {
        self.revision
    }

    pub closed spec fn map_id(self) -> u32 {
        self.map_id
    }

    pub closed spec fn return_map_id(self) -> Option<u32> {
        self.return_map_id
    }
}

// ---------------------------------------------------------------------------
// Clearing the cache
// ---------------------------------------------------------------------------

/// Where clearing both directions stands.
#[derive(Clone, Copy, Debug, PartialEq, Eq, Structural)]
pub enum ClearStage {
    ListReplies,
    DropReply,
    ListRoutes,
    DropRoute,
    Done,
}

/// What clearing asks for next.
#[derive(Clone, Copy, Debug, PartialEq, Eq, Structural)]
pub enum ClearAction {
    ListReplies,
    DropReply(ReturnLeaseKey),
    ListRoutes,
    DropRoute(NativeTargetKey),
    Finished,
}

/// What came of it.
#[derive(Debug)]
pub enum ClearEvent {
    /// There is no such map.
    Absent,
    Replies(Vec<ReturnLeaseKey>),
    Routes(Vec<NativeTargetKey>),
    Dropped,
    Failed { error: String },
}

/// What came of it, as plain values.
pub enum ClearEventView {
    Absent,
    Replies(Seq<ReturnLeaseKey>),
    Routes(Seq<NativeTargetKey>),
    Dropped,
    Failed { error: Seq<char> },
}

impl View for ClearEvent {
    type V = ClearEventView;

    open spec fn view(&self) -> ClearEventView {
        match *self {
            ClearEvent::Absent => ClearEventView::Absent,
            ClearEvent::Replies(keys) => ClearEventView::Replies(keys@),
            ClearEvent::Routes(keys) => ClearEventView::Routes(keys@),
            ClearEvent::Dropped => ClearEventView::Dropped,
            ClearEvent::Failed { error } => ClearEventView::Failed { error: error@ },
        }
    }
}

/// Clears both directions of the cache. The keys are listed before any is dropped. Both
/// directions are tried even if one fails.
#[derive(Debug)]
pub struct CacheClear {
    pub stage: ClearStage,
    pub replies: Vec<ReturnLeaseKey>,
    pub routes: Vec<NativeTargetKey>,
    /// How many of the keys that are being dropped are gone.
    pub dropped: usize,
    pub reply_error: Option<String>,
    pub route_error: Option<String>,
}

/// Clearing, as plain values.
pub struct ClearView {
    pub stage: ClearStage,
    pub replies: Seq<ReturnLeaseKey>,
    pub routes: Seq<NativeTargetKey>,
    pub dropped: nat,
    pub reply_error: Option<Seq<char>>,
    pub route_error: Option<Seq<char>>,
}

impl View for CacheClear {
    type V = ClearView;

    open spec fn view(&self) -> ClearView {
        ClearView {
            stage: self.stage,
            replies: self.replies@,
            routes: self.routes@,
            dropped: self.dropped as nat,
            reply_error: opt_text(self.reply_error),
            route_error: opt_text(self.route_error),
        }
    }
}

/// Clearing that has not begun.
pub open spec fn first_clear() -> ClearView {
    ClearView {
        stage: ClearStage::ListReplies,
        replies: Seq::empty(),
        routes: Seq::empty(),
        dropped: 0,
        reply_error: None,
        route_error: None,
    }
}

impl ClearView {
    /// Whether there is a key to drop where one is asked for.
    pub open spec fn wf(self) -> bool {
        &&& self.stage == ClearStage::DropReply ==> self.dropped < self.replies.len()
        &&& self.stage == ClearStage::DropRoute ==> self.dropped < self.routes.len()
    }

    /// What clearing asks for next.
    pub open spec fn asks(self) -> ClearAction {
        match self.stage {
            ClearStage::ListReplies => ClearAction::ListReplies,
            ClearStage::DropReply => ClearAction::DropReply(self.replies[self.dropped as int]),
            ClearStage::ListRoutes => ClearAction::ListRoutes,
            ClearStage::DropRoute => ClearAction::DropRoute(self.routes[self.dropped as int]),
            ClearStage::Done => ClearAction::Finished,
        }
    }

    /// Clearing behind a step. What does not answer the question changes nothing.
    pub open spec fn next(self, event: ClearEventView) -> ClearView {
        match (self.stage, event) {
            (ClearStage::ListReplies, ClearEventView::Absent) => ClearView {
                stage: ClearStage::ListRoutes,
                ..self
            },
            (ClearStage::ListReplies, ClearEventView::Replies(keys)) => ClearView {
                stage: if keys.len() == 0 {
                    ClearStage::ListRoutes
                } else {
                    ClearStage::DropReply
                },
                replies: keys,
                dropped: 0,
                ..self
            },
            (ClearStage::DropReply, ClearEventView::Dropped) => ClearView {
                stage: if self.dropped + 1 == self.replies.len() {
                    ClearStage::ListRoutes
                } else {
                    ClearStage::DropReply
                },
                dropped: self.dropped + 1,
                ..self
            },
            (ClearStage::ListReplies, ClearEventView::Failed { error }) => ClearView {
                stage: ClearStage::ListRoutes,
                reply_error: Some(error),
                ..self
            },
            (ClearStage::DropReply, ClearEventView::Failed { error }) => ClearView {
                stage: ClearStage::ListRoutes,
                reply_error: Some(error),
                ..self
            },
            (ClearStage::ListRoutes, ClearEventView::Absent) => ClearView {
                stage: ClearStage::Done,
                ..self
            },
            (ClearStage::ListRoutes, ClearEventView::Routes(keys)) => ClearView {
                stage: if keys.len() == 0 {
                    ClearStage::Done
                } else {
                    ClearStage::DropRoute
                },
                routes: keys,
                dropped: 0,
                ..self
            },
            (ClearStage::DropRoute, ClearEventView::Dropped) => ClearView {
                stage: if self.dropped + 1 == self.routes.len() {
                    ClearStage::Done
                } else {
                    ClearStage::DropRoute
                },
                dropped: self.dropped + 1,
                ..self
            },
            (ClearStage::ListRoutes, ClearEventView::Failed { error }) => ClearView {
                stage: ClearStage::Done,
                route_error: Some(error),
                ..self
            },
            (ClearStage::DropRoute, ClearEventView::Failed { error }) => ClearView {
                stage: ClearStage::Done,
                route_error: Some(error),
                ..self
            },
            _ => self,
        }
    }

    /// What clearing came to: how many entries there were, or what failed. The failure of
    /// the return direction is told first.
    pub open spec fn outcome(self) -> Result<nat, Seq<char>> {
        match (self.reply_error, self.route_error) {
            (Some(error), _) => Err(error),
            (None, Some(error)) => Err(error),
            (None, None) => Ok(self.replies.len() + self.routes.len()),
        }
    }
}

/// What clearing both directions came to. The failure of the return direction is told
/// first.
pub fn cleared<E>(replies: Result<usize, E>, routes: Result<usize, E>) -> (total: Result<usize, E>)
    requires
        replies is Ok && routes is Ok ==> replies->Ok_0 + routes->Ok_0 <= usize::MAX,
    ensures
        match (replies, routes) {
            (Err(error), _) => total == Err::<usize, E>(error),
            (Ok(_), Err(error)) => total == Err::<usize, E>(error),
            (Ok(a), Ok(b)) => total == Ok::<usize, E>((a + b) as usize),
        },
{
    match replies {
        Err(error) => Err(error),
        Ok(a) => match routes {
            Err(error) => Err(error),
            Ok(b) => Ok(a + b),
        },
    }
}

fn outcome_of(count: usize, error: &Option<String>) -> (outcome: Result<usize, String>)
    ensures
        match *error {
            Some(error) => outcome == Err::<usize, String>(error),
            None => outcome == Ok::<usize, String>(count),
        },
{
    match error {
        Some(error) => Err(error.clone()),
        None => Ok(count),
    }
}

impl CacheClear {
    /// Clearing that has not begun.
    pub fn new() -> (clear: Self)
        ensures
            clear@ == first_clear(),
    {
        let clear = CacheClear {
            stage: ClearStage::ListReplies,
            replies: Vec::new(),
            routes: Vec::new(),
            dropped: 0,
            reply_error: None,
            route_error: None,
        };
        assert(clear.replies@ =~= Seq::<ReturnLeaseKey>::empty());
        assert(clear.routes@ =~= Seq::<NativeTargetKey>::empty());
        clear
    }

    /// What clearing asks for next.
    pub fn action(&self) -> (action: ClearAction)
        requires
            self@.wf(),
        ensures
            action == self@.asks(),
    {
        match self.stage {
            ClearStage::ListReplies => ClearAction::ListReplies,
            ClearStage::DropReply => ClearAction::DropReply(self.replies[self.dropped]),
            ClearStage::ListRoutes => ClearAction::ListRoutes,
            ClearStage::DropRoute => ClearAction::DropRoute(self.routes[self.dropped]),
            ClearStage::Done => ClearAction::Finished,
        }
    }

    /// Goes on with what came of what was asked for. What does not answer the question
    /// changes nothing.
    pub fn advance(&mut self, event: ClearEvent)
        requires
            old(self)@.wf(),
        ensures
            final(self)@.wf(),
            final(self)@ == old(self)@.next(event@),
    {
        match (self.stage, event) {
            (ClearStage::ListReplies, ClearEvent::Absent) => {
                self.stage = ClearStage::ListRoutes;
            },
            (ClearStage::ListReplies, ClearEvent::Replies(keys)) => {
                self.stage = if keys.len() == 0 {
                    ClearStage::ListRoutes
                } else {
                    ClearStage::DropReply
                };
                self.replies = keys;
                self.dropped = 0;
            },
            (ClearStage::DropReply, ClearEvent::Dropped) => {
                let count: usize = self.replies.len();
                self.dropped = self.dropped + 1;
                self.stage = if self.dropped == count {
                    ClearStage::ListRoutes
                } else {
                    ClearStage::DropReply
                };
            },
            (ClearStage::ListReplies, ClearEvent::Failed { error }) => {
                self.reply_error = Some(error);
                self.stage = ClearStage::ListRoutes;
            },
            (ClearStage::DropReply, ClearEvent::Failed { error }) => {
                self.reply_error = Some(error);
                self.stage = ClearStage::ListRoutes;
            },
            (ClearStage::ListRoutes, ClearEvent::Absent) => {
                self.stage = ClearStage::Done;
            },
            (ClearStage::ListRoutes, ClearEvent::Routes(keys)) => {
                self.stage = if keys.len() == 0 {
                    ClearStage::Done
                } else {
                    ClearStage::DropRoute
                };
                self.routes = keys;
                self.dropped = 0;
            },
            (ClearStage::DropRoute, ClearEvent::Dropped) => {
                let count: usize = self.routes.len();
                self.dropped = self.dropped + 1;
                self.stage = if self.dropped == count {
                    ClearStage::Done
                } else {
                    ClearStage::DropRoute
                };
            },
            (ClearStage::ListRoutes, ClearEvent::Failed { error }) => {
                self.route_error = Some(error);
                self.stage = ClearStage::Done;
            },
            (ClearStage::DropRoute, ClearEvent::Failed { error }) => {
                self.route_error = Some(error);
                self.stage = ClearStage::Done;
            },
            _ => {},
        }
    }

    /// What clearing came to.
    pub fn result(&self) -> (total: Result<usize, String>)
        requires
            self.replies@.len() + self.routes@.len() <= usize::MAX,
        ensures
            match (total, self@.outcome()) {
                (Ok(count), Ok(wanted)) => count == wanted,
                (Err(error), Err(wanted)) => error@ == wanted,
                _ => false,
            },
    {
        cleared(
            outcome_of(self.replies.len(), &self.reply_error),
            outcome_of(self.routes.len(), &self.route_error),
        )
    }
}

// ---------------------------------------------------------------------------
// Business changes and invalidation
// ---------------------------------------------------------------------------

/// Begins a business change: the revision advances, which voids every token, and the
/// cache is to be cleared while the writer is held.
pub fn begin_mutation(writer: &mut CacheWriter) -> (turn: Turn<Result<CacheClear, RedirectError>>)
    ensures
        begins_clearing(*old(writer), *final(writer), turn),
{
    writer.take_to_clear()
}

/// Why a writer was given back.
#[derive(Debug)]
pub enum ClearFault {
    /// Clearing has not ended.
    Unfinished,
    Failed(String),
}

/// Ends the clearing with which a business change begins. Only where both directions were
/// cleared is there a guard, and the writer stays held; otherwise it is given back.
pub fn hold_mutation(writer: &mut CacheWriter, clear: &CacheClear) -> (guard: Result<
    MutationGuard,
    ClearFault,
>)
    requires
        old(writer).held(),
    ensures
        final(writer).revision() == old(writer).revision(),
        match guard {
            Ok(guard) => clear@.stage == ClearStage::Done && clear@.outcome() is Ok && final(writer).held() && guard.revision() == final(writer).revision(),
            Err(ClearFault::Unfinished) => clear@.stage != ClearStage::Done && !final(writer).held(),
            Err(ClearFault::Failed(error)) => clear@.stage == ClearStage::Done && clear@.outcome()
                == Err::<nat, Seq<char>>(error@) && !final(writer).held(),
        },
{
    if clear.stage != ClearStage::Done {
        writer.held = false;
        return Err(ClearFault::Unfinished);
    }
    if let Some(error) = &clear.reply_error {
        writer.held = false;
        return Err(ClearFault::Failed(error.clone()));
    }
    if let Some(error) = &clear.route_error {
        writer.held = false;
        return Err(ClearFault::Failed(error.clone()));
    }
    Ok(MutationGuard { revision: writer.revision })
}

/// Ends a business change: the guard is given up, and the writer is free again.
pub fn end_mutation(writer: &mut CacheWriter, guard: MutationGuard)
    ensures
        final(writer).revision() == old(writer).revision(),
        !final(writer).held(),
{
    writer.held = false;
}

/// Withdraws everything: the revision advances, and the cache is to be cleared while the
/// writer is held.
pub fn invalidate_routes(writer: &mut CacheWriter) -> (turn: Turn<
    Result<CacheClear, RedirectError>,
>)
    ensures
        begins_clearing(*old(writer), *final(writer), turn),
{
    writer.take_to_clear()
}

/// Ends an invalidation: the writer is free again, and the result is what clearing came
/// to.
pub fn finish_invalidation(writer: &mut CacheWriter, clear: &CacheClear) -> (total: Result<
    usize,
    String,
>)
    requires
        clear.replies@.len() + clear.routes@.len() <= usize::MAX,
    ensures
        final(writer).revision() == old(writer).revision(),
        !final(writer).held(),
        match (total, clear@.outcome()) {
            (Ok(count), Ok(wanted)) => count == wanted,
            (Err(error), Err(wanted)) => error@ == wanted,
            _ => false,
        },
{
    writer.held = false;
    clear.result()
}

// ---------------------------------------------------------------------------
// Snapshots
// ---------------------------------------------------------------------------

/// A listener as the datapath knows it.
#[derive(Clone, Copy, Debug, PartialEq, Eq, Structural)]
pub struct ListenerRecord {
    pub listener_id: u32,
    pub dscp: u32,
}

/// A target as the datapath knows it.
#[derive(Clone, Copy, Debug, PartialEq, Eq, Structural)]
pub struct TargetRecord {
    pub key: NativeTargetKey,
    pub address: u32,
    pub port: u16,
    pub weight: u32,
    pub healthy: bool,
}

/// Takes the token of the cache as it stands.
pub fn snapshot(writer: &CacheWriter, map_id: u32, return_map_id: Option<u32>) -> (turn: Turn<
    SnapshotToken,
>)
    ensures
        match turn {
            Turn::Wait => writer.held(),
            Turn::Go(token) => {
                &&& !writer.held()
                &&& token.revision() == writer.revision()
                &&& token.map_id() == map_id
                &&& token.return_map_id() == return_map_id
            },
        },
{
    if writer.held {
        return Turn::Wait;
    }
    Turn::Go(SnapshotToken { revision: writer.revision, map_id, return_map_id })
}

/// Whether two listeners of one identity differ in their codepoint.
pub open spec fn conflicting(listeners: Seq<ListenerRecord>) -> bool {
    exists|i: int, j: int|
        0 <= i < j < listeners.len() && (#[trigger] listeners[i]).listener_id == (
        #[trigger] listeners[j]).listener_id && listeners[i].dscp != listeners[j].dscp
}

/// The codepoint of a listener.
pub open spec fn dscp_of(listeners: Seq<ListenerRecord>, listener_id: u32) -> Option<u32>
    decreases listeners.len(),
{
    if listeners.len() == 0 {
        None
    } else if listeners[0].listener_id == listener_id {
        Some(listeners[0].dscp)
    } else {
        dscp_of(listeners.skip(1), listener_id)
    }
}

/// Whether a target may get a lease: healthy, with a weight, of a known listener.
pub open spec fn eligible(listeners: Seq<ListenerRecord>, target: TargetRecord) -> bool {
    target.healthy && target.weight > 0 && dscp_of(listeners, target.key.listener_id) is Some
}

/// The candidates among targets, in their order.
pub open spec fn candidate_list(
    listeners: Seq<ListenerRecord>,
    targets: Seq<TargetRecord>,
) -> Seq<TargetCandidate>
    decreases targets.len(),
{
    if targets.len() == 0 {
        Seq::empty()
    } else {
        let before = candidate_list(listeners, targets.drop_last());
        let target = targets.last();
        if eligible(listeners, target) {
            before.push(
                TargetCandidate {
                    key: target.key,
                    target: target.address,
                    port: target.port,
                    dscp: dscp_of(listeners, target.key.listener_id)->0 as u8,
                },
            )
        } else {
            before
        }
    }
}

/// Whether an eligible target's codepoint does not fit a byte.
pub open spec fn oversized(listeners: Seq<ListenerRecord>, target: TargetRecord) -> bool {
    eligible(listeners, target) && dscp_of(listeners, target.key.listener_id)->0 > 255
}

fn find_dscp(listeners: &[ListenerRecord], listener_id: u32) -> (dscp: Option<u32>)
    ensures
        dscp == dscp_of(listeners@, listener_id),
{
    let mut i: usize = 0;
    assert(listeners@.skip(0) =~= listeners@);
    while i < listeners.len()
        invariant
            i <= listeners.len(),
            dscp_of(listeners@, listener_id) == dscp_of(listeners@.skip(i as int), listener_id),
        decreases listeners.len() - i,
    {
        assert(listeners@.skip(i as int).skip(1) =~= listeners@.skip(i + 1));
        if listeners[i].listener_id == listener_id {
            return Some(listeners[i].dscp);
        }
        i += 1;
    }
    None
}

fn has_conflict(listeners: &[ListenerRecord]) -> (b: bool)
    ensures
        b == conflicting(listeners@),
{
    let mut i: usize = 0;
    while i < listeners.len()
        invariant
            i <= listeners.len(),
            forall|p: int, q: int|
                0 <= p < q < listeners.len() && p < i && (
                #[trigger] listeners@[p]).listener_id == (#[trigger] listeners@[q]).listener_id
                    ==> listeners@[p].dscp == listeners@[q].dscp,
        decreases listeners.len() - i,
    {
        let mut j: usize = i + 1;
        while j < listeners.len()
            invariant
                i < j <= listeners.len(),
                forall|p: int, q: int|
                    0 <= p < q < listeners.len() && (p < i || (p == i && q < j)) && (
                    #[trigger] listeners@[p]).listener_id == (
                    #[trigger] listeners@[q]).listener_id ==> listeners@[p].dscp
                        == listeners@[q].dscp,
            decreases listeners.len() - j,
        {
            if listeners[i].listener_id == listeners[j].listener_id && listeners[i].dscp
                != listeners[j].dscp {
                assert(listeners@[i as int].listener_id == listeners@[j as int].listener_id);
                return true;
            }
            j += 1;
        }
        i += 1;
    }
    false
}

/// Collects the targets that may get a lease.
pub fn candidates(listeners: &[ListenerRecord], targets: &[TargetRecord]) -> (list: Result<
    Vec<TargetCandidate>,
    RedirectError,
>)
    ensures
        match list {
            Err(RedirectError::ConflictingDscp) => conflicting(listeners@),
            Err(RedirectError::IntegerRange) => !conflicting(listeners@) && exists|i: int|
                0 <= i < targets.len() && oversized(listeners@, #[trigger] targets@[i]),
            Err(_) => false,
            Ok(list) => !conflicting(listeners@) && list@ == candidate_list(listeners@, targets@)
                && forall|i: int|
                0 <= i < targets.len() ==> !oversized(listeners@, #[trigger] targets@[i]),
        },
{
    if has_conflict(listeners) {
        return Err(RedirectError::ConflictingDscp);
    }
    let mut list: Vec<TargetCandidate> = Vec::new();
    let mut i: usize = 0;
    while i < targets.len()
        invariant
            i <= targets.len(),
            !conflicting(listeners@),
            list@ == candidate_list(listeners@, targets@.take(i as int)),
            forall|j: int| 0 <= j < i ==> !oversized(listeners@, #[trigger] targets@[j]),
        decreases targets.len() - i,
    {
        let target = targets[i];
        assert(targets@.take(i + 1).drop_last() =~= targets@.take(i as int));
        if target.healthy && target.weight > 0 {
            if let Some(dscp) = find_dscp(listeners, target.key.listener_id) {
                if dscp > 255 {
                    assert(oversized(listeners@, targets@[i as int]));
                    return Err(RedirectError::IntegerRange);
                }
                list.push(
                    TargetCandidate {
                        key: target.key,
                        target: target.address,
                        port: target.port,
                        dscp: dscp as u8,
                    },
                );
            }
        }
        i += 1;
    }
    assert(targets@.take(targets@.len() as int) =~= targets@);
    Ok(list)
}

// ---------------------------------------------------------------------------
// Publication
// ---------------------------------------------------------------------------

/// What to do with a planned publication.
#[derive(Debug)]
pub enum Publication {
    /// The plan was overtaken; the cache is left alone.
    Overtaken,
    /// A lease has ended already: clear both directions, then end it as an invalidation.
    Expired(CacheClear),
    /// Write the plan, as `CacheWrite` says, then call `finish_publication`.
    Write,
}

/// Whether a token still names the cache that it was taken of.
pub open spec fn token_current(
    writer: CacheWriter,
    token: SnapshotToken,
    map_id: u32,
    return_map_id: Option<u32>,
) -> bool {
    writer.revision() == token.revision() && token.map_id() == map_id && token.return_map_id()
        == return_map_id
}

/// Whether any lease has ended.
pub open spec fn any_ended(desired: Seq<RouteEntry>, replies: Seq<LeaseEntry>, now_ns: u64) -> bool {
    (exists|i: int| 0 <= i < desired.len() && (#[trigger] desired[i]).1.expires_ns <= now_ns) || (
    exists|i: int| 0 <= i < replies.len() && (#[trigger] replies[i]).1.expires_ns <= now_ns)
}

fn has_ended(desired: &[RouteEntry], replies: &[LeaseEntry], now_ns: u64) -> (b: bool)
    ensures
        b == any_ended(desired@, replies@, now_ns),
{
    let mut i: usize = 0;
    while i < desired.len()
        invariant
            i <= desired.len(),
            forall|j: int| 0 <= j < i ==> (#[trigger] desired@[j]).1.expires_ns > now_ns,
        decreases desired.len() - i,
    {
        if desired[i].1.expires_ns <= now_ns {
            assert(desired@[i as int].1.expires_ns <= now_ns);
            return true;
        }
        i += 1;
    }
    let mut j: usize = 0;
    while j < replies.len()
        invariant
            j <= replies.len(),
            forall|k: int| 0 <= k < j ==> (#[trigger] replies@[k]).1.expires_ns > now_ns,
        decreases replies.len() - j,
    {
        if replies[j].1.expires_ns <= now_ns {
            assert(replies@[j as int].1.expires_ns <= now_ns);
            return true;
        }
        j += 1;
    }
    false
}

/// Decides on a planned publication, given the identities of the maps as they
/// are now. The writer is held from a decision to write or to clear until that is done.
pub fn publish(
    writer: &mut CacheWriter,
    token: SnapshotToken,
    map_id: u32,
    return_map_id: Option<u32>,
    desired: &[RouteEntry],
    replies: &[LeaseEntry],
    now_ns: u64,
) -> (turn: Turn<Result<Publication, RedirectError>>)
    ensures
        ({
            let current = token_current(*old(writer), token, map_id, return_map_id);
            let ended = any_ended(desired@, replies@, now_ns);
            match turn {
                Turn::Wait => old(writer).held() && *final(writer) == *old(writer),
                Turn::Go(Ok(Publication::Overtaken)) => !old(writer).held() && !current
                    && *final(writer) == *old(writer),
                Turn::Go(Ok(Publication::Expired(clear))) => {
                    &&& !old(writer).held() && current && ended
                    &&& clear@ == first_clear()
                    &&& final(writer).held()
                    &&& final(writer).revision() == old(writer).revision() + 1
                },
                Turn::Go(Ok(Publication::Write)) => {
                    &&& !old(writer).held() && current && !ended
                    &&& final(writer).held()
                    &&& final(writer).revision() == old(writer).revision()
                },
                Turn::Go(Err(error)) => {
                    &&& !old(writer).held() && current && ended
                    &&& error == RedirectError::RevisionExhausted
                    &&& old(writer).revision() == u64::MAX
                    &&& *final(writer) == *old(writer)
                },
            }
        }),
{
    if writer.held {
        return Turn::Wait;
    }
    if writer.revision != token.revision {
        return Turn::Go(Ok(Publication::Overtaken));
    }
    let same_return = match (return_map_id, token.return_map_id) {
        (Some(a), Some(b)) => a == b,
        (None, None) => true,
        _ => false,
    };
    if map_id != token.map_id || !same_return {
        return Turn::Go(Ok(Publication::Overtaken));
    }
    if has_ended(desired, replies, now_ns) {
        match writer.take_to_clear() {
            Turn::Wait => Turn::Wait,
            Turn::Go(Ok(clear)) => Turn::Go(Ok(Publication::Expired(clear))),
            Turn::Go(Err(error)) => Turn::Go(Err(error)),
        }
    } else {
        writer.held = true;
        Turn::Go(Ok(Publication::Write))
    }
}

/// What follows the writing of a publication.
#[derive(Debug)]
pub enum Written {
    /// It stands.
    Published,
    /// It failed half way: clear both directions, then end it as an invalidation.
    Clear(CacheClear),
}

/// Closes a publication that was written, or that failed half way. The revision advances
/// either way; after a failure the writer stays held until both directions are cleared.
pub fn finish_publication(writer: &mut CacheWriter, written: bool) -> (done: Result<
    Written,
    RedirectError,
>)
    ensures
        match done {
            Ok(Written::Published) => written && !final(writer).held() && final(writer).revision()
                == old(writer).revision() + 1,
            Ok(Written::Clear(clear)) => !written && clear@ == first_clear() && final(writer).held()
                && final(writer).revision() == old(writer).revision() + 1,
            Err(error) => error == RedirectError::RevisionExhausted && old(writer).revision()
                == u64::MAX && final(writer).revision() == old(writer).revision() && !final(writer).held(),
        },
{
    match writer.advance() {
        Ok(()) => if written {
            writer.held = false;
            Ok(Written::Published)
        } else {
            writer.held = true;
            Ok(Written::Clear(CacheClear::new()))
        },
        Err(error) => {
            writer.held = false;
            Err(error)
        },
    }
}

// ---------------------------------------------------------------------------
// Laws
// ---------------------------------------------------------------------------

/// A token is void as soon as the revision has advanced: whatever the maps are,
/// it never again names the cache. Every business change, invalidation and
/// finished publication advances the revision, and nothing moves it back.
pub proof fn law_advance_voids_tokens(
    taken: CacheWriter,
    now: CacheWriter,
    token: SnapshotToken,
    map_id: u32,
    return_map_id: Option<u32>,
)
    requires
        token.revision() == taken.revision(),
        now.revision() > taken.revision(),
    ensures
        !token_current(now, token, map_id, return_map_id),
{
}

/// A cache that was replaced by another map is never written under an old token.
pub proof fn law_replaced_map_voids_tokens(
    writer: CacheWriter,
    token: SnapshotToken,
    map_id: u32,
    return_map_id: Option<u32>,
)
    requires
        token.map_id() != map_id || token.return_map_id() != return_map_id,
    ensures
        !token_current(writer, token, map_id, return_map_id),
{
}

/// What the two maps hold. A map that is not there holds nothing.
#[verifier::ext_equal]
pub struct CacheModel {
    pub replies: Set<ReturnLeaseKey>,
    pub routes: Set<NativeTargetKey>,
}

/// Whether keys are those of a map, each once.
pub open spec fn lists<K>(keys: Seq<K>, map: Set<K>) -> bool {
    keys.no_duplicates() && forall|key: K| #[trigger] keys.contains(key) <==> map.contains(key)
}

/// Whether what is said of the maps is true of them: a map that is not there is empty,
/// and a list holds every key once. Failures may come at any time.
pub open spec fn truthful(model: CacheModel, clear: ClearView, event: ClearEventView) -> bool {
    match (clear.stage, event) {
        (ClearStage::ListReplies, ClearEventView::Absent) => model.replies
            =~= Set::<ReturnLeaseKey>::empty(),
        (ClearStage::ListReplies, ClearEventView::Replies(keys)) => lists(keys, model.replies),
        (ClearStage::ListRoutes, ClearEventView::Absent) => model.routes
            =~= Set::<NativeTargetKey>::empty(),
        (ClearStage::ListRoutes, ClearEventView::Routes(keys)) => lists(keys, model.routes),
        _ => true,
    }
}

/// The maps behind a step: a key that was dropped is gone, nothing else changes.
pub open spec fn step_model(
    model: CacheModel,
    clear: ClearView,
    event: ClearEventView,
) -> CacheModel {
    match (clear.asks(), event) {
        (ClearAction::DropReply(key), ClearEventView::Dropped) => CacheModel {
            replies: model.replies.remove(key),
            ..model
        },
        (ClearAction::DropRoute(key), ClearEventView::Dropped) => CacheModel {
            routes: model.routes.remove(key),
            ..model
        },
        _ => model,
    }
}

/// Clearing and the maps behind steps that are told truthfully; none where one is not.
pub open spec fn clear_run(model: CacheModel, events: Seq<ClearEventView>) -> Option<
    (ClearView, CacheModel),
>
    decreases events.len(),
{
    if events.len() == 0 {
        Some((first_clear(), model))
    } else {
        match clear_run(model, events.drop_last()) {
            None => None,
            Some((clear, now)) => if truthful(now, clear, events.last()) {
                Some((clear.next(events.last()), step_model(now, clear, events.last())))
            } else {
                None
            },
        }
    }
}

/// Whether a map holds exactly those of its former keys that were not dropped yet.
pub open spec fn part_dropped<K>(keys: Seq<K>, dropped: nat, before: Set<K>, now: Set<K>) -> bool {
    &&& lists(keys, before)
    &&& dropped <= keys.len()
    &&& forall|key: K| #[trigger]
        now.contains(key) <==> keys.skip(dropped as int).contains(key)
}

/// Whether a direction that did not fail was cleared.
pub open spec fn all_dropped<K>(
    keys: Seq<K>,
    failed: bool,
    before: Set<K>,
    now: Set<K>,
) -> bool {
    !failed ==> lists(keys, before) && now =~= Set::<K>::empty()
}

spec fn clear_holds(clear: ClearView, start: CacheModel, now: CacheModel) -> bool {
    match clear.stage {
        ClearStage::ListReplies => clear == first_clear() && now == start,
        ClearStage::DropReply => {
            &&& clear.reply_error is None && clear.route_error is None
            &&& clear.dropped < clear.replies.len()
            &&& clear.routes.len() == 0
            &&& part_dropped(clear.replies, clear.dropped, start.replies, now.replies)
            &&& now.routes == start.routes
        },
        ClearStage::ListRoutes => {
            &&& clear.route_error is None
            &&& clear.routes.len() == 0
            &&& all_dropped(
                clear.replies,
                clear.reply_error is Some,
                start.replies,
                now.replies,
            )
            &&& now.routes == start.routes
        },
        ClearStage::DropRoute => {
            &&& clear.route_error is None
            &&& clear.dropped < clear.routes.len()
            &&& all_dropped(
                clear.replies,
                clear.reply_error is Some,
                start.replies,
                now.replies,
            )
            &&& part_dropped(clear.routes, clear.dropped, start.routes, now.routes)
        },
        ClearStage::Done => {
            &&& all_dropped(
                clear.replies,
                clear.reply_error is Some,
                start.replies,
                now.replies,
            )
            &&& all_dropped(
                clear.routes,
                clear.route_error is Some,
                start.routes,
                now.routes,
            )
        },
    }
}

pub proof fn lemma_drop_one<K>(keys: Seq<K>, dropped: nat, before: Set<K>, now: Set<K>)
    requires
        part_dropped(keys, dropped, before, now),
        dropped < keys.len(),
    ensures
        part_dropped(keys, dropped + 1, before, now.remove(keys[dropped as int])),
        dropped + 1 == keys.len() ==> now.remove(keys[dropped as int]) =~= Set::<K>::empty(),
{
    let key = keys[dropped as int];
    let rest = keys.skip(dropped as int);
    let less = keys.skip(dropped as int + 1);
    assert forall|k: K| #[trigger] now.remove(key).contains(k) <==> less.contains(k) by {
        assert(now.contains(k) <==> rest.contains(k));
        if less.contains(k) {
            let i = less.index_of(k);
            assert(rest[i + 1] == k);
            assert(keys[dropped as int + 1 + i] == k);
        }
        if rest.contains(k) && k != key {
            let i = rest.index_of(k);
            assert(rest[0] == key);
            assert(less[i - 1] == k);
        }
    }
    if dropped + 1 == keys.len() {
        assert forall|k: K| !now.remove(key).contains(k) by {
            assert(!less.contains(k));
        }
    }
}

pub proof fn lemma_listed<K>(keys: Seq<K>, before: Set<K>)
    requires
        lists(keys, before),
    ensures
        part_dropped(keys, 0, before, before),
        keys.len() == 0 ==> before =~= Set::<K>::empty(),
{
    assert(keys.skip(0) =~= keys);
    if keys.len() == 0 {
        assert forall|k: K| !before.contains(k) by {
            assert(!keys.contains(k));
        }
    }
}

proof fn lemma_empty_is_listed<K>(before: Set<K>)
    requires
        before =~= Set::<K>::empty(),
    ensures
        lists(Seq::<K>::empty(), before),
{
}

proof fn lemma_clear_step(
    clear: ClearView,
    start: CacheModel,
    now: CacheModel,
    event: ClearEventView,
)
    requires
        clear_holds(clear, start, now),
        truthful(now, clear, event),
    ensures
        clear_holds(clear.next(event), start, step_model(now, clear, event)),
{
    match (clear.stage, event) {
        (ClearStage::ListReplies, ClearEventView::Absent) => {
            lemma_empty_is_listed(now.replies);
        },
        (ClearStage::ListReplies, ClearEventView::Replies(keys)) => {
            lemma_listed(keys, now.replies);
        },
        (ClearStage::DropReply, ClearEventView::Dropped) => {
            lemma_drop_one(clear.replies, clear.dropped, start.replies, now.replies);
        },
        (ClearStage::ListRoutes, ClearEventView::Absent) => {
            lemma_empty_is_listed(now.routes);
            assert(clear.routes =~= Seq::<NativeTargetKey>::empty());
        },
        (ClearStage::ListRoutes, ClearEventView::Routes(keys)) => {
            lemma_listed(keys, now.routes);
        },
        (ClearStage::DropRoute, ClearEventView::Dropped) => {
            lemma_drop_one(clear.routes, clear.dropped, start.routes, now.routes);
        },
        _ => {},
    }
}

proof fn lemma_clear_run(start: CacheModel, events: Seq<ClearEventView>)
    ensures
        clear_run(start, events) matches Some((clear, now)) ==> clear_holds(clear, start, now),
    decreases events.len(),
{
    if events.len() > 0 {
        lemma_clear_run(start, events.drop_last());
        if let Some((clear, now)) = clear_run(start, events.drop_last()) {
            if truthful(now, clear, events.last()) {
                lemma_clear_step(clear, start, now, events.last());
            }
        }
    }
}

proof fn lemma_lists_len<K>(keys: Seq<K>, map: Set<K>)
    requires
        lists(keys, map),
    ensures
        map.finite(),
        map.len() == keys.len(),
{
    keys.unique_seq_to_set();
    assert(keys.to_set() =~= map);
}

/// Clearing empties both maps and counts what they held; a failure in one direction does
/// not spare the other. This holds of every way in which the steps can go, as long as no
/// one else writes the maps meanwhile.
pub proof fn law_clearing_empties_both_maps(start: CacheModel, events: Seq<ClearEventView>)
    ensures
        match clear_run(start, events) {
            Some((clear, now)) if clear.stage == ClearStage::Done => {
                &&& clear.outcome() matches Ok(count) ==> {
                    &&& now.replies =~= Set::<ReturnLeaseKey>::empty()
                    &&& now.routes =~= Set::<NativeTargetKey>::empty()
                    &&& count == start.replies.len() + start.routes.len()
                }
                &&& clear.reply_error is None ==> now.replies =~= Set::<ReturnLeaseKey>::empty()
                &&& clear.route_error is None ==> now.routes =~= Set::<NativeTargetKey>::empty()
            },
            _ => true,
        },
{
    lemma_clear_run(start, events);
    if let Some((clear, now)) = clear_run(start, events) {
        if clear.stage == ClearStage::Done {
            if clear.outcome() is Ok {
                lemma_lists_len(clear.replies, start.replies);
                lemma_lists_len(clear.routes, start.routes);
            }
        }
    }
}

/// Clearing a second time, with no one else writing between, finds nothing.
pub proof fn law_second_clearing_finds_nothing(
    start: CacheModel,
    first: Seq<ClearEventView>,
    second: Seq<ClearEventView>,
)
    ensures
        match clear_run(start, first) {
            Some((clear, now)) if clear.stage == ClearStage::Done && clear.outcome() is Ok => match
                clear_run(now, second) {
                Some((again, _)) if again.stage == ClearStage::Done => again.outcome() matches Ok(
                    count,
                ) ==> count == 0,
                _ => true,
            },
            _ => true,
        },
{
    law_clearing_empties_both_maps(start, first);
    if let Some((clear, now)) = clear_run(start, first) {
        law_clearing_empties_both_maps(now, second);
    }
}

/// Under the guard of a business change both maps are empty, every token that was taken
/// before is void, and whoever else asks for the writer waits.
pub proof fn law_guard_fences_the_cache(
    start: CacheModel,
    events: Seq<ClearEventView>,
    before: CacheWriter,
    held: CacheWriter,
    token: SnapshotToken,
    map_id: u32,
    return_map_id: Option<u32>,
    turn: Turn<Result<CacheClear, RedirectError>>,
    after: CacheWriter,
)
    requires
        held.held(),
        held.revision() == before.revision() + 1,
        token.revision() <= before.revision(),
        clear_run(start, events) matches Some((clear, _)) && clear.stage == ClearStage::Done
            && clear.outcome() is Ok,
        begins_clearing(held, after, turn),
    ensures
        clear_run(start, events) matches Some((_, now)) && now.replies
            =~= Set::<ReturnLeaseKey>::empty() && now.routes =~= Set::<NativeTargetKey>::empty(),
        !token_current(held, token, map_id, return_map_id),
        turn is Wait,
        after == held,
{
    law_clearing_empties_both_maps(start, events);
}

/// A healthy target with a weight whose listener is known is a candidate, with its own
/// address and port and the codepoint of its listener.
pub proof fn law_usable_targets_are_candidates(
    listeners: Seq<ListenerRecord>,
    targets: Seq<TargetRecord>,
    i: int,
    j: int,
) -> (k: int)
    requires
        !conflicting(listeners),
        0 <= i < targets.len(),
        targets[i].healthy,
        targets[i].weight > 0,
        0 <= j < listeners.len(),
        listeners[j].listener_id == targets[i].key.listener_id,
        listeners[j].dscp <= 255,
    ensures
        ({
            let list = candidate_list(listeners, targets);
            &&& 0 <= k < list.len()
            &&& list[k].key == targets[i].key
            &&& list[k].target == targets[i].address
            &&& list[k].port == targets[i].port
            &&& list[k].dscp == listeners[j].dscp
        }),
    decreases targets.len(),
{
    let front = targets.drop_last();
    let before = candidate_list(listeners, front);
    if i < front.len() {
        assert(front[i] == targets[i]);
        law_usable_targets_are_candidates(listeners, front, i, j)
    } else {
        lemma_dscp_at(listeners, j);
        assert(targets.last() == targets[i]);
        before.len() as int
    }
}

proof fn lemma_dscp_at(listeners: Seq<ListenerRecord>, j: int)
    requires
        !conflicting(listeners),
        0 <= j < listeners.len(),
    ensures
        dscp_of(listeners, listeners[j].listener_id) == Some(listeners[j].dscp),
    decreases listeners.len(),
{
    let rest = listeners.skip(1);
    if j > 0 {
        assert(listeners[0].listener_id == listeners[j].listener_id ==> listeners[0].dscp
            == listeners[j].dscp);
        assert(rest[j - 1] == listeners[j]);
        assert forall|a: int, b: int|
            0 <= a < b < rest.len() && (#[trigger] rest[a]).listener_id == (
            #[trigger] rest[b]).listener_id implies rest[a].dscp == rest[b].dscp by {
            assert(rest[a] == listeners[a + 1]);
            assert(rest[b] == listeners[b + 1]);
        }
        lemma_dscp_at(rest, j - 1);
    }
}

proof fn lemma_dscp_from(listeners: Seq<ListenerRecord>, listener_id: u32) -> (j: int)
    requires
        dscp_of(listeners, listener_id) is Some,
    ensures
        0 <= j < listeners.len(),
        listeners[j].listener_id == listener_id,
        dscp_of(listeners, listener_id) == Some(listeners[j].dscp),
    decreases listeners.len(),
{
    if listeners[0].listener_id == listener_id {
        0
    } else {
        let rest = listeners.skip(1);
        let j = lemma_dscp_from(rest, listener_id);
        assert(rest[j] == listeners[j + 1]);
        j + 1
    }
}

/// A candidate is a healthy target with a weight, of a listener that is known.
pub proof fn law_candidates_are_usable(
    listeners: Seq<ListenerRecord>,
    targets: Seq<TargetRecord>,
    k: int,
) -> (at: (int, int))
    requires
        0 <= k < candidate_list(listeners, targets).len(),
        forall|i: int| 0 <= i < listeners.len() ==> (#[trigger] listeners[i]).dscp <= 255,
    ensures
        ({
            let found = candidate_list(listeners, targets)[k];
            &&& 0 <= at.0 < targets.len()
            &&& 0 <= at.1 < listeners.len()
            &&& targets[at.0].healthy
            &&& targets[at.0].weight > 0
            &&& targets[at.0].key == found.key
            &&& targets[at.0].address == found.target
            &&& targets[at.0].port == found.port
            &&& listeners[at.1].listener_id == found.key.listener_id
            &&& listeners[at.1].dscp == found.dscp
        }),
    decreases targets.len(),
{
    let front = targets.drop_last();
    let before = candidate_list(listeners, front);
    if k < before.len() {
        let at = law_candidates_are_usable(listeners, front, k);
        assert(front[at.0] == targets[at.0]);
        at
    } else {
        let last = targets.len() - 1;
        let j = lemma_dscp_from(listeners, targets[last].key.listener_id);
        (last, j)
    }
}

/// Listeners disagree if and only if two of one identity have different codepoints.
pub proof fn law_differing_codepoints_conflict(listeners: Seq<ListenerRecord>, i: int, j: int)
    requires
        0 <= i < j < listeners.len(),
        listeners[i].listener_id == listeners[j].listener_id,
    ensures
        listeners[i].dscp != listeners[j].dscp ==> conflicting(listeners),
        !conflicting(listeners) ==> listeners[i].dscp == listeners[j].dscp,
{
}

/// A plan has ended as soon as one of its leases has, in either direction, and not before.
pub proof fn law_one_ended_lease_is_enough(
    desired: Seq<RouteEntry>,
    replies: Seq<LeaseEntry>,
    now_ns: u64,
    i: int,
)
    ensures
        0 <= i < desired.len() && desired[i].1.expires_ns <= now_ns ==> any_ended(
            desired,
            replies,
            now_ns,
        ),
        0 <= i < replies.len() && replies[i].1.expires_ns <= now_ns ==> any_ended(
            desired,
            replies,
            now_ns,
        ),
        any_ended(desired, replies, now_ns) && 0 <= i < desired.len() && (forall|k: int|
            0 <= k < replies.len() ==> (#[trigger] replies[k]).1.expires_ns > now_ns) ==> (exists|
            k: int,
        |
            0 <= k < desired.len() && (#[trigger] desired[k]).1.expires_ns <= now_ns),
        (forall|k: int| 0 <= k < replies.len() ==> (#[trigger] replies[k]).1.expires_ns > now_ns)
            && (forall|k: int|
            0 <= k < desired.len() ==> (#[trigger] desired[k]).1.expires_ns > now_ns)
            ==> !any_ended(desired, replies, now_ns),
{
}

/// A token is good as long as the revision and both maps are those that it was taken of.
pub proof fn law_tokens_last_until_a_change(
    writer: CacheWriter,
    token: SnapshotToken,
    map_id: u32,
    return_map_id: Option<u32>,
)
    ensures
        token_current(writer, token, map_id, return_map_id) <==> token.revision()
            == writer.revision() && token.map_id() == map_id && token.return_map_id()
            == return_map_id,
{
}

/// A writer that is free is taken to clear the cache under the next revision; one that is
/// held stays as it is.
pub proof fn law_free_writer_is_taken(
    before: CacheWriter,
    after: CacheWriter,
    turn: Turn<Result<CacheClear, RedirectError>>,
)
    requires
        begins_clearing(before, after, turn),
    ensures
        before.held() ==> turn is Wait && after == before,
        !before.held() && before.revision() < u64::MAX ==> turn is Go && after.held()
            && after.revision() == before.revision() + 1 && (turn matches Turn::Go(result)
            && (result matches Ok(clear) && clear@.stage == ClearStage::ListReplies
            && clear@.reply_error is None && clear@.route_error is None)),
        !before.held() && before.revision() == u64::MAX ==> turn is Go && after == before,
{
}

/// Clearing goes on with every answer: from the return direction to the other, and through
/// each list key by key. What fails ends its direction and is kept.
pub proof fn law_clearing_goes_on(
    clear: ClearView,
    replies: Seq<ReturnLeaseKey>,
    routes: Seq<NativeTargetKey>,
    error: Seq<char>,
)
    requires
        clear.wf(),
    ensures
        clear.stage == ClearStage::ListReplies ==> ({
            let listed = clear.next(ClearEventView::Replies(replies));
            &&& replies.len() > 0 ==> listed.asks() == ClearAction::DropReply(replies[0])
            &&& replies.len() == 0 ==> listed.asks() == ClearAction::ListRoutes
            &&& clear.next(ClearEventView::Absent).asks() == ClearAction::ListRoutes
        }),
        clear.stage == ClearStage::DropReply ==> ({
            let dropped = clear.next(ClearEventView::Dropped);
            &&& clear.dropped + 1 < clear.replies.len() ==> dropped.asks()
                == ClearAction::DropReply(clear.replies[clear.dropped as int + 1])
            &&& clear.dropped + 1 == clear.replies.len() ==> dropped.asks()
                == ClearAction::ListRoutes
        }),
        clear.stage == ClearStage::ListRoutes ==> ({
            let listed = clear.next(ClearEventView::Routes(routes));
            &&& routes.len() > 0 ==> listed.asks() == ClearAction::DropRoute(routes[0])
            &&& routes.len() == 0 ==> listed.asks() == ClearAction::Finished
            &&& clear.next(ClearEventView::Absent).asks() == ClearAction::Finished
        }),
        clear.stage == ClearStage::DropRoute ==> ({
            let dropped = clear.next(ClearEventView::Dropped);
            &&& clear.dropped + 1 < clear.routes.len() ==> dropped.asks()
                == ClearAction::DropRoute(clear.routes[clear.dropped as int + 1])
            &&& clear.dropped + 1 == clear.routes.len() ==> dropped.asks() == ClearAction::Finished
        }),
        clear.stage == ClearStage::ListReplies || clear.stage == ClearStage::DropReply ==> ({
            let failed = clear.next(ClearEventView::Failed { error });
            failed.asks() == ClearAction::ListRoutes && failed.reply_error == Some(error)
                && failed.outcome() == Err::<nat, Seq<char>>(error)
        }),
        clear.stage == ClearStage::ListRoutes || clear.stage == ClearStage::DropRoute ==> ({
            let failed = clear.next(ClearEventView::Failed { error });
            failed.asks() == ClearAction::Finished && failed.route_error == Some(error)
                && failed.reply_error == clear.reply_error
        }),
        clear.reply_error is None && (clear.route_error is Some) ==> clear.outcome()
            == Err::<nat, Seq<char>>(clear.route_error->Some_0),
        clear.reply_error is None && clear.route_error is None ==> clear.outcome() == Ok::<
            nat,
            Seq<char>,
        >(clear.replies.len() + clear.routes.len()),
{
}

/// A usable target of a listener whose codepoint does not fit a byte cannot get a lease; one
/// that is not usable does not matter.
pub proof fn law_wide_codepoints_do_not_fit(
    listeners: Seq<ListenerRecord>,
    target: TargetRecord,
    j: int,
)
    requires
        !conflicting(listeners),
        0 <= j < listeners.len(),
        listeners[j].listener_id == target.key.listener_id,
    ensures
        target.healthy && target.weight > 0 ==> oversized(listeners, target) == (listeners[j].dscp
            > 255),
        !target.healthy || target.weight == 0 ==> !oversized(listeners, target),
{
    lemma_dscp_at(listeners, j);
}

} // verus!
