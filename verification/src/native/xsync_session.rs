//! Sessions in which the active gateway replicates its flows to the peer.
use super::flow::{FlowEntry, FlowKey};
use super::flow_table::{
    distinct_rows, law_row_is_found, law_row_is_gone, lemma_row_at, row_of, with_row, without_row,
    FlowTable,
};
use super::xsync::{
    deletes, due_to_flush, flow_ack_covers_sent, gathered_all, next_batch, operations, upserts,
    waiting_since, FlowMutation, FlowOp, FlowSyncBatch, FullReconcileSchedule, PendingFlowBatch,
    RECONCILE_RECOVERY_ROUNDS,
};
use crate::config::GatewayHaPeer;
use crate::net::{parse_socket, socket_value};
use crate::text::{chars_of, decimal, push_decimal};
use vstd::prelude::*;

verus! {

/// Whether flows hold a key.
pub open spec fn has_flow(flows: Seq<FlowEntry>, key: FlowKey) -> bool {
    exists|i: int| 0 <= i < flows.len() && (#[trigger] flows[i]).key == key
}

/// The flows that the peer does not know as they are.
pub open spec fn changed_flows(flows: Seq<FlowEntry>, replica: Seq<(FlowKey, u64)>) -> Seq<
    FlowEntry,
>
    decreases flows.len(),
{
    if flows.len() == 0 {
        Seq::empty()
    } else {
        let before = changed_flows(flows.drop_last(), replica);
        match row_of(replica, flows.last().key) {
            Some(seen) => if flows.last().value.last_seen_ns > seen {
                before.push(flows.last())
            } else {
                before
            },
            None => before.push(flows.last()),
        }
    }
}

/// The flows that the peer knows and that are gone.
pub open spec fn gone_flows(replica: Seq<(FlowKey, u64)>, flows: Seq<FlowEntry>) -> Seq<FlowKey>
    decreases replica.len(),
{
    if replica.len() == 0 {
        Seq::empty()
    } else {
        let before = gone_flows(replica.drop_last(), flows);
        if has_flow(flows, replica.last().0) {
            before
        } else {
            before.push(replica.last().0)
        }
    }
}

/// What the peer knows with flows that it accepted.
pub open spec fn with_sent(replica: Seq<(FlowKey, u64)>, entries: Seq<FlowEntry>) -> Seq<
    (FlowKey, u64),
>
    decreases entries.len(),
{
    if entries.len() == 0 {
        replica
    } else {
        with_row(
            with_sent(replica, entries.drop_last()),
            entries.last().key,
            entries.last().value.last_seen_ns,
        )
    }
}

/// What the peer knows without flows that it dropped.
pub open spec fn without_gone(replica: Seq<(FlowKey, u64)>, keys: Seq<FlowKey>) -> Seq<
    (FlowKey, u64),
>
    decreases keys.len(),
{
    if keys.len() == 0 {
        replica
    } else {
        without_row(without_gone(replica, keys.drop_last()), keys.last())
    }
}

fn list_changed(flows: &[FlowEntry], replica: &FlowTable<u64>) -> (out: Vec<FlowEntry>)
    requires
        replica.wf(),
    ensures
        out@ == changed_flows(flows@, replica@),
{
    let mut out: Vec<FlowEntry> = Vec::new();
    let mut i: usize = 0;
    while i < flows.len()
        invariant
            i <= flows.len(),
            replica.wf(),
            out@ == changed_flows(flows@.take(i as int), replica@),
        decreases flows.len() - i,
    {
        assert(flows@.take(i + 1).drop_last() =~= flows@.take(i as int));
        assert(flows@.take(i + 1).last() == flows@[i as int]);
        let changed = match replica.get(flows[i].key) {
            Some(seen) => flows[i].value.last_seen_ns > *seen,
            None => true,
        };
        if changed {
            out.push(flows[i]);
        }
        i += 1;
    }
    assert(flows@.take(flows@.len() as int) =~= flows@);
    out
}

fn index_flows(flows: &[FlowEntry]) -> (table: FlowTable<u64>)
    ensures
        table.wf(),
        forall|key: FlowKey| (#[trigger] row_of(table@, key) is Some) <==> has_flow(flows@, key),
{
    let mut table: FlowTable<u64> = FlowTable::new();
    let mut i: usize = 0;
    while i < flows.len()
        invariant
            i <= flows.len(),
            table.wf(),
            forall|key: FlowKey|
                (#[trigger] row_of(table@, key) is Some) <==> has_flow(flows@.take(i as int), key),
        decreases flows.len() - i,
    {
        let ghost before = table@;
        let flow = flows[i];
        table.insert(flow.key, flow.value.last_seen_ns);
        proof {
            let done = flows@.take(i as int);
            let next = flows@.take(i + 1);
            assert forall|key: FlowKey| (#[trigger] row_of(table@, key) is Some) <==> has_flow(
                next,
                key,
            ) by {
                law_row_is_found(before, flow.key, flow.value.last_seen_ns, key);
                assert(row_of(before, key) is Some <==> has_flow(done, key));
                if has_flow(done, key) {
                    let k = choose|k: int| 0 <= k < done.len() && (#[trigger] done[k]).key == key;
                    assert(next[k].key == key);
                }
                if key == flow.key {
                    assert(next[i as int].key == key);
                }
                if has_flow(next, key) && key != flow.key {
                    let k = choose|k: int| 0 <= k < next.len() && (#[trigger] next[k]).key == key;
                    assert(done[k].key == key);
                }
            }
        }
        i += 1;
    }
    assert(flows@.take(flows@.len() as int) =~= flows@);
    table
}

fn list_gone(replica: &FlowTable<u64>, flows: &[FlowEntry]) -> (out: Vec<FlowKey>)
    ensures
        out@ == gone_flows(replica@, flows@),
{
    let table = index_flows(flows);
    let mut out: Vec<FlowKey> = Vec::new();
    let mut i: usize = 0;
    while i < replica.len()
        invariant
            i <= replica@.len(),
            table.wf(),
            forall|key: FlowKey|
                (#[trigger] row_of(table@, key) is Some) <==> has_flow(flows@, key),
            out@ == gone_flows(replica@.take(i as int), flows@),
        decreases replica@.len() - i,
    {
        assert(replica@.take(i + 1).drop_last() =~= replica@.take(i as int));
        assert(replica@.take(i + 1).last() == replica@[i as int]);
        let key = replica.row(i).0;
        assert(row_of(table@, key) is Some <==> has_flow(flows@, key));
        if table.get(key).is_none() {
            out.push(key);
        }
        i += 1;
    }
    assert(replica@.take(replica@.len() as int) =~= replica@);
    out
}

// ---------------------------------------------------------------------------
// A session
// ---------------------------------------------------------------------------

/// A session with the peer: what is to be sent, what the peer knows, and when the
/// flows are compared as a whole.
pub struct XsyncSession {
    pub pending: PendingFlowBatch,
    pub replica: FlowTable<u64>,
    pub reconcile: FullReconcileSchedule,
}

/// A session, as plain values.
#[verifier::ext_equal]
pub struct SessionView {
    pub rows: Seq<(FlowKey, FlowOp)>,
    pub oldest_ms: Option<u64>,
    pub replica: Seq<(FlowKey, u64)>,
    pub reconcile: FullReconcileSchedule,
}

impl View for XsyncSession {
    type V = SessionView;

    open spec fn view(&self) -> SessionView {
        SessionView {
            rows: self.pending.rows(),
            oldest_ms: self.pending.oldest_update_ms,
            replica: self.replica@,
            reconcile: self.reconcile,
        }
    }
}

/// A session in which the peer knows nothing yet.
pub open spec fn fresh_session(now_ms: u64) -> SessionView {
    SessionView {
        rows: Seq::empty(),
        oldest_ms: None,
        replica: Seq::empty(),
        reconcile: FullReconcileSchedule { next_at_ms: now_ms, recovery_rounds: 0 },
    }
}

impl SessionView {
    /// The session with changes that the datapath reported.
    pub open spec fn after_events(self, mutations: Seq<FlowMutation>, now_ms: u64) -> SessionView {
        SessionView {
            rows: gathered_all(self.rows, mutations),
            oldest_ms: waiting_since(self.oldest_ms, mutations.len() > 0, now_ms),
            ..self
        }
    }

    /// The session with what the peer lacks of all flows.
    pub open spec fn after_dump(
        self,
        flows: Seq<FlowEntry>,
        now_ms: u64,
        done_ms: u64,
    ) -> SessionView {
        let gone = gone_flows(self.replica, flows);
        let changed = changed_flows(flows, self.replica);
        SessionView {
            rows: gathered_all(gathered_all(self.rows, deletes(gone)), upserts(changed)),
            oldest_ms: waiting_since(self.oldest_ms, gone.len() + changed.len() > 0, now_ms),
            reconcile: self.reconcile.completed(done_ms),
            ..self
        }
    }

    /// The session without what goes out next.
    pub open spec fn after_take(self, now_ms: u64) -> SessionView {
        let left = next_batch(self.rows).left;
        SessionView {
            rows: left,
            oldest_ms: if left.len() == 0 {
                None
            } else {
                Some(now_ms)
            },
            ..self
        }
    }

    /// The session behind an answer of the peer. What the peer knows advances only where
    /// it accepted every operation; otherwise the operations are to be sent again.
    pub open spec fn after_ack(
        self,
        entries: Seq<FlowEntry>,
        gone: Seq<FlowKey>,
        accepted: u64,
        now_ms: u64,
    ) -> SessionView {
        if accepted == operations(entries, gone) {
            SessionView {
                replica: without_gone(with_sent(self.replica, entries), gone),
                ..self
            }
        } else {
            SessionView {
                rows: gathered_all(gathered_all(self.rows, deletes(gone)), upserts(entries)),
                oldest_ms: waiting_since(self.oldest_ms, entries.len() + gone.len() > 0, now_ms),
                reconcile: FullReconcileSchedule {
                    next_at_ms: now_ms,
                    recovery_rounds: RECONCILE_RECOVERY_ROUNDS,
                },
                ..self
            }
        }
    }
}

impl XsyncSession {
    pub open spec fn wf(&self) -> bool {
        self.pending.wf() && self.replica.wf()
    }

    /// A session in which the peer knows nothing yet.
    pub fn new(now_ms: u64) -> (session: Self)
        ensures
            session.wf(),
            session@ == fresh_session(now_ms),
    {
        XsyncSession {
            pending: PendingFlowBatch::new(),
            replica: FlowTable::new(),
            reconcile: FullReconcileSchedule::new(now_ms),
        }
    }

    /// Takes changes that the datapath reported. Says whether the flows are to be
    /// compared as a whole now.
    pub fn on_events(&mut self, mutations: &[FlowMutation], now_ms: u64) -> (due: bool)
        requires
            old(self).wf(),
        ensures
            final(self).wf(),
            final(self)@ == old(self)@.after_events(mutations@, now_ms),
            due == (now_ms >= old(self).reconcile.next_at_ms),
    {
        self.pending.apply_mutations(mutations, now_ms);
        self.reconcile.due(now_ms)
    }

    /// Takes all flows of the datapath and gathers what the peer lacks. The comparison
    /// was begun at one time and ended at another.
    pub fn on_dump(&mut self, flows: &[FlowEntry], now_ms: u64, done_ms: u64)
        requires
            old(self).wf(),
        ensures
            final(self).wf(),
            final(self)@ == old(self)@.after_dump(flows@, now_ms, done_ms),
    {
        let gone = list_gone(&self.replica, flows);
        let changed = list_changed(flows, &self.replica);
        self.pending.apply_deletes(gone.as_slice(), now_ms);
        self.pending.apply_entries(changed.as_slice(), now_ms);
        self.reconcile.mark_completed(done_ms);
    }

    /// Takes what is to be sent now, if anything.
    pub fn next_request(&mut self, now_ms: u64, force: bool) -> (batch: Option<FlowSyncBatch>)
        requires
            old(self).wf(),
        ensures
            final(self).wf(),
            match batch {
                None => !due_to_flush(old(self)@.rows, old(self)@.oldest_ms, now_ms, force)
                    && final(self)@ == old(self)@,
                Some(batch) => {
                    &&& due_to_flush(old(self)@.rows, old(self)@.oldest_ms, now_ms, force)
                    &&& batch.entries@ == next_batch(old(self)@.rows).entries
                    &&& batch.deletes@ == next_batch(old(self)@.rows).deletes
                    &&& final(self)@ == old(self)@.after_take(now_ms)
                },
            },
    {
        if self.pending.should_flush(now_ms, force) {
            Some(self.pending.take_limited_batch(now_ms))
        } else {
            None
        }
    }

    fn advance(&mut self, batch: &FlowSyncBatch)
        requires
            old(self).wf(),
        ensures
            final(self).wf(),
            final(self).pending == old(self).pending,
            final(self).reconcile == old(self).reconcile,
            final(self).replica@ == without_gone(
                with_sent(old(self).replica@, batch.entries@),
                batch.deletes@,
            ),
    {
        let ghost start = self.replica@;
        let ghost pending = self.pending;
        let ghost reconcile = self.reconcile;
        let mut i: usize = 0;
        while i < batch.entries.len()
            invariant
                i <= batch.entries.len(),
                self.wf(),
                self.pending == pending,
                self.reconcile == reconcile,
                self.replica@ == with_sent(start, batch.entries@.take(i as int)),
            decreases batch.entries.len() - i,
        {
            assert(batch.entries@.take(i + 1).drop_last() =~= batch.entries@.take(i as int));
            assert(batch.entries@.take(i + 1).last() == batch.entries@[i as int]);
            let entry = batch.entries[i];
            self.replica.insert(entry.key, entry.value.last_seen_ns);
            i += 1;
        }
        assert(batch.entries@.take(batch.entries@.len() as int) =~= batch.entries@);
        let ghost middle = self.replica@;
        let mut j: usize = 0;
        while j < batch.deletes.len()
            invariant
                j <= batch.deletes.len(),
                self.wf(),
                self.pending == pending,
                self.reconcile == reconcile,
                self.replica@ == without_gone(middle, batch.deletes@.take(j as int)),
            decreases batch.deletes.len() - j,
        {
            assert(batch.deletes@.take(j + 1).drop_last() =~= batch.deletes@.take(j as int));
            assert(batch.deletes@.take(j + 1).last() == batch.deletes@[j as int]);
            self.replica.remove(batch.deletes[j]);
            j += 1;
        }
        assert(batch.deletes@.take(batch.deletes@.len() as int) =~= batch.deletes@);
    }

    /// Takes the answer of the peer. Says whether it accepted every operation.
    pub fn on_ack(&mut self, batch: &FlowSyncBatch, accepted: u64, now_ms: u64) -> (covered: bool)
        requires
            old(self).wf(),
        ensures
            final(self).wf(),
            covered == (accepted == operations(batch.entries@, batch.deletes@)),
            final(self)@ == old(self)@.after_ack(batch.entries@, batch.deletes@, accepted, now_ms),
    {
        if flow_ack_covers_sent(batch.operation_count(), accepted) {
            self.advance(batch);
            true
        } else {
            self.pending.requeue_batch(batch, now_ms);
            self.reconcile.force_recovery(now_ms);
            false
        }
    }
}

/// The port of the peer: that of the control plane, or of replication where the
/// control plane listens on no address.
pub fn control_port(listen: &str, xsync_port: u16) -> (port: u16)
    ensures
        port == (match socket_value(listen@) {
            Some((_, port)) => port,
            None => xsync_port,
        }),
{
    let chars = chars_of(listen);
    match parse_socket(chars.as_slice()) {
        Some((_, port)) => port,
        None => xsync_port,
    }
}

/// Where the peer takes flows.
pub fn peer_endpoint(peer: &GatewayHaPeer, listen: &str, xsync_port: u16) -> (endpoint: String)
    ensures
        endpoint@ == "http://"@ + peer.underlay_ip@ + ":"@ + decimal(
            match socket_value(listen@) {
                Some((_, port)) => port as nat,
                None => xsync_port as nat,
            },
        ),
{
    let mut endpoint = String::from_str("http://");
    endpoint.append(peer.underlay_ip.as_str());
    endpoint.append(":");
    push_decimal(&mut endpoint, control_port(listen, xsync_port) as u64);
    endpoint
}

/// How long to wait behind the session after the next, in milliseconds: twice as long,
/// up to a limit.
pub open spec fn waits_next(backoff_ms: u64, reconnect_max_ms: Option<u64>) -> u64 {
    let max = match reconnect_max_ms {
        Some(ms) => if ms < 250 {
            250
        } else {
            ms
        },
        None => 5000,
    };
    if backoff_ms * 2 <= max {
        (backoff_ms * 2) as u64
    } else {
        max
    }
}

/// How long to wait behind the session after the next.
pub fn next_backoff_ms(backoff_ms: u64, reconnect_max_ms: Option<u64>) -> (ms: u64)
    ensures
        ms == waits_next(backoff_ms, reconnect_max_ms),
{
    let max: u64 = match reconnect_max_ms {
        Some(ms) => if ms < 250 {
            250
        } else {
            ms
        },
        None => 5000,
    };
    if backoff_ms <= max / 2 {
        backoff_ms * 2
    } else {
        max
    }
}

// ---------------------------------------------------------------------------
// Laws
// ---------------------------------------------------------------------------

/// A flow is sent if and only if the peer does not know it or it was seen since; only
/// flows of the datapath are sent.
pub proof fn law_news_are_sent(flows: Seq<FlowEntry>, replica: Seq<(FlowKey, u64)>, i: int)
    ensures
        ({
            let changed = changed_flows(flows, replica);
            &&& 0 <= i < flows.len() && row_of(replica, flows[i].key) is None ==> changed.contains(
                flows[i],
            )
            &&& 0 <= i < flows.len() && (row_of(replica, flows[i].key) matches Some(seen)
                && flows[i].value.last_seen_ns > seen) ==> changed.contains(flows[i])
            &&& 0 <= i < changed.len() ==> flows.contains(changed[i]) && (row_of(
                replica,
                changed[i].key,
            ) matches Some(seen) ==> changed[i].value.last_seen_ns > seen)
        }),
    decreases flows.len(),
{
    if flows.len() > 0 {
        let front = flows.drop_last();
        let before = changed_flows(front, replica);
        let changed = changed_flows(flows, replica);
        law_news_are_sent(front, replica, i);
        assert(flows[flows.len() - 1] == flows.last());
        if changed.len() > before.len() {
            assert(changed[before.len() as int] == flows.last());
        }
        if 0 <= i < front.len() {
            assert(front[i] == flows[i]);
            if before.contains(flows[i]) {
                let k = choose|k: int| 0 <= k < before.len() && before[k] == flows[i];
                assert(changed[k] == flows[i]);
            }
        }
        if 0 <= i < before.len() {
            assert(changed[i] == before[i]);
            let k = choose|k: int| 0 <= k < front.len() && front[k] == before[i];
            assert(flows[k] == before[i]);
        }
    }
}

/// A flow that the peer knows is reported gone if and only if the datapath has it no more.
pub proof fn law_lost_flows_are_reported(
    replica: Seq<(FlowKey, u64)>,
    flows: Seq<FlowEntry>,
    i: int,
)
    ensures
        ({
            let gone = gone_flows(replica, flows);
            &&& 0 <= i < replica.len() && (forall|k: int|
                0 <= k < flows.len() ==> (#[trigger] flows[k]).key != replica[i].0)
                ==> gone.contains(replica[i].0)
            &&& 0 <= i < gone.len() ==> (exists|k: int|
                0 <= k < replica.len() && (#[trigger] replica[k]).0 == gone[i]) && (forall|k: int|
                0 <= k < flows.len() ==> (#[trigger] flows[k]).key != gone[i])
        }),
    decreases replica.len(),
{
    if replica.len() > 0 {
        let front = replica.drop_last();
        let before = gone_flows(front, flows);
        let gone = gone_flows(replica, flows);
        law_lost_flows_are_reported(front, flows, i);
        assert(replica[replica.len() - 1] == replica.last());
        if gone.len() > before.len() {
            assert(gone[before.len() as int] == replica.last().0);
        }
        if 0 <= i < front.len() {
            assert(front[i] == replica[i]);
            if before.contains(replica[i].0) {
                let k = choose|k: int| 0 <= k < before.len() && before[k] == replica[i].0;
                assert(gone[k] == replica[i].0);
            }
        }
        if 0 <= i < before.len() {
            assert(gone[i] == before[i]);
            let k = choose|k: int| 0 <= k < front.len() && (#[trigger] front[k]).0 == before[i];
            assert(replica[k] == front[k]);
        }
    }
}

proof fn lemma_sent(replica: Seq<(FlowKey, u64)>, entries: Seq<FlowEntry>, key: FlowKey)
    requires
        distinct_rows(replica),
    ensures
        distinct_rows(with_sent(replica, entries)),
        (forall|k: int| 0 <= k < entries.len() ==> (#[trigger] entries[k]).key != key) ==> row_of(
            with_sent(replica, entries),
            key,
        ) == row_of(replica, key),
    decreases entries.len(),
{
    if entries.len() > 0 {
        let front = entries.drop_last();
        lemma_sent(replica, front, key);
        let last = entries.last();
        assert(entries[entries.len() - 1] == last);
        law_row_is_found(with_sent(replica, front), last.key, last.value.last_seen_ns, key);
        lemma_row_at(with_sent(replica, front), last.key);
        assert(forall|k: int| 0 <= k < front.len() ==> #[trigger] front[k] == entries[k]);
    }
}

proof fn lemma_sent_at(replica: Seq<(FlowKey, u64)>, entries: Seq<FlowEntry>, i: int)
    requires
        distinct_rows(replica),
        0 <= i < entries.len(),
        forall|k: int| i < k < entries.len() ==> (#[trigger] entries[k]).key != entries[i].key,
    ensures
        row_of(with_sent(replica, entries), entries[i].key) == Some(entries[i].value.last_seen_ns),
    decreases entries.len(),
{
    let front = entries.drop_last();
    let last = entries.last();
    assert(entries[entries.len() - 1] == last);
    law_row_is_found(with_sent(replica, front), last.key, last.value.last_seen_ns, entries[i].key);
    if i < front.len() {
        assert(forall|k: int| 0 <= k < front.len() ==> #[trigger] front[k] == entries[k]);
        lemma_sent_at(replica, front, i);
    }
}

proof fn lemma_gone(replica: Seq<(FlowKey, u64)>, keys: Seq<FlowKey>, key: FlowKey)
    requires
        distinct_rows(replica),
    ensures
        distinct_rows(without_gone(replica, keys)),
        row_of(without_gone(replica, keys), key) == if keys.contains(key) {
            None
        } else {
            row_of(replica, key)
        },
    decreases keys.len(),
{
    if keys.len() > 0 {
        let front = keys.drop_last();
        let rows = without_gone(replica, front);
        lemma_gone(replica, front, key);
        law_row_is_gone(rows, keys.last(), key);
        lemma_row_at(rows, keys.last());
        assert(keys[keys.len() - 1] == keys.last());
        if front.contains(key) {
            let k = choose|k: int| 0 <= k < front.len() && front[k] == key;
            assert(keys[k] == key);
        }
        if keys.contains(key) && key != keys.last() {
            let k = choose|k: int| 0 <= k < keys.len() && keys[k] == key;
            assert(front[k] == key);
        }
    }
}

/// Once the peer accepted every operation of a request it knows the flows that were sent, as
/// they were last seen, and no more the flows that are gone; the others are as they were.
pub proof fn law_accepted_flows_are_known(
    session: SessionView,
    entries: Seq<FlowEntry>,
    gone: Seq<FlowKey>,
    now_ms: u64,
    i: int,
    key: FlowKey,
)
    requires
        distinct_rows(session.replica),
        entries.len() + gone.len() <= 4096,
    ensures
        ({
            let count = (entries.len() + gone.len()) as u64;
            let next = session.after_ack(entries, gone, count, now_ms);
            &&& next.rows == session.rows
            &&& next.reconcile == session.reconcile
            &&& gone.contains(key) ==> row_of(next.replica, key) is None
            &&& !gone.contains(key) && (forall|k: int|
                0 <= k < entries.len() ==> (#[trigger] entries[k]).key != key) ==> row_of(
                next.replica,
                key,
            ) == row_of(session.replica, key)
            &&& 0 <= i < entries.len() && !gone.contains(entries[i].key) && (forall|k: int|
                i < k < entries.len() ==> (#[trigger] entries[k]).key != entries[i].key) ==> row_of(
                next.replica,
                entries[i].key,
            ) == Some(entries[i].value.last_seen_ns)
        }),
{
    let sent = with_sent(session.replica, entries);
    lemma_sent(session.replica, entries, key);
    lemma_gone(sent, gone, key);
    if 0 <= i < entries.len() && (forall|k: int|
        i < k < entries.len() ==> (#[trigger] entries[k]).key != entries[i].key) {
        lemma_sent_at(session.replica, entries, i);
        lemma_gone(sent, gone, entries[i].key);
    }
}

/// Where the peer accepted more or fewer operations than were sent, it is taken to know
/// what it knew before, and the flows are compared again at once and three times more.
pub proof fn law_partial_answers_change_nothing(
    session: SessionView,
    entries: Seq<FlowEntry>,
    gone: Seq<FlowKey>,
    accepted: u64,
    now_ms: u64,
)
    requires
        entries.len() + gone.len() <= 4096,
        accepted != entries.len() + gone.len(),
    ensures
        session.after_ack(entries, gone, accepted, now_ms).replica == session.replica,
        session.after_ack(entries, gone, accepted, now_ms).reconcile.next_at_ms == now_ms,
        session.after_ack(entries, gone, accepted, now_ms).reconcile.recovery_rounds == 3,
{
}

/// A session begins with nothing sent, nothing known and the flows to be compared at once.
pub proof fn law_sessions_begin_empty(now_ms: u64)
    ensures
        fresh_session(now_ms).rows.len() == 0,
        fresh_session(now_ms).replica.len() == 0,
        fresh_session(now_ms).oldest_ms is None,
        fresh_session(now_ms).reconcile.next_at_ms == now_ms,
        fresh_session(now_ms).reconcile.recovery_rounds == 0,
{
}

/// The wait behind a session is twice the one before up to 5 seconds, or up to a limit that
/// is given, which counts as a quarter of a second where it is shorter.
pub proof fn law_waits_double(backoff_ms: u64, limit_ms: u64)
    ensures
        backoff_ms <= 2_500 ==> waits_next(backoff_ms, None) == 2 * backoff_ms,
        backoff_ms > 2_500 ==> waits_next(backoff_ms, None) == 5_000,
        limit_ms >= 250 && 2 * backoff_ms <= limit_ms ==> waits_next(backoff_ms, Some(limit_ms))
            == 2 * backoff_ms,
        limit_ms >= 250 && 2 * backoff_ms > limit_ms ==> waits_next(backoff_ms, Some(limit_ms))
            == limit_ms,
        limit_ms < 250 && backoff_ms >= 125 ==> waits_next(backoff_ms, Some(limit_ms)) == 250,
{
}

/// Comparing all flows gathers what is gone and what is new, and is done again after the usual
/// time; taking changes gathers them.
pub proof fn law_comparing_gathers_the_difference(
    session: SessionView,
    flows: Seq<FlowEntry>,
    mutations: Seq<FlowMutation>,
    now_ms: u64,
    done_ms: u64,
)
    requires
        done_ms <= u64::MAX - 10_000,
    ensures
        ({
            let after = session.after_dump(flows, now_ms, done_ms);
            let taken = session.after_events(mutations, now_ms);
            &&& after.rows == gathered_all(
                gathered_all(session.rows, deletes(gone_flows(session.replica, flows))),
                upserts(changed_flows(flows, session.replica)),
            )
            &&& after.replica == session.replica
            &&& session.reconcile.recovery_rounds == 0 ==> after.reconcile.next_at_ms == done_ms
                + 10_000
            &&& session.reconcile.recovery_rounds > 0 ==> after.reconcile.next_at_ms == done_ms
                + 2_000
            &&& taken.rows == gathered_all(session.rows, mutations)
            &&& taken.replica == session.replica
            &&& taken.reconcile == session.reconcile
            &&& mutations.len() > 0 && session.oldest_ms is None ==> taken.oldest_ms == Some(now_ms)
            &&& session.after_take(now_ms).rows == next_batch(session.rows).left
            &&& session.after_take(now_ms).replica == session.replica
        }),
{
}

} // verus!
