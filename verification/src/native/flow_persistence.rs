//! Keeping flows over a restart of a gateway: what of them is written, and what
//! of a written file still fits the configuration.
use super::flow::{
    age_ns, canonical_flow_pair, directions, flow_age, flow_pair, forward_reverse_keys,
    law_directions_are_found_from_either, law_ports_stand_in_network_order,
    law_replies_come_from_the_target, to_wire, wire_port,
    FlowEntry, FlowKey, FlowValue,
};
use super::model::{NativeListener, NativeProtocol, NativeTarget};
use super::snapshot::{
    encode_snapshot, encoded, Snapshot, SnapshotEntry, SnapshotError, SnapshotView,
};
use crate::bytes::{
    be_bytes, host_bytes, law_host_round_trip, le_bytes, lemma_le_bytes_len, lemma_pow256, push_le,
    ByteOrder,
};
use crate::config::GatewayNode;
use crate::digest::{sha256, sha256_digest};
use crate::net::IpAddr;
use crate::order::{law_sorting_orders, law_sorting_permutes, lex_less, sort, sorted, Ranked};
use crate::text::same_text;
use vstd::prelude::*;

verus! {

/// How many flows go into the kernel at once on a restore.
pub const RESTORE_BATCH_SIZE: usize = 4096;

/// How flows are kept over a restart.
#[derive(Clone, Copy, Debug, PartialEq, Eq, Structural)]
pub struct FlowPersistenceSettings {
    pub enabled: bool,
    pub restore_on_start: bool,
    pub flush_on_shutdown: bool,
    pub interval_secs: u64,
    pub min_remaining_ttl_secs: u64,
    pub max_records: usize,
}

/// What keeping flows came to so far.
#[derive(Clone, Copy, Debug, PartialEq, Eq, Structural)]
pub struct FlowPersistenceStatus {
    pub enabled: bool,
    pub snapshot_records: usize,
    pub snapshot_bytes: u64,
    pub snapshot_duration_ms: u64,
    pub snapshot_errors_total: u64,
    pub restore_records_total: u64,
    pub restore_skipped_expired_total: u64,
    pub restore_skipped_config_total: u64,
    pub restore_skipped_incomplete_total: u64,
    pub restore_duration_ms: u64,
    pub restore_errors_total: u64,
}

/// What writing a file came to.
#[derive(Clone, Copy, Debug, PartialEq, Eq, Structural)]
pub struct SnapshotSummary {
    pub records: usize,
    pub bytes: u64,
    pub duration_ms: u64,
}

/// What restoring a file came to.
#[derive(Clone, Copy, Debug, PartialEq, Eq, Structural)]
pub struct RestoreSummary {
    pub restored_pairs: usize,
    pub skipped_expired: usize,
    pub skipped_config: usize,
    pub skipped_incomplete: usize,
    pub duration_ms: u64,
}

/// Both directions of a flow.
#[derive(Clone, Copy, Debug, PartialEq, Eq, Structural)]
pub struct SnapshotPair {
    pub forward_key: FlowKey,
    pub reverse_key: FlowKey,
    pub value: FlowValue,
    pub last_seen_age_ns: u64,
}

// ---------------------------------------------------------------------------
// Times
// ---------------------------------------------------------------------------

/// A number that does not go above what a counter can hold.
pub open spec fn capped(n: int) -> u64 {
    if n <= u64::MAX {
        n as u64
    } else {
        u64::MAX
    }
}

fn add_capped(a: u64, b: u64) -> (sum: u64)
    ensures
        sum == capped(a + b),
{
    if a <= u64::MAX - b {
        a + b
    } else {
        u64::MAX
    }
}

/// Seconds in nanoseconds.
pub fn secs_to_ns(secs: u64) -> (ns: u64)
    ensures
        ns == capped(secs * 1_000_000_000),
{
    if secs <= 18_446_744_073 {
        secs * 1_000_000_000
    } else {
        u64::MAX
    }
}

/// How long a flow of an age still lives; flows without a timeout live on.
pub open spec fn remaining(age: u64, timeout_secs: u32) -> Option<u64> {
    if timeout_secs == 0 {
        None
    } else if timeout_secs * 1_000_000_000 < age {
        Some(0)
    } else {
        Some((timeout_secs * 1_000_000_000 - age) as u64)
    }
}

/// How long a flow of an age still lives; flows without a timeout live on.
pub fn remaining_ttl_ns(age: u64, timeout_secs: u32) -> (ttl: Option<u64>)
    ensures
        ttl == remaining(age, timeout_secs),
{
    if timeout_secs == 0 {
        return None;
    }
    let limit: u64 = timeout_secs as u64 * 1_000_000_000;
    if limit < age {
        Some(0)
    } else {
        Some(limit - age)
    }
}

/// Whether a flow of an age is over.
pub open spec fn expired(age: u64, timeout_secs: u32) -> bool {
    timeout_secs != 0 && age >= timeout_secs * 1_000_000_000
}

/// Whether a flow of an age is over.
pub fn flow_age_expired(age: u64, timeout_secs: u32) -> (b: bool)
    ensures
        b == expired(age, timeout_secs),
{
    timeout_secs != 0 && age >= timeout_secs as u64 * 1_000_000_000
}

/// The time from one reading of a clock to another; a clock that was set back
/// gives none.
pub fn unix_elapsed_ns(saved_at: u64, now: u64) -> (elapsed: u64)
    ensures
        elapsed == if now >= saved_at {
            (now - saved_at) as u64
        } else {
            0
        },
{
    if now >= saved_at {
        now - saved_at
    } else {
        0
    }
}

/// A reading of the clock in nanoseconds.
pub fn unix_ns(secs: u64, subsec_nanos: u32) -> (ns: u64)
    ensures
        ns == capped(capped(secs * 1_000_000_000) + subsec_nanos),
{
    add_capped(secs_to_ns(secs), subsec_nanos as u64)
}

// ---------------------------------------------------------------------------
// Pairs
// ---------------------------------------------------------------------------

/// The pair that an entry belongs to.
pub open spec fn pair_of(order: ByteOrder, entry: SnapshotEntry) -> (FlowKey, FlowKey) {
    flow_pair(order, entry.key, entry.value)
}

/// The pairs that entries belong to, each once, as they come.
pub open spec fn pairs_of(order: ByteOrder, entries: Seq<SnapshotEntry>) -> Seq<(FlowKey, FlowKey)>
    decreases entries.len(),
{
    if entries.len() == 0 {
        Seq::empty()
    } else {
        let before = pairs_of(order, entries.drop_last());
        let pair = pair_of(order, entries.last());
        if before.contains(pair) {
            before
        } else {
            before.push(pair)
        }
    }
}

/// The entries of a pair.
pub open spec fn members(
    order: ByteOrder,
    entries: Seq<SnapshotEntry>,
    pair: (FlowKey, FlowKey),
) -> Seq<SnapshotEntry>
    decreases entries.len(),
{
    if entries.len() == 0 {
        Seq::empty()
    } else if pair_of(order, entries.last()) == pair {
        members(order, entries.drop_last(), pair).push(entries.last())
    } else {
        members(order, entries.drop_last(), pair)
    }
}

/// Whether entries hold a key.
pub open spec fn has_key(entries: Seq<SnapshotEntry>, key: FlowKey) -> bool {
    exists|i: int| 0 <= i < entries.len() && (#[trigger] entries[i]).key == key
}

/// The entry that was seen last; of several the first.
pub open spec fn youngest(entries: Seq<SnapshotEntry>) -> SnapshotEntry
    decreases entries.len(),
{
    if entries.len() <= 1 {
        entries[0]
    } else {
        let before = youngest(entries.drop_last());
        if entries.last().last_seen_age_ns < before.last_seen_age_ns {
            entries.last()
        } else {
            before
        }
    }
}

/// The flow of a pair whose two directions are both there.
pub open spec fn complete(
    order: ByteOrder,
    pair: (FlowKey, FlowKey),
    entries: Seq<SnapshotEntry>,
) -> Option<SnapshotPair> {
    if pair.0 == pair.1 || !has_key(entries, pair.0) || !has_key(entries, pair.1) {
        None
    } else {
        let entry = youngest(entries);
        let (forward_key, reverse_key) = directions(order, entry.key, entry.value);
        Some(
            SnapshotPair {
                forward_key,
                reverse_key,
                value: entry.value,
                last_seen_age_ns: entry.last_seen_age_ns,
            },
        )
    }
}

fn holds_key(entries: &[SnapshotEntry], key: FlowKey) -> (b: bool)
    ensures
        b == has_key(entries@, key),
{
    let mut i: usize = 0;
    while i < entries.len()
        invariant
            i <= entries.len(),
            forall|j: int| 0 <= j < i ==> (#[trigger] entries@[j]).key != key,
        decreases entries.len() - i,
    {
        if entries[i].key == key {
            assert(entries@[i as int].key == key);
            return true;
        }
        i += 1;
    }
    false
}

fn find_youngest(entries: &[SnapshotEntry]) -> (entry: SnapshotEntry)
    requires
        entries.len() > 0,
    ensures
        entry == youngest(entries@),
{
    let mut best: SnapshotEntry = entries[0];
    let mut i: usize = 1;
    assert(entries@.take(1)[0] == entries@[0]);
    while i < entries.len()
        invariant
            1 <= i <= entries.len(),
            best == youngest(entries@.take(i as int)),
        decreases entries.len() - i,
    {
        assert(entries@.take(i + 1).drop_last() =~= entries@.take(i as int));
        assert(entries@.take(i + 1).last() == entries@[i as int]);
        if entries[i].last_seen_age_ns < best.last_seen_age_ns {
            best = entries[i];
        }
        i += 1;
    }
    assert(entries@.take(entries@.len() as int) =~= entries@);
    best
}

/// The flow of a pair whose two directions are both there.
pub fn pair_from_entries(
    order: ByteOrder,
    left: FlowKey,
    right: FlowKey,
    entries: &[SnapshotEntry],
) -> (pair: Option<SnapshotPair>)
    ensures
        pair == complete(order, (left, right), entries@),
{
    if left == right || !holds_key(entries, left) || !holds_key(entries, right) {
        return None;
    }
    let entry = find_youngest(entries);
    let (forward_key, reverse_key) = forward_reverse_keys(order, entry.key, entry.value);
    Some(
        SnapshotPair {
            forward_key,
            reverse_key,
            value: entry.value,
            last_seen_age_ns: entry.last_seen_age_ns,
        },
    )
}

fn list_pairs(order: ByteOrder, entries: &[SnapshotEntry]) -> (pairs: Vec<(FlowKey, FlowKey)>)
    ensures
        pairs@ == pairs_of(order, entries@),
{
    let mut pairs: Vec<(FlowKey, FlowKey)> = Vec::new();
    let mut i: usize = 0;
    while i < entries.len()
        invariant
            i <= entries.len(),
            pairs@ == pairs_of(order, entries@.take(i as int)),
        decreases entries.len() - i,
    {
        assert(entries@.take(i + 1).drop_last() =~= entries@.take(i as int));
        assert(entries@.take(i + 1).last() == entries@[i as int]);
        let pair = canonical_flow_pair(order, entries[i].key, entries[i].value);
        let mut known = false;
        let mut j: usize = 0;
        while j < pairs.len() && !known
            invariant
                j <= pairs.len(),
                known ==> pairs@.contains(pair),
                !known ==> forall|k: int| 0 <= k < j ==> pairs@[k] != pair,
            decreases pairs.len() - j,
        {
            if pairs[j].0 == pair.0 && pairs[j].1 == pair.1 {
                assert(pairs@[j as int] == pair);
                known = true;
            }
            j += 1;
        }
        if !known {
            pairs.push(pair);
        }
        i += 1;
    }
    assert(entries@.take(entries@.len() as int) =~= entries@);
    pairs
}

fn list_members(order: ByteOrder, entries: &[SnapshotEntry], pair: (FlowKey, FlowKey)) -> (out: Vec<
    SnapshotEntry,
>)
    ensures
        out@ == members(order, entries@, pair),
{
    let mut out: Vec<SnapshotEntry> = Vec::new();
    let mut i: usize = 0;
    while i < entries.len()
        invariant
            i <= entries.len(),
            out@ == members(order, entries@.take(i as int), pair),
        decreases entries.len() - i,
    {
        assert(entries@.take(i + 1).drop_last() =~= entries@.take(i as int));
        assert(entries@.take(i + 1).last() == entries@[i as int]);
        let own = canonical_flow_pair(order, entries[i].key, entries[i].value);
        if own.0 == pair.0 && own.1 == pair.1 {
            out.push(entries[i]);
        }
        i += 1;
    }
    assert(entries@.take(entries@.len() as int) =~= entries@);
    out
}

/// The flows of pairs, `None` for a pair that lacks a direction.
pub open spec fn flows_of(
    order: ByteOrder,
    entries: Seq<SnapshotEntry>,
    pairs: Seq<(FlowKey, FlowKey)>,
) -> Seq<Option<SnapshotPair>> {
    pairs.map_values(|pair: (FlowKey, FlowKey)| complete(order, pair, members(order, entries, pair)))
}

/// The flows of entries, `None` for a pair that lacks a direction.
pub fn collect_restore_pairs(order: ByteOrder, entries: &[SnapshotEntry]) -> (flows: Vec<
    Option<SnapshotPair>,
>)
    ensures
        flows@ == flows_of(order, entries@, pairs_of(order, entries@)),
{
    let pairs = list_pairs(order, entries);
    let ghost all = flows_of(order, entries@, pairs@);
    let mut flows: Vec<Option<SnapshotPair>> = Vec::new();
    let mut i: usize = 0;
    while i < pairs.len()
        invariant
            i <= pairs.len(),
            all == flows_of(order, entries@, pairs@),
            flows@ == all.take(i as int),
        decreases pairs.len() - i,
    {
        let own = list_members(order, entries, pairs[i]);
        let flow = pair_from_entries(order, pairs[i].0, pairs[i].1, own.as_slice());
        assert((pairs@[i as int].0, pairs@[i as int].1) == pairs@[i as int]);
        assert(flow == all[i as int]);
        flows.push(flow);
        i += 1;
        assert(flows@ =~= all.take(i as int));
    }
    assert(all.take(all.len() as int) =~= all);
    flows
}

// ---------------------------------------------------------------------------
// What is written
// ---------------------------------------------------------------------------

/// The flows that live long enough, with their ages.
pub open spec fn lasting(flows: Seq<FlowEntry>, now_ns: u64, min_remaining_ns: u64) -> Seq<
    SnapshotEntry,
>
    decreases flows.len(),
{
    if flows.len() == 0 {
        Seq::empty()
    } else {
        let before = lasting(flows.drop_last(), now_ns, min_remaining_ns);
        let flow = flows.last();
        let age = age_ns(flow.value.last_seen_ns, now_ns);
        match remaining(age, flow.value.timeout_secs) {
            Some(ttl) => if ttl < min_remaining_ns {
                before
            } else {
                before.push(
                    SnapshotEntry { key: flow.key, value: flow.value, last_seen_age_ns: age },
                )
            },
            None => before.push(
                SnapshotEntry { key: flow.key, value: flow.value, last_seen_age_ns: age },
            ),
        }
    }
}

/// The flows that have both directions.
pub open spec fn completed(flows: Seq<Option<SnapshotPair>>) -> Seq<SnapshotPair>
    decreases flows.len(),
{
    if flows.len() == 0 {
        Seq::empty()
    } else {
        match flows.last() {
            Some(pair) => completed(flows.drop_last()).push(pair),
            None => completed(flows.drop_last()),
        }
    }
}

impl Ranked for SnapshotPair {
    open spec fn rank(&self) -> Seq<int> {
        seq![self.last_seen_age_ns as int]
    }

    fn comes_before(&self, other: &Self) -> (b: bool) {
        proof {
            reveal_with_fuel(lex_less, 2);
        }
        self.last_seen_age_ns < other.last_seen_age_ns
    }
}

/// The flows to write, those seen last first.
pub open spec fn recent_pairs(
    order: ByteOrder,
    flows: Seq<FlowEntry>,
    now_ns: u64,
    settings: FlowPersistenceSettings,
) -> Seq<SnapshotPair> {
    let entries = lasting(flows, now_ns, capped(settings.min_remaining_ttl_secs * 1_000_000_000));
    sorted(completed(flows_of(order, entries, pairs_of(order, entries))))
}

/// The flows to write: those seen last, at most as many as the settings allow.
pub open spec fn kept_pairs(
    order: ByteOrder,
    flows: Seq<FlowEntry>,
    now_ns: u64,
    settings: FlowPersistenceSettings,
) -> Seq<SnapshotPair> {
    let all = recent_pairs(order, flows, now_ns, settings);
    if all.len() <= settings.max_records {
        all
    } else {
        all.take(settings.max_records as int)
    }
}

fn list_lasting(flows: &[FlowEntry], now_ns: u64, min_remaining_ns: u64) -> (entries: Vec<
    SnapshotEntry,
>)
    ensures
        entries@ == lasting(flows@, now_ns, min_remaining_ns),
{
    let mut entries: Vec<SnapshotEntry> = Vec::new();
    let mut i: usize = 0;
    while i < flows.len()
        invariant
            i <= flows.len(),
            entries@ == lasting(flows@.take(i as int), now_ns, min_remaining_ns),
        decreases flows.len() - i,
    {
        assert(flows@.take(i + 1).drop_last() =~= flows@.take(i as int));
        assert(flows@.take(i + 1).last() == flows@[i as int]);
        let flow = flows[i];
        let age: u64 = flow_age(flow.value.last_seen_ns, now_ns);
        let short = match remaining_ttl_ns(age, flow.value.timeout_secs) {
            Some(ttl) => ttl < min_remaining_ns,
            None => false,
        };
        if !short {
            entries.push(
                SnapshotEntry { key: flow.key, value: flow.value, last_seen_age_ns: age },
            );
        }
        i += 1;
    }
    assert(flows@.take(flows@.len() as int) =~= flows@);
    entries
}

fn list_completed(flows: &[Option<SnapshotPair>]) -> (pairs: Vec<SnapshotPair>)
    ensures
        pairs@ == completed(flows@),
{
    let mut pairs: Vec<SnapshotPair> = Vec::new();
    let mut i: usize = 0;
    while i < flows.len()
        invariant
            i <= flows.len(),
            pairs@ == completed(flows@.take(i as int)),
        decreases flows.len() - i,
    {
        assert(flows@.take(i + 1).drop_last() =~= flows@.take(i as int));
        assert(flows@.take(i + 1).last() == flows@[i as int]);
        if let Some(pair) = flows[i] {
            pairs.push(pair);
        }
        i += 1;
    }
    assert(flows@.take(flows@.len() as int) =~= flows@);
    pairs
}

/// The flows to write: those with both directions that live long enough, those
/// seen last first, at most as many as the settings allow.
pub fn collect_snapshot_pairs(
    order: ByteOrder,
    flows: &[FlowEntry],
    now_ns: u64,
    settings: &FlowPersistenceSettings,
) -> (pairs: Vec<SnapshotPair>)
    ensures
        pairs@ == kept_pairs(order, flows@, now_ns, *settings),
{
    let min_remaining_ns: u64 = secs_to_ns(settings.min_remaining_ttl_secs);
    let entries = list_lasting(flows, now_ns, min_remaining_ns);
    let all = collect_restore_pairs(order, entries.as_slice());
    let mut pairs = list_completed(all.as_slice());
    sort(&mut pairs);
    pairs.truncate(settings.max_records);
    pairs
}

/// Both directions of flows.
pub open spec fn pair_entries(pairs: Seq<SnapshotPair>) -> Seq<SnapshotEntry>
    decreases pairs.len(),
{
    if pairs.len() == 0 {
        Seq::empty()
    } else {
        let pair = pairs.last();
        pair_entries(pairs.drop_last()).push(
            SnapshotEntry {
                key: pair.forward_key,
                value: pair.value,
                last_seen_age_ns: pair.last_seen_age_ns,
            },
        ).push(
            SnapshotEntry {
                key: pair.reverse_key,
                value: pair.value,
                last_seen_age_ns: pair.last_seen_age_ns,
            },
        )
    }
}

/// Both directions of flows.
pub fn snapshot_entries_from_pairs(pairs: &[SnapshotPair]) -> (entries: Vec<SnapshotEntry>)
    ensures
        entries@ == pair_entries(pairs@),
{
    let mut entries: Vec<SnapshotEntry> = Vec::new();
    let mut i: usize = 0;
    while i < pairs.len()
        invariant
            i <= pairs.len(),
            entries@ == pair_entries(pairs@.take(i as int)),
        decreases pairs.len() - i,
    {
        assert(pairs@.take(i + 1).drop_last() =~= pairs@.take(i as int));
        assert(pairs@.take(i + 1).last() == pairs@[i as int]);
        let pair = pairs[i];
        entries.push(
            SnapshotEntry {
                key: pair.forward_key,
                value: pair.value,
                last_seen_age_ns: pair.last_seen_age_ns,
            },
        );
        entries.push(
            SnapshotEntry {
                key: pair.reverse_key,
                value: pair.value,
                last_seen_age_ns: pair.last_seen_age_ns,
            },
        );
        i += 1;
    }
    assert(pairs@.take(pairs@.len() as int) =~= pairs@);
    entries
}

// ---------------------------------------------------------------------------
// The configuration in short
// ---------------------------------------------------------------------------

/// A listener with the number that the datapath knows it by.
#[derive(Clone, Debug)]
pub struct ListenerAssignment {
    pub listener_id: u32,
    pub listener: NativeListener,
}

/// The number of a protocol in an IP header.
pub open spec fn proto_number(protocol: NativeProtocol) -> u8 {
    match protocol {
        NativeProtocol::Tcp => 6,
        NativeProtocol::Udp => 17,
    }
}

/// The bytes of targets that are digested.
pub open spec fn target_bytes(targets: Seq<NativeTarget>) -> Seq<u8>
    decreases targets.len(),
{
    if targets.len() == 0 {
        Seq::empty()
    } else {
        target_bytes(targets.drop_last()) + le_bytes(targets.last().address as nat, 4) + le_bytes(
            targets.last().port as nat,
            2,
        )
    }
}

/// The bytes of a listener that are digested.
pub open spec fn listener_bytes(assignment: ListenerAssignment) -> Seq<u8> {
    let key = assignment.listener.key;
    le_bytes(assignment.listener_id as nat, 4) + le_bytes(key.vip_ip as nat, 4) + le_bytes(
        key.vip_port as nat,
        2,
    ) + le_bytes(proto_number(key.protocol) as nat, 1) + le_bytes(
        (assignment.listener.targets@.len() as u32) as nat,
        4,
    ) + target_bytes(assignment.listener.targets@)
}

/// The bytes of listeners that are digested.
pub open spec fn config_bytes(assignments: Seq<ListenerAssignment>) -> Seq<u8>
    decreases assignments.len(),
{
    if assignments.len() == 0 {
        Seq::empty()
    } else {
        config_bytes(assignments.drop_last()) + listener_bytes(assignments.last())
    }
}

fn push_targets(out: &mut Vec<u8>, targets: &[NativeTarget])
    ensures
        final(out)@ == old(out)@ + target_bytes(targets@),
{
    let ghost start = out@;
    let mut i: usize = 0;
    assert(start + target_bytes(targets@.take(0)) =~= start);
    while i < targets.len()
        invariant
            i <= targets.len(),
            out@ == start + target_bytes(targets@.take(i as int)),
        decreases targets.len() - i,
    {
        let ghost done = targets@.take(i as int);
        assert(targets@.take(i + 1).drop_last() =~= done);
        assert(targets@.take(i + 1).last() == targets@[i as int]);
        push_le(out, targets[i].address as u64, 4);
        push_le(out, targets[i].port as u64, 2);
        assert(out@ =~= start + target_bytes(targets@.take(i + 1)));
        i += 1;
    }
    assert(targets@.take(targets@.len() as int) =~= targets@);
}

fn push_listener(out: &mut Vec<u8>, assignment: &ListenerAssignment)
    ensures
        final(out)@ == old(out)@ + listener_bytes(*assignment),
{
    let listener = &assignment.listener;
    let proto: u8 = listener.key.protocol.ip_proto();
    let count: u32 = #[verifier::truncate] (listener.targets.len() as u32);
    push_le(out, assignment.listener_id as u64, 4);
    push_le(out, listener.key.vip_ip as u64, 4);
    push_le(out, listener.key.vip_port as u64, 2);
    push_le(out, proto as u64, 1);
    push_le(out, count as u64, 4);
    push_targets(out, listener.targets.as_slice());
    assert(out@ =~= old(out)@ + listener_bytes(*assignment));
}

/// A digest of the listeners and their targets.
pub fn config_digest(assignments: &[ListenerAssignment]) -> (digest: [u8; 32])
    ensures
        digest@ == sha256(config_bytes(assignments@)),
{
    let mut out: Vec<u8> = Vec::new();
    let mut i: usize = 0;
    while i < assignments.len()
        invariant
            i <= assignments.len(),
            out@ == config_bytes(assignments@.take(i as int)),
        decreases assignments.len() - i,
    {
        assert(assignments@.take(i + 1).drop_last() =~= assignments@.take(i as int));
        assert(assignments@.take(i + 1).last() == assignments@[i as int]);
        push_listener(&mut out, &assignments[i]);
        i += 1;
    }
    assert(assignments@.take(assignments@.len() as int) =~= assignments@);
    sha256_digest(out.as_slice())
}

// ---------------------------------------------------------------------------
// Writing
// ---------------------------------------------------------------------------

/// What to do for a snapshot.
#[derive(Clone, Debug)]
pub enum SnapshotStep {
    /// Keeping flows is switched off.
    Disabled,
    /// There are no flows: a file that is there stays.
    Keep,
    Write { records: usize, bytes: Vec<u8> },
}

/// The file to write.
pub open spec fn next_file(
    pairs: Seq<SnapshotPair>,
    assignments: Seq<ListenerAssignment>,
    node_name: Seq<char>,
    saved_at_unix_ns: u64,
) -> SnapshotView {
    SnapshotView {
        saved_at_unix_ns,
        node_name,
        config_digest: sha256(config_bytes(assignments)),
        entries: pair_entries(pairs),
    }
}

/// Decides what to do for a snapshot. `flows` are those of the kernel at
/// `now_ns`; `present` says that there is a file already. The status says from
/// then on whether keeping flows is switched on.
pub fn write_snapshot(
    status: &mut FlowPersistenceStatus,
    order: ByteOrder,
    settings: &FlowPersistenceSettings,
    flows: &[FlowEntry],
    now_ns: u64,
    assignments: &[ListenerAssignment],
    node_name: &str,
    saved_at_unix_ns: u64,
    present: bool,
) -> (step: Result<SnapshotStep, SnapshotError>)
    ensures
        *final(status) == (FlowPersistenceStatus { enabled: settings.enabled, ..*old(status) }),
        ({
            let pairs = kept_pairs(order, flows@, now_ns, *settings);
            let file = next_file(pairs, assignments@, node_name@, saved_at_unix_ns);
            if !settings.enabled {
                step == Ok::<SnapshotStep, SnapshotError>(SnapshotStep::Disabled)
            } else if pairs.len() == 0 && present {
                step == Ok::<SnapshotStep, SnapshotError>(SnapshotStep::Keep)
            } else {
                match (step, encoded(file)) {
                    (Ok(SnapshotStep::Write { records, bytes }), Ok(list)) => records
                        == pairs.len() && bytes@ == list,
                    (Err(error), Err(fault)) => error == fault,
                    _ => false,
                }
            }
        }),
{
    status.record_settings(settings);
    if !settings.enabled {
        return Ok(SnapshotStep::Disabled);
    }
    let pairs = collect_snapshot_pairs(order, flows, now_ns, settings);
    if pairs.len() == 0 && present {
        return Ok(SnapshotStep::Keep);
    }
    let snapshot = Snapshot {
        saved_at_unix_ns,
        node_name: String::from_str(node_name),
        config_digest: config_digest(assignments),
        entries: snapshot_entries_from_pairs(pairs.as_slice()),
    };
    match encode_snapshot(&snapshot) {
        Ok(bytes) => Ok(SnapshotStep::Write { records: pairs.len(), bytes }),
        Err(error) => Err(error),
    }
}

/// How often a file is written, in seconds.
pub fn snapshot_interval_secs(settings: &FlowPersistenceSettings) -> (secs: u64)
    ensures
        secs == if settings.interval_secs < 5 {
            5
        } else {
            settings.interval_secs
        },
{
    if settings.interval_secs < 5 {
        5
    } else {
        settings.interval_secs
    }
}

/// How often the worker writes a file, in seconds; where keeping flows is switched off
/// there is no worker. The status says from then on which it is.
pub fn spawn_worker(status: &mut FlowPersistenceStatus, settings: &FlowPersistenceSettings) -> (secs:
    Option<u64>)
    ensures
        *final(status) == (FlowPersistenceStatus { enabled: settings.enabled, ..*old(status) }),
        secs == if !settings.enabled {
            None::<u64>
        } else if settings.interval_secs < 5 {
            Some(5u64)
        } else {
            Some(settings.interval_secs)
        },
{
    status.record_settings(settings);
    if settings.enabled {
        Some(snapshot_interval_secs(settings))
    } else {
        None
    }
}

/// Whether to write a file on the way out.
pub fn flush_on_shutdown(settings: &FlowPersistenceSettings) -> (flush: bool)
    ensures
        flush == (settings.enabled && settings.flush_on_shutdown),
{
    settings.enabled && settings.flush_on_shutdown
}

// ---------------------------------------------------------------------------
// Restoring
// ---------------------------------------------------------------------------

/// Whether a listener is the one of a flow.
pub open spec fn fits(
    order: ByteOrder,
    listener: NativeListener,
    forward_key: FlowKey,
    value: FlowValue,
) -> bool {
    &&& listener.key.vip_ip == value.vip
    &&& wire_port(order, listener.key.vip_port) == value.vip_port
    &&& forward_key.dst == value.vip
    &&& forward_key.dport == value.vip_port
    &&& forward_key.proto == proto_number(listener.key.protocol)
}

/// Whether a listener is the one of a flow.
pub fn listener_matches(
    order: ByteOrder,
    listener: &NativeListener,
    forward_key: FlowKey,
    value: FlowValue,
) -> (b: bool)
    ensures
        b == fits(order, *listener, forward_key, value),
{
    listener.key.vip_ip == value.vip && to_wire(order, listener.key.vip_port) == value.vip_port
        && forward_key.dst == value.vip && forward_key.dport == value.vip_port && forward_key.proto
        == listener.key.protocol.ip_proto()
}

/// Where the last listener with a number stands.
pub open spec fn last_with_id(assignments: Seq<ListenerAssignment>, id: u32) -> Option<int>
    decreases assignments.len(),
{
    if assignments.len() == 0 {
        None
    } else if assignments.last().listener_id == id {
        Some(assignments.len() - 1)
    } else {
        last_with_id(assignments.drop_last(), id)
    }
}

/// Whether a listener answers on the address of a flow.
pub open spec fn at_socket(
    order: ByteOrder,
    listener: NativeListener,
    vip: u32,
    vip_port: u16,
    proto: u8,
) -> bool {
    listener.key.vip_ip == vip && wire_port(order, listener.key.vip_port) == vip_port
        && proto_number(listener.key.protocol) == proto
}

/// Where the last listener that answers on the address of a flow stands.
pub open spec fn last_at_socket(
    order: ByteOrder,
    assignments: Seq<ListenerAssignment>,
    vip: u32,
    vip_port: u16,
    proto: u8,
) -> Option<int>
    decreases assignments.len(),
{
    if assignments.len() == 0 {
        None
    } else if at_socket(order, assignments.last().listener, vip, vip_port, proto) {
        Some(assignments.len() - 1)
    } else {
        last_at_socket(order, assignments.drop_last(), vip, vip_port, proto)
    }
}

/// The listener of a flow: the one of its number, where that is still the same,
/// else the one that answers on its address.
pub open spec fn listener_of(
    order: ByteOrder,
    assignments: Seq<ListenerAssignment>,
    forward_key: FlowKey,
    value: FlowValue,
) -> Option<ListenerAssignment> {
    let by_id = last_with_id(assignments, value.listener_id);
    if by_id is Some && fits(order, assignments[by_id.unwrap()].listener, forward_key, value) {
        Some(assignments[by_id.unwrap()])
    } else {
        let by_socket = last_at_socket(
            order,
            assignments,
            value.vip,
            value.vip_port,
            forward_key.proto,
        );
        if by_socket is Some && fits(
            order,
            assignments[by_socket.unwrap()].listener,
            forward_key,
            value,
        ) {
            Some(assignments[by_socket.unwrap()])
        } else {
            None
        }
    }
}

/// The first target with the address and port of a flow.
pub open spec fn target_at(targets: Seq<NativeTarget>, value: FlowValue) -> Option<int>
    decreases targets.len(),
{
    if targets.len() == 0 {
        None
    } else {
        match target_at(targets.drop_last(), value) {
            Some(i) => Some(i),
            None => if targets.last().address == value.target && targets.last().port
                == value.target_port {
                Some(targets.len() - 1)
            } else {
                None
            },
        }
    }
}

/// The target of a flow: the one with its address and port, else the one with its
/// number, where that has the same port.
pub open spec fn target_of(targets: Seq<NativeTarget>, value: FlowValue) -> Option<int> {
    match target_at(targets, value) {
        Some(i) => Some(i),
        None => if value.target_id < targets.len() && targets[value.target_id as int].port
            == value.target_port {
            Some(value.target_id as int)
        } else {
            None
        },
    }
}

/// A flow as the configuration now has it.
pub open spec fn remapped(
    order: ByteOrder,
    assignments: Seq<ListenerAssignment>,
    forward_key: FlowKey,
    value: FlowValue,
    age: u64,
    now_ns: u64,
) -> Option<FlowValue> {
    match listener_of(order, assignments, forward_key, value) {
        None => None,
        Some(assignment) => match target_of(assignment.listener.targets@, value) {
            None => None,
            Some(i) => Some(
                FlowValue {
                    listener_id: assignment.listener_id,
                    target_id: i as u32,
                    target: assignment.listener.targets@[i].address,
                    target_port: assignment.listener.targets@[i].port,
                    last_seen_ns: if now_ns >= age {
                        (now_ns - age) as u64
                    } else {
                        0
                    },
                    ..value
                },
            ),
        },
    }
}

fn find_id(assignments: &[ListenerAssignment], id: u32) -> (at: Option<usize>)
    ensures
        match at {
            Some(i) => i < assignments.len() && last_with_id(assignments@, id) == Some(i as int),
            None => last_with_id(assignments@, id) is None,
        },
{
    let mut i: usize = assignments.len();
    assert(assignments@.take(i as int) =~= assignments@);
    while i > 0
        invariant
            i <= assignments.len(),
            last_with_id(assignments@, id) == last_with_id(assignments@.take(i as int), id),
        decreases i,
    {
        assert(assignments@.take(i as int).drop_last() =~= assignments@.take(i - 1));
        i -= 1;
        if assignments[i].listener_id == id {
            return Some(i);
        }
    }
    None
}

fn find_socket(
    order: ByteOrder,
    assignments: &[ListenerAssignment],
    vip: u32,
    vip_port: u16,
    proto: u8,
) -> (at: Option<usize>)
    ensures
        match at {
            Some(i) => i < assignments.len() && last_at_socket(
                order,
                assignments@,
                vip,
                vip_port,
                proto,
            ) == Some(i as int),
            None => last_at_socket(order, assignments@, vip, vip_port, proto) is None,
        },
{
    let mut i: usize = assignments.len();
    assert(assignments@.take(i as int) =~= assignments@);
    while i > 0
        invariant
            i <= assignments.len(),
            last_at_socket(order, assignments@, vip, vip_port, proto) == last_at_socket(
                order,
                assignments@.take(i as int),
                vip,
                vip_port,
                proto,
            ),
        decreases i,
    {
        assert(assignments@.take(i as int).drop_last() =~= assignments@.take(i - 1));
        i -= 1;
        let key = assignments[i].listener.key;
        if key.vip_ip == vip && to_wire(order, key.vip_port) == vip_port && key.protocol.ip_proto()
            == proto {
            return Some(i);
        }
    }
    None
}

fn find_listener(
    order: ByteOrder,
    assignments: &[ListenerAssignment],
    forward_key: FlowKey,
    value: FlowValue,
) -> (at: Option<usize>)
    ensures
        match at {
            Some(i) => i < assignments.len() && listener_of(
                order,
                assignments@,
                forward_key,
                value,
            ) == Some(assignments@[i as int]),
            None => listener_of(order, assignments@, forward_key, value) is None,
        },
{
    if let Some(i) = find_id(assignments, value.listener_id) {
        if listener_matches(order, &assignments[i].listener, forward_key, value) {
            return Some(i);
        }
    }
    match find_socket(order, assignments, value.vip, value.vip_port, forward_key.proto) {
        Some(i) => if listener_matches(order, &assignments[i].listener, forward_key, value) {
            Some(i)
        } else {
            None
        },
        None => None,
    }
}

proof fn lemma_target_stays(targets: Seq<NativeTarget>, value: FlowValue, n: int)
    requires
        0 <= n <= targets.len(),
        target_at(targets.take(n), value) is Some,
    ensures
        target_at(targets, value) == target_at(targets.take(n), value),
    decreases targets.len() - n,
{
    if n < targets.len() {
        assert(targets.take(n + 1).drop_last() =~= targets.take(n));
        lemma_target_stays(targets, value, n + 1);
    } else {
        assert(targets.take(n) =~= targets);
    }
}

fn find_target(targets: &[NativeTarget], value: FlowValue) -> (at: Option<usize>)
    ensures
        match at {
            Some(i) => i < targets.len() && target_of(targets@, value) == Some(i as int),
            None => target_of(targets@, value) is None,
        },
{
    let mut i: usize = 0;
    while i < targets.len()
        invariant
            i <= targets.len(),
            target_at(targets@.take(i as int), value) is None,
        decreases targets.len() - i,
    {
        assert(targets@.take(i + 1).drop_last() =~= targets@.take(i as int));
        if targets[i].address == value.target && targets[i].port == value.target_port {
            proof {
                lemma_target_stays(targets@, value, i + 1);
            }
            return Some(i);
        }
        i += 1;
    }
    assert(targets@.take(targets@.len() as int) =~= targets@);
    let id: usize = value.target_id as usize;
    if id < targets.len() && targets[id].port == value.target_port {
        Some(id)
    } else {
        None
    }
}

/// A flow as the configuration now has it: its listener and target may have other
/// numbers than when the file was written, and the target another address.
pub fn remap_value(
    order: ByteOrder,
    assignments: &[ListenerAssignment],
    forward_key: FlowKey,
    value: FlowValue,
    age: u64,
    now_ns: u64,
) -> (out: Option<FlowValue>)
    ensures
        out == remapped(order, assignments@, forward_key, value, age, now_ns),
{
    let at = match find_listener(order, assignments, forward_key, value) {
        Some(at) => at,
        None => {
            return None;
        },
    };
    let assignment = &assignments[at];
    match find_target(assignment.listener.targets.as_slice(), value) {
        None => None,
        Some(i) => {
            let target = assignment.listener.targets[i];
            let last_seen_ns: u64 = if now_ns >= age {
                now_ns - age
            } else {
                0
            };
            let target_id: u32 = #[verifier::truncate] (i as u32);
            Some(
                FlowValue {
                    listener_id: assignment.listener_id,
                    target_id,
                    target: target.address,
                    target_port: target.port,
                    last_seen_ns,
                    vip: value.vip,
                    vip_port: value.vip_port,
                    timeout_secs: value.timeout_secs,
                },
            )
        },
    }
}

/// What to put back into the kernel.
#[derive(Clone, Debug)]
pub struct RestorePlan {
    pub entries: Vec<FlowEntry>,
    pub summary: RestoreSummary,
}

/// What to put back into the kernel, as plain values.
pub struct RestoreView {
    pub entries: Seq<FlowEntry>,
    pub restored: nat,
    pub expired: nat,
    pub config: nat,
    pub incomplete: nat,
}

/// What restoring flows comes to: a flow goes back with both directions, unless
/// one was missing in the file, it is over by now, or the configuration no longer
/// has its listener and target.
pub open spec fn restored(
    order: ByteOrder,
    flows: Seq<Option<SnapshotPair>>,
    assignments: Seq<ListenerAssignment>,
    elapsed_ns: u64,
    now_ns: u64,
) -> RestoreView
    decreases flows.len(),
{
    if flows.len() == 0 {
        RestoreView { entries: Seq::empty(), restored: 0, expired: 0, config: 0, incomplete: 0 }
    } else {
        let before = restored(order, flows.drop_last(), assignments, elapsed_ns, now_ns);
        match flows.last() {
            None => RestoreView { incomplete: before.incomplete + 1, ..before },
            Some(pair) => {
                let age = capped(pair.last_seen_age_ns + elapsed_ns);
                if expired(age, pair.value.timeout_secs) {
                    RestoreView { expired: before.expired + 1, ..before }
                } else {
                    match remapped(
                        order,
                        assignments,
                        pair.forward_key,
                        pair.value,
                        age,
                        now_ns,
                    ) {
                        None => RestoreView { config: before.config + 1, ..before },
                        Some(value) => RestoreView {
                            entries: before.entries.push(
                                FlowEntry { key: pair.forward_key, value },
                            ).push(
                                FlowEntry { key: pair.forward_key.reverse(order, value), value },
                            ),
                            restored: before.restored + 1,
                            ..before
                        },
                    }
                }
            },
        }
    }
}

/// What restoring a file comes to.
pub open spec fn restored_file(
    order: ByteOrder,
    snapshot: SnapshotView,
    assignments: Seq<ListenerAssignment>,
    now_unix_ns: u64,
    now_ns: u64,
) -> RestoreView {
    restored(
        order,
        flows_of(order, snapshot.entries, pairs_of(order, snapshot.entries)),
        assignments,
        if now_unix_ns >= snapshot.saved_at_unix_ns {
            (now_unix_ns - snapshot.saved_at_unix_ns) as u64
        } else {
            0
        },
        now_ns,
    )
}

fn restore_flow(
    plan: &mut RestorePlan,
    order: ByteOrder,
    pair: SnapshotPair,
    assignments: &[ListenerAssignment],
    elapsed_ns: u64,
    now_ns: u64,
)
    requires
        old(plan).summary.restored_pairs < usize::MAX,
        old(plan).summary.skipped_expired < usize::MAX,
        old(plan).summary.skipped_config < usize::MAX,
    ensures
        ({
            let before = old(plan).summary;
            let after = final(plan).summary;
            let age = capped(pair.last_seen_age_ns + elapsed_ns);
            &&& after.duration_ms == before.duration_ms
            &&& after.skipped_incomplete == before.skipped_incomplete
            &&& if expired(age, pair.value.timeout_secs) {
                &&& final(plan).entries@ == old(plan).entries@
                &&& after.skipped_expired == before.skipped_expired + 1
                &&& after.skipped_config == before.skipped_config
                &&& after.restored_pairs == before.restored_pairs
            } else {
                &&& after.skipped_expired == before.skipped_expired
                &&& match remapped(
                    order,
                    assignments@,
                    pair.forward_key,
                    pair.value,
                    age,
                    now_ns,
                ) {
                    None => {
                        &&& final(plan).entries@ == old(plan).entries@
                        &&& after.skipped_config == before.skipped_config + 1
                        &&& after.restored_pairs == before.restored_pairs
                    },
                    Some(value) => {
                        &&& final(plan).entries@ == old(plan).entries@.push(
                            FlowEntry { key: pair.forward_key, value },
                        ).push(FlowEntry { key: pair.forward_key.reverse(order, value), value })
                        &&& after.skipped_config == before.skipped_config
                        &&& after.restored_pairs == before.restored_pairs + 1
                    },
                }
            }
        }),
{
    let age: u64 = add_capped(pair.last_seen_age_ns, elapsed_ns);
    if flow_age_expired(age, pair.value.timeout_secs) {
        plan.summary.skipped_expired = plan.summary.skipped_expired + 1;
        return ;
    }
    match remap_value(order, assignments, pair.forward_key, pair.value, age, now_ns) {
        None => {
            plan.summary.skipped_config = plan.summary.skipped_config + 1;
        },
        Some(value) => {
            plan.entries.push(FlowEntry { key: pair.forward_key, value });
            plan.entries.push(
                FlowEntry { key: pair.forward_key.reverse_for(order, value), value },
            );
            plan.summary.restored_pairs = plan.summary.restored_pairs + 1;
        },
    }
}

/// Decides what of a file to put back into the kernel.
pub fn restore_snapshot(
    order: ByteOrder,
    snapshot: &Snapshot,
    assignments: &[ListenerAssignment],
    now_unix_ns: u64,
    now_ns: u64,
) -> (plan: RestorePlan)
    ensures
        ({
            let view = restored_file(order, snapshot@, assignments@, now_unix_ns, now_ns);
            &&& plan.entries@ == view.entries
            &&& plan.summary.restored_pairs == view.restored
            &&& plan.summary.skipped_expired == view.expired
            &&& plan.summary.skipped_config == view.config
            &&& plan.summary.skipped_incomplete == view.incomplete
            &&& plan.summary.duration_ms == 0
        }),
{
    let elapsed_ns: u64 = unix_elapsed_ns(snapshot.saved_at_unix_ns, now_unix_ns);
    let flows = collect_restore_pairs(order, snapshot.entries.as_slice());
    let mut plan = RestorePlan {
        entries: Vec::new(),
        summary: RestoreSummary {
            restored_pairs: 0,
            skipped_expired: 0,
            skipped_config: 0,
            skipped_incomplete: 0,
            duration_ms: 0,
        },
    };
    let mut i: usize = 0;
    while i < flows.len()
        invariant
            i <= flows.len(),
            ({
                let view = restored(
                    order,
                    flows@.take(i as int),
                    assignments@,
                    elapsed_ns,
                    now_ns,
                );
                &&& plan.entries@ == view.entries
                &&& plan.summary.restored_pairs == view.restored
                &&& plan.summary.skipped_expired == view.expired
                &&& plan.summary.skipped_config == view.config
                &&& plan.summary.skipped_incomplete == view.incomplete
                &&& plan.summary.duration_ms == 0
                &&& view.restored + view.expired + view.config + view.incomplete == i
            }),
        decreases flows.len() - i,
    {
        assert(flows@.take(i + 1).drop_last() =~= flows@.take(i as int));
        assert(flows@.take(i + 1).last() == flows@[i as int]);
        match flows[i] {
            None => {
                plan.summary.skipped_incomplete = plan.summary.skipped_incomplete + 1;
            },
            Some(pair) => restore_flow(&mut plan, order, pair, assignments, elapsed_ns, now_ns),
        }
        i += 1;
    }
    assert(flows@.take(flows@.len() as int) =~= flows@);
    plan
}

/// Whether this node is the active gateway; without one it is.
pub fn is_active_gateway(active: &Option<GatewayNode>, node_name: &str, underlay_ip: IpAddr) -> (b:
    bool)
    ensures
        b == (match *active {
            Some(gateway) => gateway.name@ == node_name@ || gateway.underlay_ip == underlay_ip,
            None => true,
        }),
{
    match active {
        Some(gateway) => same_text(gateway.name.as_str(), node_name) || gateway.underlay_ip
            == underlay_ip,
        None => true,
    }
}

/// What to do about a file when a gateway starts.
#[derive(Clone, Copy, Debug, PartialEq, Eq, Structural)]
pub enum RestoreStep {
    /// Restoring is switched off.
    Disabled,
    /// Another gateway is active: the file is for later.
    Standby,
    /// There is no file.
    NoSnapshot,
    /// No listener has a target yet: the file is for later.
    NoTargets,
    Restore,
}

/// Decides whether to restore flows when a gateway starts. `listeners` is how many
/// listeners of the datapath the configuration gives.
pub fn restore_on_start(
    status: &mut FlowPersistenceStatus,
    settings: &FlowPersistenceSettings,
    active: bool,
    present: bool,
    listeners: usize,
) -> (step: RestoreStep)
    ensures
        *final(status) == (FlowPersistenceStatus { enabled: settings.enabled, ..*old(status) }),
        step == if !settings.enabled || !settings.restore_on_start {
            RestoreStep::Disabled
        } else if !active {
            RestoreStep::Standby
        } else if !present {
            RestoreStep::NoSnapshot
        } else if listeners == 0 {
            RestoreStep::NoTargets
        } else {
            RestoreStep::Restore
        },
{
    status.record_settings(settings);
    if !settings.enabled || !settings.restore_on_start {
        RestoreStep::Disabled
    } else if !active {
        RestoreStep::Standby
    } else if !present {
        RestoreStep::NoSnapshot
    } else if listeners == 0 {
        RestoreStep::NoTargets
    } else {
        RestoreStep::Restore
    }
}

impl FlowPersistenceStatus {
    /// A status before anything happened.
    pub fn new() -> (status: Self)
        ensures
            status == (FlowPersistenceStatus {
                enabled: false,
                snapshot_records: 0,
                snapshot_bytes: 0,
                snapshot_duration_ms: 0,
                snapshot_errors_total: 0,
                restore_records_total: 0,
                restore_skipped_expired_total: 0,
                restore_skipped_config_total: 0,
                restore_skipped_incomplete_total: 0,
                restore_duration_ms: 0,
                restore_errors_total: 0,
            }),
    {
        FlowPersistenceStatus {
            enabled: false,
            snapshot_records: 0,
            snapshot_bytes: 0,
            snapshot_duration_ms: 0,
            snapshot_errors_total: 0,
            restore_records_total: 0,
            restore_skipped_expired_total: 0,
            restore_skipped_config_total: 0,
            restore_skipped_incomplete_total: 0,
            restore_duration_ms: 0,
            restore_errors_total: 0,
        }
    }

    /// Notes whether keeping flows is switched on: when the worker starts, and with every
    /// snapshot and restore that is asked for.
    pub fn record_settings(&mut self, settings: &FlowPersistenceSettings)
        ensures
            *final(self) == (FlowPersistenceStatus { enabled: settings.enabled, ..*old(self) }),
    {
        self.enabled = settings.enabled;
    }

    /// Notes that a file was written, or kept as it was.
    pub fn record_snapshot(&mut self, summary: &SnapshotSummary)
        ensures
            *final(self) == (FlowPersistenceStatus {
                snapshot_records: summary.records,
                snapshot_bytes: summary.bytes,
                snapshot_duration_ms: summary.duration_ms,
                ..*old(self)
            }),
    {
        self.snapshot_records = summary.records;
        self.snapshot_bytes = summary.bytes;
        self.snapshot_duration_ms = summary.duration_ms;
    }

    /// Notes that a file could not be written.
    pub fn record_snapshot_error(&mut self)
        ensures
            *final(self) == (FlowPersistenceStatus {
                snapshot_errors_total: capped(old(self).snapshot_errors_total + 1),
                ..*old(self)
            }),
    {
        self.snapshot_errors_total = add_capped(self.snapshot_errors_total, 1);
    }

    /// Notes what restoring a file came to.
    pub fn record_restore(&mut self, summary: &RestoreSummary)
        ensures
            *final(self) == (FlowPersistenceStatus {
                restore_records_total: capped(
                    old(self).restore_records_total + summary.restored_pairs,
                ),
                restore_skipped_expired_total: capped(
                    old(self).restore_skipped_expired_total + summary.skipped_expired,
                ),
                restore_skipped_config_total: capped(
                    old(self).restore_skipped_config_total + summary.skipped_config,
                ),
                restore_skipped_incomplete_total: capped(
                    old(self).restore_skipped_incomplete_total + summary.skipped_incomplete,
                ),
                restore_duration_ms: summary.duration_ms,
                ..*old(self)
            }),
    {
        self.restore_records_total =
        add_capped(self.restore_records_total, summary.restored_pairs as u64);
        self.restore_skipped_expired_total =
        add_capped(self.restore_skipped_expired_total, summary.skipped_expired as u64);
        self.restore_skipped_config_total =
        add_capped(self.restore_skipped_config_total, summary.skipped_config as u64);
        self.restore_skipped_incomplete_total =
        add_capped(self.restore_skipped_incomplete_total, summary.skipped_incomplete as u64);
        self.restore_duration_ms = summary.duration_ms;
    }

    /// Notes that a file could not be restored.
    pub fn record_restore_error(&mut self)
        ensures
            *final(self) == (FlowPersistenceStatus {
                restore_errors_total: capped(old(self).restore_errors_total + 1),
                ..*old(self)
            }),
    {
        self.restore_errors_total = add_capped(self.restore_errors_total, 1);
    }

    /// What keeping flows came to so far.
    pub fn status(&self) -> (status: FlowPersistenceStatus)
        ensures
            status == *self,
    {
        *self
    }
}

// ---------------------------------------------------------------------------
// Laws
// ---------------------------------------------------------------------------

/// Whether a flow is among those of the kernel and lives long enough.
pub open spec fn is_lasting(
    flows: Seq<FlowEntry>,
    now_ns: u64,
    min_remaining_ns: u64,
    entry: SnapshotEntry,
) -> bool {
    &&& flows.contains(FlowEntry { key: entry.key, value: entry.value })
    &&& entry.last_seen_age_ns == age_ns(entry.value.last_seen_ns, now_ns)
    &&& remaining(entry.last_seen_age_ns, entry.value.timeout_secs) matches Some(ttl) ==> ttl
        >= min_remaining_ns
}

proof fn lemma_lasting(flows: Seq<FlowEntry>, now_ns: u64, min_remaining_ns: u64, i: int)
    requires
        0 <= i < lasting(flows, now_ns, min_remaining_ns).len(),
    ensures
        is_lasting(
            flows,
            now_ns,
            min_remaining_ns,
            lasting(flows, now_ns, min_remaining_ns)[i],
        ),
    decreases flows.len(),
{
    let front = flows.drop_last();
    let before = lasting(front, now_ns, min_remaining_ns);
    let all = lasting(flows, now_ns, min_remaining_ns);
    if i < before.len() {
        lemma_lasting(front, now_ns, min_remaining_ns, i);
        assert(all[i] == before[i]);
        let flow = FlowEntry { key: all[i].key, value: all[i].value };
        let k = choose|k: int| 0 <= k < front.len() && front[k] == flow;
        assert(flows[k] == flow);
    } else {
        assert(flows[flows.len() - 1] == FlowEntry { key: all[i].key, value: all[i].value });
    }
}

proof fn lemma_members(
    order: ByteOrder,
    entries: Seq<SnapshotEntry>,
    pair: (FlowKey, FlowKey),
    i: int,
)
    requires
        0 <= i < members(order, entries, pair).len(),
    ensures
        entries.contains(members(order, entries, pair)[i]),
        pair_of(order, members(order, entries, pair)[i]) == pair,
    decreases entries.len(),
{
    let front = entries.drop_last();
    let before = members(order, front, pair);
    let all = members(order, entries, pair);
    if i < before.len() {
        lemma_members(order, front, pair, i);
        assert(all[i] == before[i]);
        let k = choose|k: int| 0 <= k < front.len() && front[k] == before[i];
        assert(entries[k] == all[i]);
    } else {
        assert(entries[entries.len() - 1] == all[i]);
    }
}

proof fn lemma_youngest(entries: Seq<SnapshotEntry>)
    requires
        entries.len() > 0,
    ensures
        entries.contains(youngest(entries)),
        forall|i: int|
            0 <= i < entries.len() ==> youngest(entries).last_seen_age_ns <= (
            #[trigger] entries[i]).last_seen_age_ns,
    decreases entries.len(),
{
    if entries.len() == 1 {
        assert(entries[0] == youngest(entries));
    } else {
        let front = entries.drop_last();
        lemma_youngest(front);
        let k = choose|k: int| 0 <= k < front.len() && front[k] == youngest(front);
        assert(entries[k] == youngest(front));
        assert(entries[entries.len() - 1] == entries.last());
        assert forall|i: int| 0 <= i < entries.len() implies youngest(entries).last_seen_age_ns <= (
        #[trigger] entries[i]).last_seen_age_ns by {
            if i < front.len() {
                assert(front[i] == entries[i]);
            }
        }
    }
}

proof fn lemma_completed(flows: Seq<Option<SnapshotPair>>, i: int)
    requires
        0 <= i < completed(flows).len(),
    ensures
        flows.contains(Some(completed(flows)[i])),
    decreases flows.len(),
{
    let front = flows.drop_last();
    let before = completed(front);
    if i < before.len() {
        lemma_completed(front, i);
        let k = choose|k: int| 0 <= k < front.len() && front[k] == Some(before[i]);
        assert(flows[k] == Some(completed(flows)[i]));
    } else {
        assert(flows[flows.len() - 1] == Some(completed(flows)[i]));
    }
}

/// Whether a flow stands in the kernel in both directions and lives long enough.
pub open spec fn is_whole(
    flows: Seq<FlowEntry>,
    now_ns: u64,
    min_remaining_ns: u64,
    pair: SnapshotPair,
) -> bool {
    &&& exists|i: int| 0 <= i < flows.len() && (#[trigger] flows[i]).key == pair.forward_key
    &&& exists|i: int| 0 <= i < flows.len() && (#[trigger] flows[i]).key == pair.reverse_key
    &&& remaining(pair.last_seen_age_ns, pair.value.timeout_secs) matches Some(ttl) ==> ttl
        >= min_remaining_ns
}

proof fn lemma_key_in_flows(
    order: ByteOrder,
    flows: Seq<FlowEntry>,
    now_ns: u64,
    min: u64,
    pair: (FlowKey, FlowKey),
    key: FlowKey,
)
    requires
        has_key(members(order, lasting(flows, now_ns, min), pair), key),
    ensures
        exists|i: int| 0 <= i < flows.len() && (#[trigger] flows[i]).key == key,
{
    let entries = lasting(flows, now_ns, min);
    let own = members(order, entries, pair);
    let i = choose|i: int| 0 <= i < own.len() && (#[trigger] own[i]).key == key;
    lemma_members(order, entries, pair, i);
    let j = choose|j: int| 0 <= j < entries.len() && entries[j] == own[i];
    lemma_lasting(flows, now_ns, min, j);
    let flow = FlowEntry { key, value: entries[j].value };
    let k = choose|k: int| 0 <= k < flows.len() && flows[k] == flow;
    assert(flows[k].key == key);
}

proof fn lemma_complete_is_whole(
    order: ByteOrder,
    flows: Seq<FlowEntry>,
    now_ns: u64,
    min: u64,
    pair: (FlowKey, FlowKey),
)
    ensures
        complete(order, pair, members(order, lasting(flows, now_ns, min), pair)) matches Some(
            flow,
        ) ==> is_whole(flows, now_ns, min, flow),
{
    let entries = lasting(flows, now_ns, min);
    let own = members(order, entries, pair);
    if complete(order, pair, own) is Some {
        lemma_key_in_flows(order, flows, now_ns, min, pair, pair.0);
        lemma_key_in_flows(order, flows, now_ns, min, pair, pair.1);
        let first = choose|i: int| 0 <= i < own.len() && (#[trigger] own[i]).key == pair.0;
        assert(own.len() > 0);
        lemma_youngest(own);
        let entry = youngest(own);
        let i = choose|i: int| 0 <= i < own.len() && own[i] == entry;
        lemma_members(order, entries, pair, i);
        let j = choose|j: int| 0 <= j < entries.len() && entries[j] == entry;
        lemma_lasting(flows, now_ns, min, j);
    }
}

/// Every flow that is written stands in the kernel in both directions and lives
/// long enough: a flow with one direction only is never kept.
pub proof fn law_kept_flows_are_whole(
    order: ByteOrder,
    flows: Seq<FlowEntry>,
    now_ns: u64,
    settings: FlowPersistenceSettings,
    i: int,
)
    requires
        0 <= i < kept_pairs(order, flows, now_ns, settings).len(),
    ensures
        is_whole(
            flows,
            now_ns,
            capped(settings.min_remaining_ttl_secs * 1_000_000_000),
            kept_pairs(order, flows, now_ns, settings)[i],
        ),
{
    let min = capped(settings.min_remaining_ttl_secs * 1_000_000_000);
    let entries = lasting(flows, now_ns, min);
    let pairs = pairs_of(order, entries);
    let all = flows_of(order, entries, pairs);
    let whole = completed(all);
    let kept = recent_pairs(order, flows, now_ns, settings);
    let pair = kept_pairs(order, flows, now_ns, settings)[i];
    assert(kept[i] == pair);
    law_sorting_permutes(whole);
    assert(kept.to_multiset().contains(pair)) by {
        kept.to_multiset_ensures();
        assert(kept.contains(pair));
    }
    assert(whole.contains(pair)) by {
        whole.to_multiset_ensures();
    }
    let j = choose|j: int| 0 <= j < whole.len() && whole[j] == pair;
    lemma_completed(all, j);
    let k = choose|k: int| 0 <= k < all.len() && all[k] == Some(pair);
    lemma_complete_is_whole(order, flows, now_ns, min, pairs[k]);
}

/// A flow goes back into the kernel with both directions, and every flow of the
/// file is accounted for.
pub proof fn law_restore_accounts_for_every_flow(
    order: ByteOrder,
    flows: Seq<Option<SnapshotPair>>,
    assignments: Seq<ListenerAssignment>,
    elapsed_ns: u64,
    now_ns: u64,
)
    ensures
        ({
            let view = restored(order, flows, assignments, elapsed_ns, now_ns);
            &&& view.entries.len() == 2 * view.restored
            &&& view.restored + view.expired + view.config + view.incomplete == flows.len()
        }),
    decreases flows.len(),
{
    if flows.len() > 0 {
        law_restore_accounts_for_every_flow(
            order,
            flows.drop_last(),
            assignments,
            elapsed_ns,
            now_ns,
        );
    }
}

/// A restored flow is one that the configuration has a listener for: same address,
/// port and protocol. A listener with the number of the flow but another protocol
/// does not do.
pub proof fn law_restored_flows_fit(
    order: ByteOrder,
    assignments: Seq<ListenerAssignment>,
    forward_key: FlowKey,
    value: FlowValue,
    age: u64,
    now_ns: u64,
)
    ensures
        remapped(order, assignments, forward_key, value, age, now_ns) matches Some(out) ==> {
            &&& exists|i: int|
                0 <= i < assignments.len() && fits(
                    order,
                    (#[trigger] assignments[i]).listener,
                    forward_key,
                    value,
                ) && assignments[i].listener_id == out.listener_id
            &&& out.vip == value.vip
            &&& out.vip_port == value.vip_port
            &&& out.timeout_secs == value.timeout_secs
            &&& out.target_port == value.target_port
        },
{
    lemma_last_with_id(assignments, value.listener_id);
    lemma_last_at_socket(order, assignments, value.vip, value.vip_port, forward_key.proto);
    if let Some(assignment) = listener_of(order, assignments, forward_key, value) {
        lemma_target_of(assignment.listener.targets@, value);
    }
}

proof fn lemma_last_with_id(assignments: Seq<ListenerAssignment>, id: u32)
    ensures
        last_with_id(assignments, id) matches Some(i) ==> 0 <= i < assignments.len(),
    decreases assignments.len(),
{
    if assignments.len() > 0 {
        lemma_last_with_id(assignments.drop_last(), id);
    }
}

proof fn lemma_last_at_socket(
    order: ByteOrder,
    assignments: Seq<ListenerAssignment>,
    vip: u32,
    vip_port: u16,
    proto: u8,
)
    ensures
        last_at_socket(order, assignments, vip, vip_port, proto) matches Some(i) ==> 0 <= i
            < assignments.len(),
    decreases assignments.len(),
{
    if assignments.len() > 0 {
        lemma_last_at_socket(order, assignments.drop_last(), vip, vip_port, proto);
    }
}

proof fn lemma_target_of(targets: Seq<NativeTarget>, value: FlowValue)
    ensures
        target_of(targets, value) matches Some(i) ==> 0 <= i < targets.len() && targets[i].port
            == value.target_port,
    decreases targets.len(),
{
    lemma_target_at(targets, value);
}

proof fn lemma_target_at(targets: Seq<NativeTarget>, value: FlowValue)
    ensures
        target_at(targets, value) matches Some(i) ==> 0 <= i < targets.len() && targets[i].port
            == value.target_port,
    decreases targets.len(),
{
    if targets.len() > 0 {
        lemma_target_at(targets.drop_last(), value);
    }
}

/// A flow that was over when the file was written, or is over by now, does not go
/// back.
pub proof fn law_expired_flows_stay_out(age: u64, elapsed_ns: u64, timeout_secs: u32)
    requires
        expired(age, timeout_secs),
    ensures
        expired(capped(age + elapsed_ns), timeout_secs),
{
}

/// The last listener on a socket, where it is the only one on it.
proof fn lemma_only_socket(
    order: ByteOrder,
    assignments: Seq<ListenerAssignment>,
    vip: u32,
    vip_port: u16,
    proto: u8,
    a: int,
)
    requires
        0 <= a < assignments.len(),
        forall|m: int|
            0 <= m < assignments.len() ==> (at_socket(
                order,
                (#[trigger] assignments[m]).listener,
                vip,
                vip_port,
                proto,
            ) <==> m == a),
    ensures
        last_at_socket(order, assignments, vip, vip_port, proto) == Some(a),
    decreases assignments.len(),
{
    let front = assignments.drop_last();
    assert(assignments[assignments.len() - 1] == assignments.last());
    assert(at_socket(order, assignments[a].listener, vip, vip_port, proto));
    if a < front.len() {
        assert forall|m: int| 0 <= m < front.len() implies (at_socket(
            order,
            (#[trigger] front[m]).listener,
            vip,
            vip_port,
            proto,
        ) <==> m == a) by {
            assert(front[m] == assignments[m]);
        }
        lemma_only_socket(order, front, vip, vip_port, proto, a);
    }
}

/// The first target of an address and port.
proof fn lemma_first_target(targets: Seq<NativeTarget>, value: FlowValue, t: int)
    requires
        0 <= t < targets.len(),
        targets[t].address == value.target,
        targets[t].port == value.target_port,
        forall|m: int|
            0 <= m < t ==> (#[trigger] targets[m]).address != value.target || targets[m].port
                != value.target_port,
    ensures
        target_at(targets, value) == Some(t),
    decreases targets.len(),
{
    let front = targets.drop_last();
    if t < front.len() {
        assert(front[t] == targets[t]);
        assert forall|m: int| 0 <= m < t implies (#[trigger] front[m]).address != value.target
            || front[m].port != value.target_port by {
            assert(front[m] == targets[m]);
        }
        lemma_first_target(front, value, t);
    } else {
        assert forall|m: int| 0 <= m < front.len() implies (#[trigger] front[m]).address
            != value.target || front[m].port != value.target_port by {
            assert(front[m] == targets[m]);
        }
        lemma_no_target(front, value);
    }
}

proof fn lemma_no_target(targets: Seq<NativeTarget>, value: FlowValue)
    requires
        forall|m: int|
            0 <= m < targets.len() ==> (#[trigger] targets[m]).address != value.target
                || targets[m].port != value.target_port,
    ensures
        target_at(targets, value) is None,
    decreases targets.len(),
{
    if targets.len() > 0 {
        let front = targets.drop_last();
        assert forall|m: int| 0 <= m < front.len() implies (#[trigger] front[m]).address
            != value.target || front[m].port != value.target_port by {
            assert(front[m] == targets[m]);
        }
        lemma_no_target(front, value);
        assert(targets[targets.len() - 1] == targets.last());
    }
}

/// The listener of a flow is the only one that answers on the address, port and protocol
/// of the flow, whatever number it had before.
proof fn lemma_listener_is_found(
    order: ByteOrder,
    assignments: Seq<ListenerAssignment>,
    forward_key: FlowKey,
    value: FlowValue,
    a: int,
)
    requires
        0 <= a < assignments.len(),
        forward_key.dst == value.vip,
        forward_key.dport == value.vip_port,
        assignments[a].listener.key.vip_ip == value.vip,
        wire_port(order, assignments[a].listener.key.vip_port) == value.vip_port,
        match assignments[a].listener.key.protocol {
            NativeProtocol::Tcp => forward_key.proto == 6,
            NativeProtocol::Udp => forward_key.proto == 17,
        },
        forall|m: int|
            0 <= m < assignments.len() && m != a ==> (#[trigger] assignments[m]).listener.key
                != assignments[a].listener.key,
    ensures
        listener_of(order, assignments, forward_key, value) == Some(assignments[a]),
{
    let own = assignments[a].listener.key;
    assert forall|m: int| 0 <= m < assignments.len() implies (at_socket(
        order,
        (#[trigger] assignments[m]).listener,
        value.vip,
        value.vip_port,
        forward_key.proto,
    ) <==> m == a) by {
        let key = assignments[m].listener.key;
        law_ports_stand_in_network_order(order, key.vip_port);
        law_ports_stand_in_network_order(order, own.vip_port);
        if at_socket(order, assignments[m].listener, value.vip, value.vip_port, forward_key.proto) {
            assert(wire_port(order, key.vip_port) == wire_port(order, own.vip_port));
            assert(key.vip_port == own.vip_port);
            assert(key.protocol == own.protocol);
            assert(key == own);
        }
    }
    lemma_only_socket(order, assignments, value.vip, value.vip_port, forward_key.proto, a);
    lemma_last_with_id(assignments, value.listener_id);
    if let Some(i) = last_with_id(assignments, value.listener_id) {
        if fits(order, assignments[i].listener, forward_key, value) {
            assert(at_socket(
                order,
                assignments[i].listener,
                value.vip,
                value.vip_port,
                forward_key.proto,
            ));
        }
    }
}

/// A flow is restored to the listener that answers on its address, port and protocol, six
/// being TCP and seventeen UDP, and to the first target there with its address and port,
/// whatever numbers both had before. Nothing else of the flow changes but when it was last
/// seen.
pub proof fn law_live_flow_finds_its_target(
    order: ByteOrder,
    assignments: Seq<ListenerAssignment>,
    forward_key: FlowKey,
    value: FlowValue,
    age: u64,
    now_ns: u64,
    a: int,
    t: int,
)
    requires
        0 <= a < assignments.len(),
        forward_key.dst == value.vip,
        forward_key.dport == value.vip_port,
        assignments[a].listener.key.vip_ip == value.vip,
        host_bytes(order, value.vip_port as nat, 2) == be_bytes(
            assignments[a].listener.key.vip_port as nat,
            2,
        ),
        match assignments[a].listener.key.protocol {
            NativeProtocol::Tcp => forward_key.proto == 6,
            NativeProtocol::Udp => forward_key.proto == 17,
        },
        forall|m: int|
            0 <= m < assignments.len() && m != a ==> (#[trigger] assignments[m]).listener.key
                != assignments[a].listener.key,
        0 <= t < assignments[a].listener.targets@.len() <= u32::MAX,
        assignments[a].listener.targets@[t].address == value.target,
        assignments[a].listener.targets@[t].port == value.target_port,
        forall|m: int|
            0 <= m < t ==> (#[trigger] assignments[a].listener.targets@[m]).address != value.target
                || assignments[a].listener.targets@[m].port != value.target_port,
    ensures
        match remapped(order, assignments, forward_key, value, age, now_ns) {
            None => false,
            Some(out) => {
                &&& out.listener_id == assignments[a].listener_id
                &&& out.target_id == t
                &&& out.target == value.target
                &&& out.target_port == value.target_port
                &&& out.vip == value.vip
                &&& out.vip_port == value.vip_port
                &&& out.timeout_secs == value.timeout_secs
                &&& now_ns >= age ==> out.last_seen_ns + age == now_ns
                &&& now_ns < age ==> out.last_seen_ns == 0
            },
        },
{
    let port = assignments[a].listener.key.vip_port;
    law_ports_stand_in_network_order(order, port);
    lemma_pow256();
    law_host_round_trip(order, value.vip_port as nat, 2);
    law_host_round_trip(order, wire_port(order, port) as nat, 2);
    assert(wire_port(order, port) == value.vip_port);
    lemma_listener_is_found(order, assignments, forward_key, value, a);
    lemma_first_target(assignments[a].listener.targets@, value, t);
}

/// A flow whose target has another address now follows the number of the target, if that
/// one has the same port, and stays out otherwise.
pub proof fn law_moved_target_is_followed(
    order: ByteOrder,
    assignments: Seq<ListenerAssignment>,
    forward_key: FlowKey,
    value: FlowValue,
    age: u64,
    now_ns: u64,
    a: int,
)
    requires
        0 <= a < assignments.len(),
        forward_key.dst == value.vip,
        forward_key.dport == value.vip_port,
        assignments[a].listener.key.vip_ip == value.vip,
        wire_port(order, assignments[a].listener.key.vip_port) == value.vip_port,
        match assignments[a].listener.key.protocol {
            NativeProtocol::Tcp => forward_key.proto == 6,
            NativeProtocol::Udp => forward_key.proto == 17,
        },
        forall|m: int|
            0 <= m < assignments.len() && m != a ==> (#[trigger] assignments[m]).listener.key
                != assignments[a].listener.key,
        forall|m: int|
            0 <= m < assignments[a].listener.targets@.len() ==> (
            #[trigger] assignments[a].listener.targets@[m]).address != value.target
                || assignments[a].listener.targets@[m].port != value.target_port,
    ensures
        ({
            let targets = assignments[a].listener.targets@;
            let n = value.target_id as int;
            match remapped(order, assignments, forward_key, value, age, now_ns) {
                Some(out) => n < targets.len() && targets[n].port == value.target_port
                    && out.target_id == value.target_id && out.target == targets[n].address
                    && out.target_port == value.target_port && out.listener_id
                    == assignments[a].listener_id,
                None => n >= targets.len() || targets[n].port != value.target_port,
            }
        }),
{
    lemma_listener_is_found(order, assignments, forward_key, value, a);
    lemma_no_target(assignments[a].listener.targets@, value);
}

/// A flow stays out where no listener answers on its address, port and protocol, and where
/// its requests do not go to the address and port that it names.
pub proof fn law_flow_without_listener_stays_out(
    order: ByteOrder,
    assignments: Seq<ListenerAssignment>,
    forward_key: FlowKey,
    value: FlowValue,
    age: u64,
    now_ns: u64,
)
    requires
        forward_key.dst != value.vip || forward_key.dport != value.vip_port || forall|m: int|
            0 <= m < assignments.len() ==> {
                let key = (#[trigger] assignments[m]).listener.key;
                ||| key.vip_ip != value.vip
                ||| wire_port(order, key.vip_port) != value.vip_port
                ||| key.protocol == NativeProtocol::Tcp && forward_key.proto != 6
                ||| key.protocol == NativeProtocol::Udp && forward_key.proto != 17
            },
    ensures
        remapped(order, assignments, forward_key, value, age, now_ns) is None,
{
    lemma_last_with_id(assignments, value.listener_id);
    lemma_last_at_socket(order, assignments, value.vip, value.vip_port, forward_key.proto);
}

/// Restoring goes through the flows one by one: what comes of a list is what comes of its
/// beginning and then of its rest.
proof fn lemma_restored_front(
    order: ByteOrder,
    flows: Seq<Option<SnapshotPair>>,
    assignments: Seq<ListenerAssignment>,
    elapsed_ns: u64,
    now_ns: u64,
    n: int,
)
    requires
        0 <= n <= flows.len(),
    ensures
        ({
            let front = restored(order, flows.take(n), assignments, elapsed_ns, now_ns).entries;
            let all = restored(order, flows, assignments, elapsed_ns, now_ns).entries;
            front.len() <= all.len() && all.take(front.len() as int) == front
        }),
    decreases flows.len() - n,
{
    if n == flows.len() {
        assert(flows.take(n) =~= flows);
        let all = restored(order, flows, assignments, elapsed_ns, now_ns).entries;
        assert(all.take(all.len() as int) =~= all);
    } else {
        lemma_restored_front(order, flows, assignments, elapsed_ns, now_ns, n + 1);
        assert(flows.take(n + 1).drop_last() =~= flows.take(n));
        let front = restored(order, flows.take(n), assignments, elapsed_ns, now_ns).entries;
        let next = restored(order, flows.take(n + 1), assignments, elapsed_ns, now_ns).entries;
        let all = restored(order, flows, assignments, elapsed_ns, now_ns).entries;
        assert(next.take(front.len() as int) =~= front);
        assert(all.take(front.len() as int) =~= all.take(next.len() as int).take(
            front.len() as int,
        ));
    }
}

/// Every flow of a file goes back into the kernel in both directions that is not over by
/// now and whose listener and target are still there: the requests to the listener, the
/// replies from the target. Its two entries stand at the place given back and behind it.
pub proof fn law_live_flows_go_back(
    order: ByteOrder,
    flows: Seq<Option<SnapshotPair>>,
    assignments: Seq<ListenerAssignment>,
    elapsed_ns: u64,
    now_ns: u64,
    k: int,
    pair: SnapshotPair,
    a: int,
    t: int,
) -> (at: int)
    requires
        0 <= k < flows.len(),
        flows[k] == Some(pair),
        pair.value.timeout_secs == 0 || pair.last_seen_age_ns + elapsed_ns
            < pair.value.timeout_secs * 1_000_000_000,
        pair.last_seen_age_ns + elapsed_ns <= u64::MAX,
        0 <= a < assignments.len(),
        pair.forward_key.dst == pair.value.vip,
        pair.forward_key.dport == pair.value.vip_port,
        assignments[a].listener.key.vip_ip == pair.value.vip,
        host_bytes(order, pair.value.vip_port as nat, 2) == be_bytes(
            assignments[a].listener.key.vip_port as nat,
            2,
        ),
        match assignments[a].listener.key.protocol {
            NativeProtocol::Tcp => pair.forward_key.proto == 6,
            NativeProtocol::Udp => pair.forward_key.proto == 17,
        },
        forall|m: int|
            0 <= m < assignments.len() && m != a ==> (#[trigger] assignments[m]).listener.key
                != assignments[a].listener.key,
        0 <= t < assignments[a].listener.targets@.len() <= u32::MAX,
        assignments[a].listener.targets@[t].address == pair.value.target,
        assignments[a].listener.targets@[t].port == pair.value.target_port,
        forall|m: int|
            0 <= m < t ==> (#[trigger] assignments[a].listener.targets@[m]).address
                != pair.value.target || assignments[a].listener.targets@[m].port
                != pair.value.target_port,
    ensures
        ({
            let entries = restored(order, flows, assignments, elapsed_ns, now_ns).entries;
            &&& 0 <= at < entries.len() - 1
            &&& entries[at].key == pair.forward_key
            &&& entries[at].value.listener_id == assignments[a].listener_id
            &&& entries[at].value.target_id == t
            &&& entries[at].value.target == pair.value.target
            &&& entries[at].value.target_port == pair.value.target_port
            &&& entries[at].value.vip == pair.value.vip
            &&& entries[at].value.vip_port == pair.value.vip_port
            &&& entries[at].value.timeout_secs == pair.value.timeout_secs
            &&& now_ns >= pair.last_seen_age_ns + elapsed_ns ==> entries[at].value.last_seen_ns
                == now_ns - pair.last_seen_age_ns - elapsed_ns
            &&& entries[at + 1].value == entries[at].value
            &&& entries[at + 1].key.src == pair.value.target
            &&& host_bytes(order, entries[at + 1].key.sport as nat, 2) == be_bytes(
                pair.value.target_port as nat,
                2,
            )
            &&& entries[at + 1].key.dst == pair.forward_key.src
            &&& entries[at + 1].key.dport == pair.forward_key.sport
            &&& entries[at + 1].key.proto == pair.forward_key.proto
        }),
{
    let age = capped(pair.last_seen_age_ns + elapsed_ns);
    law_live_flow_finds_its_target(
        order,
        assignments,
        pair.forward_key,
        pair.value,
        age,
        now_ns,
        a,
        t,
    );
    let before = restored(order, flows.take(k), assignments, elapsed_ns, now_ns).entries;
    let next = restored(order, flows.take(k + 1), assignments, elapsed_ns, now_ns).entries;
    let all = restored(order, flows, assignments, elapsed_ns, now_ns).entries;
    let at = before.len() as int;
    assert(flows.take(k + 1).drop_last() =~= flows.take(k));
    assert(flows.take(k + 1).last() == flows[k]);
    lemma_restored_front(order, flows, assignments, elapsed_ns, now_ns, k + 1);
    assert(next.len() == before.len() + 2);
    assert(all[at] == all.take(next.len() as int)[at]);
    assert(all[at + 1] == all.take(next.len() as int)[at + 1]);
    let out = remapped(order, assignments, pair.forward_key, pair.value, age, now_ns)->0;
    law_replies_come_from_the_target(order, pair.forward_key, out);
    at
}

/// A flow with a timeout is over once it was not seen for as long, and not before; one
/// without a timeout never is. Until then the rest of its time and its age make up the
/// timeout.
pub proof fn law_flows_live_for_their_timeout(age: u64, timeout_secs: u32)
    ensures
        timeout_secs == 0 ==> !expired(age, timeout_secs) && remaining(age, timeout_secs) is None,
        timeout_secs > 0 && age < timeout_secs * 1_000_000_000 ==> !expired(age, timeout_secs) && (
        match remaining(age, timeout_secs) {
            Some(ttl) => ttl + age == timeout_secs * 1_000_000_000,
            None => false,
        }),
        timeout_secs > 0 && age >= timeout_secs * 1_000_000_000 ==> expired(age, timeout_secs)
            && remaining(age, timeout_secs) == Some(0u64),
{
}

/// Both directions of every flow are written, next to each other and in the order of the
/// flows, with what is known of the flow and its age.
pub proof fn law_both_directions_are_written(pairs: Seq<SnapshotPair>, i: int)
    ensures
        pair_entries(pairs).len() == 2 * pairs.len(),
        0 <= i < pairs.len() ==> {
            let first = pair_entries(pairs)[2 * i];
            let second = pair_entries(pairs)[2 * i + 1];
            &&& first.key == pairs[i].forward_key
            &&& second.key == pairs[i].reverse_key
            &&& first.value == pairs[i].value
            &&& second.value == pairs[i].value
            &&& first.last_seen_age_ns == pairs[i].last_seen_age_ns
            &&& second.last_seen_age_ns == pairs[i].last_seen_age_ns
        },
    decreases pairs.len(),
{
    if pairs.len() > 0 {
        law_both_directions_are_written(pairs.drop_last(), i);
    }
}

/// A flow that lives long enough is among those that do.
proof fn lemma_lasting_holds(flows: Seq<FlowEntry>, now_ns: u64, min: u64, i: int)
    requires
        0 <= i < flows.len(),
        remaining(age_ns(flows[i].value.last_seen_ns, now_ns), flows[i].value.timeout_secs) matches
        Some(ttl) ==> ttl >= min,
    ensures
        lasting(flows, now_ns, min).contains(
            SnapshotEntry {
                key: flows[i].key,
                value: flows[i].value,
                last_seen_age_ns: age_ns(flows[i].value.last_seen_ns, now_ns),
            },
        ),
    decreases flows.len(),
{
    let front = flows.drop_last();
    let before = lasting(front, now_ns, min);
    let all = lasting(flows, now_ns, min);
    let entry = SnapshotEntry {
        key: flows[i].key,
        value: flows[i].value,
        last_seen_age_ns: age_ns(flows[i].value.last_seen_ns, now_ns),
    };
    if i < front.len() {
        assert(front[i] == flows[i]);
        lemma_lasting_holds(front, now_ns, min, i);
        let k = choose|k: int| 0 <= k < before.len() && before[k] == entry;
        assert(all[k] == entry);
    } else {
        assert(all[all.len() - 1] == entry);
    }
}

proof fn lemma_pair_is_listed(order: ByteOrder, entries: Seq<SnapshotEntry>, i: int)
    requires
        0 <= i < entries.len(),
    ensures
        pairs_of(order, entries).contains(pair_of(order, entries[i])),
        members(order, entries, pair_of(order, entries[i])).contains(entries[i]),
    decreases entries.len(),
{
    let front = entries.drop_last();
    let pair = pair_of(order, entries[i]);
    let before = pairs_of(order, front);
    let own = members(order, front, pair);
    if i < front.len() {
        assert(front[i] == entries[i]);
        lemma_pair_is_listed(order, front, i);
        let k = choose|k: int| 0 <= k < before.len() && before[k] == pair;
        assert(pairs_of(order, entries)[k] == pair);
        let m = choose|m: int| 0 <= m < own.len() && own[m] == entries[i];
        assert(members(order, entries, pair)[m] == entries[i]);
    } else {
        let all = pairs_of(order, entries);
        if !before.contains(pair) {
            assert(all[all.len() - 1] == pair);
        }
        let now = members(order, entries, pair);
        assert(now[now.len() - 1] == entries[i]);
    }
}

proof fn lemma_completed_holds(flows: Seq<Option<SnapshotPair>>, k: int)
    requires
        0 <= k < flows.len(),
        flows[k] is Some,
    ensures
        completed(flows).contains(flows[k]->0),
    decreases flows.len(),
{
    let front = flows.drop_last();
    let before = completed(front);
    let all = completed(flows);
    if k < front.len() {
        assert(front[k] == flows[k]);
        lemma_completed_holds(front, k);
        let m = choose|m: int| 0 <= m < before.len() && before[m] == flows[k]->0;
        assert(all[m] == flows[k]->0);
    } else {
        assert(all[all.len() - 1] == flows[k]->0);
    }
}

/// A flow that has both directions in a list is whole there, and the entry that was seen
/// last says what is known of it.
proof fn lemma_whole_is_complete(
    order: ByteOrder,
    own: Seq<SnapshotEntry>,
    first: SnapshotEntry,
    second: SnapshotEntry,
)
    requires
        own.contains(first),
        own.contains(second),
        directions(order, first.key, first.value) == (first.key, second.key),
        first.key != second.key,
        forall|y: int|
            0 <= y < own.len() ==> pair_of(order, #[trigger] own[y]) == pair_of(order, first),
        forall|y: int|
            0 <= y < own.len() && ((#[trigger] own[y]).key == first.key || own[y].key == second.key)
                ==> directions(order, own[y].key, own[y].value) == (first.key, second.key),
    ensures
        match complete(order, pair_of(order, first), own) {
            None => false,
            Some(out) => {
                &&& out.forward_key == first.key
                &&& out.reverse_key == second.key
                &&& out.last_seen_age_ns <= first.last_seen_age_ns
                &&& out.last_seen_age_ns <= second.last_seen_age_ns
                &&& exists|y: int| 0 <= y < own.len() && #[trigger] own[y].value == out.value
                    && (own[y].key == first.key || own[y].key == second.key)
            },
        },
{
    let pair = pair_of(order, first);
    let m = choose|m: int| 0 <= m < own.len() && own[m] == first;
    let n = choose|n: int| 0 <= n < own.len() && own[n] == second;
    assert(own[m].key == first.key);
    assert(own[n].key == second.key);
    lemma_youngest(own);
    let entry = youngest(own);
    let y = choose|y: int| 0 <= y < own.len() && own[y] == entry;
    assert(pair_of(order, own[y]) == pair);
    assert(own[y].key == first.key || own[y].key == second.key);
}

/// Every flow is written of which the kernel has the requests and the replies, that lives
/// long enough in both, and for which there is room. The requests go to the address that
/// the listener answers on and do not come from the target, and whatever the kernel has
/// under the two keys names the same listener and target. The flow stands at the place
/// given back, with the age of the direction that was seen last.
pub proof fn law_whole_flows_are_kept(
    order: ByteOrder,
    flows: Seq<FlowEntry>,
    now_ns: u64,
    settings: FlowPersistenceSettings,
    i: int,
    j: int,
) -> (at: int)
    requires
        0 <= i < flows.len(),
        0 <= j < flows.len(),
        flows[i].key.dst == flows[i].value.vip,
        flows[i].key.dport == flows[i].value.vip_port,
        flows[i].key.src != flows[i].value.target || flows[i].key.sport != wire_port(
            order,
            flows[i].value.target_port,
        ),
        flows[j].key.src == flows[i].value.target,
        flows[j].key.sport == wire_port(order, flows[i].value.target_port),
        flows[j].key.dst == flows[i].key.src,
        flows[j].key.dport == flows[i].key.sport,
        flows[j].key.proto == flows[i].key.proto,
        forall|m: int|
            0 <= m < flows.len() && ((#[trigger] flows[m]).key == flows[i].key || flows[m].key
                == flows[j].key) ==> flows[m].value.vip == flows[i].value.vip
                && flows[m].value.vip_port == flows[i].value.vip_port && flows[m].value.target
                == flows[i].value.target && flows[m].value.target_port
                == flows[i].value.target_port,
        remaining(
            age_ns(flows[i].value.last_seen_ns, now_ns),
            flows[i].value.timeout_secs,
        ) matches Some(ttl) ==> ttl >= capped(settings.min_remaining_ttl_secs * 1_000_000_000),
        remaining(
            age_ns(flows[j].value.last_seen_ns, now_ns),
            flows[j].value.timeout_secs,
        ) matches Some(ttl) ==> ttl >= capped(settings.min_remaining_ttl_secs * 1_000_000_000),
        recent_pairs(order, flows, now_ns, settings).len() <= settings.max_records,
    ensures
        ({
            let kept = kept_pairs(order, flows, now_ns, settings);
            &&& 0 <= at < kept.len()
            &&& kept[at].forward_key == flows[i].key
            &&& kept[at].reverse_key == flows[j].key
            &&& kept[at].value.target == flows[i].value.target
            &&& kept[at].value.target_port == flows[i].value.target_port
            &&& kept[at].value.vip == flows[i].value.vip
            &&& kept[at].value.vip_port == flows[i].value.vip_port
            &&& kept[at].last_seen_age_ns <= age_ns(flows[i].value.last_seen_ns, now_ns)
            &&& kept[at].last_seen_age_ns <= age_ns(flows[j].value.last_seen_ns, now_ns)
        }),
{
    let min = capped(settings.min_remaining_ttl_secs * 1_000_000_000);
    let entries = lasting(flows, now_ns, min);
    let pairs = pairs_of(order, entries);
    let all = flows_of(order, entries, pairs);
    let whole = completed(all);
    let kept = recent_pairs(order, flows, now_ns, settings);
    lemma_lasting_holds(flows, now_ns, min, i);
    lemma_lasting_holds(flows, now_ns, min, j);
    let first = SnapshotEntry {
        key: flows[i].key,
        value: flows[i].value,
        last_seen_age_ns: age_ns(flows[i].value.last_seen_ns, now_ns),
    };
    let second = SnapshotEntry {
        key: flows[j].key,
        value: flows[j].value,
        last_seen_age_ns: age_ns(flows[j].value.last_seen_ns, now_ns),
    };
    let a = choose|a: int| 0 <= a < entries.len() && entries[a] == first;
    let b = choose|b: int| 0 <= b < entries.len() && entries[b] == second;
    let pair = pair_of(order, first);
    law_directions_are_found_from_either(order, first.key, first.value);
    assert(directions(order, first.key, first.value) == (first.key, second.key));
    assert(second.value.target == first.value.target);
    assert(directions(order, second.key, second.value) == (first.key, second.key));
    assert(pair_of(order, second) == pair);
    lemma_pair_is_listed(order, entries, a);
    lemma_pair_is_listed(order, entries, b);
    let own = members(order, entries, pair);
    assert forall|y: int| 0 <= y < own.len() implies pair_of(order, #[trigger] own[y]) == pair
        && flows.contains(FlowEntry { key: own[y].key, value: own[y].value }) by {
        lemma_members(order, entries, pair, y);
        let e = choose|e: int| 0 <= e < entries.len() && entries[e] == own[y];
        lemma_lasting(flows, now_ns, min, e);
    }
    assert forall|y: int|
        0 <= y < own.len() && ((#[trigger] own[y]).key == first.key || own[y].key
            == second.key) implies directions(order, own[y].key, own[y].value) == (
        first.key,
        second.key,
    ) && own[y].value.target == first.value.target && own[y].value.target_port
        == first.value.target_port && own[y].value.vip == first.value.vip && own[y].value.vip_port
        == first.value.vip_port by {
        let flow = FlowEntry { key: own[y].key, value: own[y].value };
        let f = choose|f: int| 0 <= f < flows.len() && flows[f] == flow;
        assert(flows[f].key == flows[i].key || flows[f].key == flows[j].key);
    }
    lemma_whole_is_complete(order, own, first, second);
    let k = choose|k: int| 0 <= k < pairs.len() && pairs[k] == pair;
    assert(all[k] == complete(order, pair, own));
    let out = complete(order, pair, own)->0;
    lemma_completed_holds(all, k);
    law_sorting_permutes(whole);
    assert(whole.to_multiset().contains(out)) by {
        whole.to_multiset_ensures();
    }
    assert(kept.contains(out)) by {
        kept.to_multiset_ensures();
    }
    choose|at: int| 0 <= at < kept.len() && kept[at] == out
}

/// The flows that are written are those seen last: they come in the order of their ages,
/// and where there are more than the settings allow, none that is left out is younger than
/// one that is written. Allowing more only adds flows behind the others.
pub proof fn law_youngest_flows_are_kept(
    order: ByteOrder,
    flows: Seq<FlowEntry>,
    now_ns: u64,
    settings: FlowPersistenceSettings,
    more: FlowPersistenceSettings,
    i: int,
    j: int,
)
    requires
        more.min_remaining_ttl_secs == settings.min_remaining_ttl_secs,
        more.max_records >= settings.max_records,
    ensures
        ({
            let kept = kept_pairs(order, flows, now_ns, settings);
            let all = kept_pairs(order, flows, now_ns, more);
            &&& kept.len() <= settings.max_records
            &&& kept.len() < settings.max_records ==> kept == all
            &&& kept.len() <= all.len()
            &&& kept == all.take(kept.len() as int)
            &&& 0 <= i < j < all.len() ==> all[i].last_seen_age_ns <= all[j].last_seen_age_ns
        }),
{
    let min = capped(settings.min_remaining_ttl_secs * 1_000_000_000);
    let entries = lasting(flows, now_ns, min);
    let whole = completed(flows_of(order, entries, pairs_of(order, entries)));
    let recent = recent_pairs(order, flows, now_ns, settings);
    let kept = kept_pairs(order, flows, now_ns, settings);
    let all = kept_pairs(order, flows, now_ns, more);
    assert(recent == recent_pairs(order, flows, now_ns, more));
    law_sorting_orders(whole);
    assert(kept =~= all.take(kept.len() as int));
    if 0 <= i < j < all.len() {
        assert(all[i] == recent[i] && all[j] == recent[j]);
        assert(!lex_less(recent[j].rank(), recent[i].rank()));
        reveal_with_fuel(lex_less, 2);
    }
}

/// The digest of a configuration covers each listener: its number, its address, port and
/// protocol, how many targets it has and each of them.
pub proof fn law_digest_covers_listeners(
    assignments: Seq<ListenerAssignment>,
    assignment: ListenerAssignment,
    targets: Seq<NativeTarget>,
    target: NativeTarget,
)
    ensures
        config_bytes(Seq::empty()) == Seq::<u8>::empty(),
        config_bytes(assignments.push(assignment)) == config_bytes(assignments) + listener_bytes(
            assignment,
        ),
        target_bytes(Seq::empty()) == Seq::<u8>::empty(),
        target_bytes(targets.push(target)) == target_bytes(targets) + le_bytes(
            target.address as nat,
            4,
        ) + le_bytes(target.port as nat, 2),
        ({
            let s = listener_bytes(assignment);
            let key = assignment.listener.key;
            &&& s.subrange(0, 4) == le_bytes(assignment.listener_id as nat, 4)
            &&& s.subrange(4, 8) == le_bytes(key.vip_ip as nat, 4)
            &&& s.subrange(8, 10) == le_bytes(key.vip_port as nat, 2)
            &&& key.protocol == NativeProtocol::Tcp ==> s[10] == 6
            &&& key.protocol == NativeProtocol::Udp ==> s[10] == 17
            &&& s.subrange(11, 15) == le_bytes(
                (assignment.listener.targets@.len() as u32) as nat,
                4,
            )
            &&& s.skip(15) == target_bytes(assignment.listener.targets@)
        }),
{
    assert(assignments.push(assignment).drop_last() =~= assignments);
    assert(targets.push(target).drop_last() =~= targets);
    let s = listener_bytes(assignment);
    let key = assignment.listener.key;
    let count = (assignment.listener.targets@.len() as u32) as nat;
    lemma_le_bytes_len(assignment.listener_id as nat, 4);
    lemma_le_bytes_len(key.vip_ip as nat, 4);
    lemma_le_bytes_len(key.vip_port as nat, 2);
    lemma_le_bytes_len(proto_number(key.protocol) as nat, 1);
    lemma_le_bytes_len(count, 4);
    reveal_with_fuel(le_bytes, 2);
    assert(s.subrange(0, 4) =~= le_bytes(assignment.listener_id as nat, 4));
    assert(s.subrange(4, 8) =~= le_bytes(key.vip_ip as nat, 4));
    assert(s.subrange(8, 10) =~= le_bytes(key.vip_port as nat, 2));
    assert(s[10] == le_bytes(proto_number(key.protocol) as nat, 1)[0]);
    assert(s.subrange(11, 15) =~= le_bytes(count, 4));
    assert(s.skip(15) =~= target_bytes(assignment.listener.targets@));
}

/// A file holds the name of its node, when it was saved, the digest of the configuration and
/// the flows that are kept.
pub proof fn law_file_holds_what_is_kept(
    pairs: Seq<SnapshotPair>,
    assignments: Seq<ListenerAssignment>,
    node_name: Seq<char>,
    saved_at_unix_ns: u64,
)
    ensures
        next_file(pairs, assignments, node_name, saved_at_unix_ns).saved_at_unix_ns
            == saved_at_unix_ns,
        next_file(pairs, assignments, node_name, saved_at_unix_ns).node_name == node_name,
        next_file(pairs, assignments, node_name, saved_at_unix_ns).config_digest == sha256(
            config_bytes(assignments),
        ),
        next_file(pairs, assignments, node_name, saved_at_unix_ns).entries == pair_entries(pairs),
{
}

/// Flows of a file age by the time since it was saved; a clock that went back adds nothing.
pub proof fn law_files_age(
    order: ByteOrder,
    snapshot: SnapshotView,
    assignments: Seq<ListenerAssignment>,
    elapsed_ns: u64,
    now_ns: u64,
)
    requires
        snapshot.saved_at_unix_ns + elapsed_ns <= u64::MAX,
    ensures
        ({
            let flows = flows_of(order, snapshot.entries, pairs_of(order, snapshot.entries));
            let now = (snapshot.saved_at_unix_ns + elapsed_ns) as u64;
            &&& restored_file(order, snapshot, assignments, now, now_ns) == restored(
                order,
                flows,
                assignments,
                elapsed_ns,
                now_ns,
            )
            &&& snapshot.saved_at_unix_ns > 0 ==> restored_file(
                order,
                snapshot,
                assignments,
                0,
                now_ns,
            ) == restored(order, flows, assignments, 0, now_ns)
        }),
{
}

} // verus!
