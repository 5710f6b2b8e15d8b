//! Replicating flows from the active gateway to its peer.
use super::flow::{age_ns, flow_age, FlowEntry, FlowKey, FlowValue};
use super::flow_table::{
    distinct_rows, law_row_is_found, lemma_row_at_is, row_of, with_row, FlowTable,
};
use crate::config::GatewayHaPeer;
use crate::net::{ip_value, parse_ip, IpAddr};
use crate::text::{chars_of, clone_opt_text, same_text};
use vstd::prelude::*;

verus! {

/// How often flow events are looked for, in milliseconds.
pub const EVENT_POLL_INTERVAL_MS: u64 = 25;

/// How long operations are gathered, in milliseconds.
pub const PENDING_FLUSH_INTERVAL_MS: u64 = 50;

/// How soon flows are compared again after a fault, in milliseconds.
pub const RECONCILE_RECOVERY_INTERVAL_MS: u64 = 2_000;

/// How often flows are compared, in milliseconds.
pub const RECONCILE_HEALTHY_INTERVAL_MS: u64 = 10_000;

/// How often flows are compared sooner after a fault.
pub const RECONCILE_RECOVERY_ROUNDS: u8 = 3;

/// How many operations go out at once.
pub const MAX_SYNC_OPS_PER_BATCH: usize = 4096;

// ---------------------------------------------------------------------------
// Status
// ---------------------------------------------------------------------------

/// How replication fares.
#[derive(Clone, Debug)]
pub struct XsyncStatus {
    pub state: String,
    pub peer: Option<String>,
    pub last_error: Option<String>,
    pub last_ack_applied: usize,
}

impl XsyncStatus {
    /// The status before replication starts.
    pub fn new() -> (status: Self)
        ensures
            status.state@ == "disabled"@,
            status.peer is None,
            status.last_error is None,
            status.last_ack_applied == 0,
    {
        XsyncStatus {
            state: String::from_str("disabled"),
            peer: None,
            last_error: None,
            last_ack_applied: 0,
        }
    }

    /// Notes a state and an error, or that there is none. A peer that is not named
    /// stays.
    pub fn set_state(&mut self, state: &str, peer: Option<String>, error: Option<String>)
        ensures
            final(self).state@ == state@,
            final(self).peer == if peer is Some {
                peer
            } else {
                old(self).peer
            },
            final(self).last_error == error,
            final(self).last_ack_applied == old(self).last_ack_applied,
    {
        self.state = String::from_str(state);
        if peer.is_some() {
            self.peer = peer;
        }
        self.last_error = error;
    }

    /// Notes how many operations the peer accepted.
    pub fn set_ack(&mut self, applied: usize)
        ensures
            final(self).last_ack_applied == applied,
            final(self).state == old(self).state,
            final(self).peer == old(self).peer,
            final(self).last_error == old(self).last_error,
    {
        self.last_ack_applied = applied;
    }

    /// Notes an error.
    pub fn set_error(&mut self, error: String)
        ensures
            final(self).state@ == "error"@,
            final(self).peer == old(self).peer,
            final(self).last_error == Some(error),
            final(self).last_ack_applied == old(self).last_ack_applied,
    {
        self.set_state("error", None, Some(error));
    }

    /// A copy of the status.
    pub fn snapshot(&self) -> (status: XsyncStatus)
        ensures
            status == *self,
    {
        XsyncStatus {
            state: self.state.clone(),
            peer: clone_opt_text(&self.peer),
            last_error: clone_opt_text(&self.last_error),
            last_ack_applied: self.last_ack_applied,
        }
    }
}

// ---------------------------------------------------------------------------
// Who may send
// ---------------------------------------------------------------------------

/// Why a request is refused.
#[derive(Clone, Copy, Debug, PartialEq, Eq, Structural)]
pub enum SyncRefusal {
    /// Where the request comes from is not known.
    NoSource,
    /// There is no peer.
    NoPeer,
    /// The address of the peer is none.
    BadPeerAddress,
    /// The request comes from another address than the peer's.
    WrongAddress,
    /// The request names another sender than the peer.
    WrongName,
    /// The token is wrong.
    BadToken,
    /// This gateway is active: it sends flows and takes none.
    Active,
}

/// Whether a request is accepted. `token_ok` says that its token is that of the
/// session, `active` that this gateway is active.
pub open spec fn sync_allowed(
    source: Option<IpAddr>,
    peers: Seq<GatewayHaPeer>,
    sender: Seq<char>,
    token_ok: bool,
    active: bool,
) -> Result<(), SyncRefusal> {
    if source is None {
        Err(SyncRefusal::NoSource)
    } else if peers.len() == 0 {
        Err(SyncRefusal::NoPeer)
    } else {
        match ip_value(peers[0].underlay_ip@) {
            None => Err(SyncRefusal::BadPeerAddress),
            Some(ip) => if source != Some(ip) {
                Err(SyncRefusal::WrongAddress)
            } else if sender != peers[0].name@ {
                Err(SyncRefusal::WrongName)
            } else if !token_ok {
                Err(SyncRefusal::BadToken)
            } else if active {
                Err(SyncRefusal::Active)
            } else {
                Ok(())
            },
        }
    }
}

/// Decides whether a request is accepted.
pub fn authorize_proto_request(
    source: Option<IpAddr>,
    peers: &[GatewayHaPeer],
    sender: &str,
    token_ok: bool,
    active: bool,
) -> (result: Result<(), SyncRefusal>)
    ensures
        result == sync_allowed(source, peers@, sender@, token_ok, active),
{
    let source = match source {
        Some(source) => source,
        None => {
            return Err(SyncRefusal::NoSource);
        },
    };
    if peers.len() == 0 {
        return Err(SyncRefusal::NoPeer);
    }
    let chars = chars_of(peers[0].underlay_ip.as_str());
    match parse_ip(chars.as_slice()) {
        None => Err(SyncRefusal::BadPeerAddress),
        Some(ip) => if source != ip {
            Err(SyncRefusal::WrongAddress)
        } else if !same_text(sender, peers[0].name.as_str()) {
            Err(SyncRefusal::WrongName)
        } else if !token_ok {
            Err(SyncRefusal::BadToken)
        } else if active {
            Err(SyncRefusal::Active)
        } else {
            Ok(())
        },
    }
}

// ---------------------------------------------------------------------------
// Flows on the wire
// ---------------------------------------------------------------------------

/// A key on the wire.
#[derive(Clone, Copy, Debug, PartialEq, Eq, Structural)]
pub struct WireKey {
    pub src: u32,
    pub dst: u32,
    pub sport: u32,
    pub dport: u32,
    pub proto: u32,
}

/// A value on the wire: it says how long ago the flow was last seen, since the
/// clocks of two gateways differ.
#[derive(Clone, Copy, Debug, PartialEq, Eq, Structural)]
pub struct WireValue {
    pub listener_id: u32,
    pub target_id: u32,
    pub vip: u32,
    pub target: u32,
    pub vip_port: u32,
    pub target_port: u32,
    pub timeout_secs: u32,
    pub last_seen_age_ns: u64,
}

#[derive(Clone, Copy, Debug, PartialEq, Eq, Structural)]
pub struct WireEntry {
    pub key: Option<WireKey>,
    pub value: Option<WireValue>,
}

/// Why a flow on the wire is none.
#[derive(Clone, Copy, Debug, PartialEq, Eq, Structural)]
pub enum WireFault {
    NoKey,
    NoValue,
    SourcePort,
    DestinationPort,
    Protocol,
    VipPort,
    TargetPort,
}

/// A key on the wire.
pub fn key_to_proto(key: FlowKey) -> (wire: WireKey)
    ensures
        wire == wire_key(key),
{
    WireKey {
        src: key.src,
        dst: key.dst,
        sport: key.sport as u32,
        dport: key.dport as u32,
        proto: key.proto as u32,
    }
}

/// A key on the wire.
pub open spec fn wire_key(key: FlowKey) -> WireKey {
    WireKey {
        src: key.src,
        dst: key.dst,
        sport: key.sport as u32,
        dport: key.dport as u32,
        proto: key.proto as u32,
    }
}

/// The key of a key on the wire.
pub open spec fn plain_key(key: WireKey) -> Result<FlowKey, WireFault> {
    if key.sport > u16::MAX {
        Err(WireFault::SourcePort)
    } else if key.dport > u16::MAX {
        Err(WireFault::DestinationPort)
    } else if key.proto > u8::MAX {
        Err(WireFault::Protocol)
    } else {
        Ok(
            FlowKey {
                src: key.src,
                dst: key.dst,
                sport: key.sport as u16,
                dport: key.dport as u16,
                proto: key.proto as u8,
            },
        )
    }
}

/// The key of a key on the wire.
pub fn key_from_proto(key: WireKey) -> (plain: Result<FlowKey, WireFault>)
    ensures
        plain == plain_key(key),
{
    if key.sport > 0xffff {
        return Err(WireFault::SourcePort);
    }
    if key.dport > 0xffff {
        return Err(WireFault::DestinationPort);
    }
    if key.proto > 0xff {
        return Err(WireFault::Protocol);
    }
    Ok(
        FlowKey {
            src: key.src,
            dst: key.dst,
            sport: key.sport as u16,
            dport: key.dport as u16,
            proto: key.proto as u8,
        },
    )
}

/// A flow on the wire.
pub open spec fn wire_entry(entry: FlowEntry, now_ns: u64) -> WireEntry {
    WireEntry {
        key: Some(wire_key(entry.key)),
        value: Some(
            WireValue {
                listener_id: entry.value.listener_id,
                target_id: entry.value.target_id,
                vip: entry.value.vip,
                target: entry.value.target,
                vip_port: entry.value.vip_port as u32,
                target_port: entry.value.target_port as u32,
                timeout_secs: entry.value.timeout_secs,
                last_seen_age_ns: age_ns(entry.value.last_seen_ns, now_ns),
            },
        ),
    }
}

/// A flow on the wire.
pub fn entry_to_proto(entry: &FlowEntry, now_ns: u64) -> (wire: WireEntry)
    ensures
        wire == wire_entry(*entry, now_ns),
{
    WireEntry {
        key: Some(key_to_proto(entry.key)),
        value: Some(
            WireValue {
                listener_id: entry.value.listener_id,
                target_id: entry.value.target_id,
                vip: entry.value.vip,
                target: entry.value.target,
                vip_port: entry.value.vip_port as u32,
                target_port: entry.value.target_port as u32,
                timeout_secs: entry.value.timeout_secs,
                last_seen_age_ns: flow_age(entry.value.last_seen_ns, now_ns),
            },
        ),
    }
}

/// When a flow of an age was last seen, by the clock of this node.
pub open spec fn seen_at(age: u64, now_ns: u64) -> u64 {
    if now_ns >= age {
        (now_ns - age) as u64
    } else {
        0
    }
}

/// When a flow of an age was last seen, by the clock of this node.
pub fn local_last_seen_ns(age: u64, now_ns: u64) -> (seen: u64)
    ensures
        seen == seen_at(age, now_ns),
{
    if now_ns >= age {
        now_ns - age
    } else {
        0
    }
}

/// The flow of a flow on the wire.
pub open spec fn plain_entry(entry: WireEntry, now_ns: u64) -> Result<FlowEntry, WireFault> {
    match entry.key {
        None => Err(WireFault::NoKey),
        Some(key) => match plain_key(key) {
            Err(fault) => Err(fault),
            Ok(key) => match entry.value {
                None => Err(WireFault::NoValue),
                Some(value) => if value.vip_port > u16::MAX {
                    Err(WireFault::VipPort)
                } else if value.target_port > u16::MAX {
                    Err(WireFault::TargetPort)
                } else {
                    Ok(
                        FlowEntry {
                            key,
                            value: FlowValue {
                                listener_id: value.listener_id,
                                target_id: value.target_id,
                                vip: value.vip,
                                target: value.target,
                                vip_port: value.vip_port as u16,
                                target_port: value.target_port as u16,
                                timeout_secs: value.timeout_secs,
                                last_seen_ns: seen_at(value.last_seen_age_ns, now_ns),
                            },
                        },
                    )
                },
            },
        },
    }
}

/// The flow of a flow on the wire.
pub fn entry_from_proto_at(entry: &WireEntry, now_ns: u64) -> (plain: Result<FlowEntry, WireFault>)
    ensures
        plain == plain_entry(*entry, now_ns),
{
    let key = match entry.key {
        None => {
            return Err(WireFault::NoKey);
        },
        Some(key) => match key_from_proto(key) {
            Err(fault) => {
                return Err(fault);
            },
            Ok(key) => key,
        },
    };
    let value = match entry.value {
        None => {
            return Err(WireFault::NoValue);
        },
        Some(value) => value,
    };
    if value.vip_port > 0xffff {
        return Err(WireFault::VipPort);
    }
    if value.target_port > 0xffff {
        return Err(WireFault::TargetPort);
    }
    Ok(
        FlowEntry {
            key,
            value: FlowValue {
                listener_id: value.listener_id,
                target_id: value.target_id,
                vip: value.vip,
                target: value.target,
                vip_port: value.vip_port as u16,
                target_port: value.target_port as u16,
                timeout_secs: value.timeout_secs,
                last_seen_ns: local_last_seen_ns(value.last_seen_age_ns, now_ns),
            },
        },
    )
}

/// The flows of flows on the wire; a single bad one spoils all.
pub open spec fn plain_entries(entries: Seq<WireEntry>, now_ns: u64) -> Result<
    Seq<FlowEntry>,
    WireFault,
>
    decreases entries.len(),
{
    if entries.len() == 0 {
        Ok(Seq::empty())
    } else {
        match plain_entries(entries.drop_last(), now_ns) {
            Err(fault) => Err(fault),
            Ok(before) => match plain_entry(entries.last(), now_ns) {
                Err(fault) => Err(fault),
                Ok(entry) => Ok(before.push(entry)),
            },
        }
    }
}

/// The keys of keys on the wire; a single bad one spoils all.
pub open spec fn plain_keys(keys: Seq<WireKey>) -> Result<Seq<FlowKey>, WireFault>
    decreases keys.len(),
{
    if keys.len() == 0 {
        Ok(Seq::empty())
    } else {
        match plain_keys(keys.drop_last()) {
            Err(fault) => Err(fault),
            Ok(before) => match plain_key(keys.last()) {
                Err(fault) => Err(fault),
                Ok(key) => Ok(before.push(key)),
            },
        }
    }
}

proof fn lemma_entries_stay_err(entries: Seq<WireEntry>, now_ns: u64, n: int)
    requires
        0 <= n <= entries.len(),
        plain_entries(entries.take(n), now_ns) is Err,
    ensures
        plain_entries(entries, now_ns) == plain_entries(entries.take(n), now_ns),
    decreases entries.len() - n,
{
    if n < entries.len() {
        assert(entries.take(n + 1).drop_last() =~= entries.take(n));
        lemma_entries_stay_err(entries, now_ns, n + 1);
    } else {
        assert(entries.take(n) =~= entries);
    }
}

proof fn lemma_keys_stay_err(keys: Seq<WireKey>, n: int)
    requires
        0 <= n <= keys.len(),
        plain_keys(keys.take(n)) is Err,
    ensures
        plain_keys(keys) == plain_keys(keys.take(n)),
    decreases keys.len() - n,
{
    if n < keys.len() {
        assert(keys.take(n + 1).drop_last() =~= keys.take(n));
        lemma_keys_stay_err(keys, n + 1);
    } else {
        assert(keys.take(n) =~= keys);
    }
}

fn decode_entries(entries: &[WireEntry], now_ns: u64) -> (out: Result<Vec<FlowEntry>, WireFault>)
    ensures
        match (out, plain_entries(entries@, now_ns)) {
            (Ok(out), Ok(list)) => out@ == list,
            (Err(fault), Err(error)) => fault == error,
            _ => false,
        },
{
    let mut out: Vec<FlowEntry> = Vec::new();
    let mut i: usize = 0;
    while i < entries.len()
        invariant
            i <= entries.len(),
            plain_entries(entries@.take(i as int), now_ns) == Ok::<Seq<FlowEntry>, WireFault>(out@),
        decreases entries.len() - i,
    {
        assert(entries@.take(i + 1).drop_last() =~= entries@.take(i as int));
        assert(entries@.take(i + 1).last() == entries@[i as int]);
        match entry_from_proto_at(&entries[i], now_ns) {
            Ok(entry) => out.push(entry),
            Err(fault) => {
                proof {
                    lemma_entries_stay_err(entries@, now_ns, i + 1);
                }
                return Err(fault);
            },
        }
        i += 1;
    }
    assert(entries@.take(entries@.len() as int) =~= entries@);
    Ok(out)
}

fn decode_keys(keys: &[WireKey]) -> (out: Result<Vec<FlowKey>, WireFault>)
    ensures
        match (out, plain_keys(keys@)) {
            (Ok(out), Ok(list)) => out@ == list,
            (Err(fault), Err(error)) => fault == error,
            _ => false,
        },
{
    let mut out: Vec<FlowKey> = Vec::new();
    let mut i: usize = 0;
    while i < keys.len()
        invariant
            i <= keys.len(),
            plain_keys(keys@.take(i as int)) == Ok::<Seq<FlowKey>, WireFault>(out@),
        decreases keys.len() - i,
    {
        assert(keys@.take(i + 1).drop_last() =~= keys@.take(i as int));
        assert(keys@.take(i + 1).last() == keys@[i as int]);
        match key_from_proto(keys[i]) {
            Ok(key) => out.push(key),
            Err(fault) => {
                proof {
                    lemma_keys_stay_err(keys@, i + 1);
                }
                return Err(fault);
            },
        }
        i += 1;
    }
    assert(keys@.take(keys@.len() as int) =~= keys@);
    Ok(out)
}

/// Operations on the flows of a gateway.
#[derive(Clone, Debug)]
pub struct FlowSyncBatch {
    pub entries: Vec<FlowEntry>,
    pub deletes: Vec<FlowKey>,
}

/// Reads the operations of a request. A request with a bad flow is refused as a
/// whole.
pub fn decode_request(entries: &[WireEntry], deletes: &[WireKey], now_ns: u64) -> (batch: Result<
    FlowSyncBatch,
    WireFault,
>)
    ensures
        match (batch, plain_entries(entries@, now_ns), plain_keys(deletes@)) {
            (Ok(batch), Ok(list), Ok(keys)) => batch.entries@ == list && batch.deletes@ == keys,
            (Err(fault), Err(error), _) => fault == error,
            (Err(fault), Ok(_), Err(error)) => fault == error,
            _ => false,
        },
{
    let entries = match decode_entries(entries, now_ns) {
        Ok(entries) => entries,
        Err(fault) => {
            return Err(fault);
        },
    };
    match decode_keys(deletes) {
        Ok(deletes) => Ok(FlowSyncBatch { entries, deletes }),
        Err(fault) => Err(fault),
    }
}

/// What is done with a request of the peer.
#[derive(Clone, Debug)]
pub enum ReplicaStep {
    /// The stream ends; the sender is told that it may not send.
    Refuse(SyncRefusal),
    /// The stream ends; the sender is told that the request was bad.
    Fault(WireFault),
    /// The flows are taken over, and their number is acknowledged.
    Apply(FlowSyncBatch),
}

/// Decides what is done with a request of the peer. A request of someone else is
/// refused before its flows are looked at.
pub fn replicate(
    source: Option<IpAddr>,
    peers: &[GatewayHaPeer],
    sender: &str,
    token_ok: bool,
    active: bool,
    entries: &[WireEntry],
    deletes: &[WireKey],
    now_ns: u64,
) -> (step: ReplicaStep)
    ensures
        match sync_allowed(source, peers@, sender@, token_ok, active) {
            Err(refusal) => step == ReplicaStep::Refuse(refusal),
            Ok(()) => match (step, plain_entries(entries@, now_ns), plain_keys(deletes@)) {
                (ReplicaStep::Apply(batch), Ok(list), Ok(keys)) => batch.entries@ == list
                    && batch.deletes@ == keys,
                (ReplicaStep::Fault(fault), Err(error), _) => fault == error,
                (ReplicaStep::Fault(fault), Ok(_), Err(error)) => fault == error,
                _ => false,
            },
        },
{
    if let Err(refusal) = authorize_proto_request(source, peers, sender, token_ok, active) {
        return ReplicaStep::Refuse(refusal);
    }
    match decode_request(entries, deletes, now_ns) {
        Ok(batch) => ReplicaStep::Apply(batch),
        Err(fault) => ReplicaStep::Fault(fault),
    }
}

/// How many operations there are, as far as they can be counted.
pub open spec fn operations(entries: Seq<FlowEntry>, deletes: Seq<FlowKey>) -> nat {
    if entries.len() + deletes.len() <= usize::MAX {
        entries.len() + deletes.len()
    } else {
        usize::MAX as nat
    }
}

impl FlowSyncBatch {
    /// How many operations there are.
    pub fn operation_count(&self) -> (count: usize)
        ensures
            count == operations(self.entries@, self.deletes@),
    {
        if self.entries.len() <= usize::MAX - self.deletes.len() {
            self.entries.len() + self.deletes.len()
        } else {
            usize::MAX
        }
    }

    /// Whether there are none.
    pub fn is_empty(&self) -> (b: bool)
        ensures
            b == (self.entries@.len() == 0 && self.deletes@.len() == 0),
    {
        self.entries.len() == 0 && self.deletes.len() == 0
    }

    /// The operations on the wire.
    pub fn encode(&self, now_ns: u64) -> (wire: (Vec<WireEntry>, Vec<WireKey>))
        ensures
            wire.0@ == self.entries@.map_values(|entry: FlowEntry| wire_entry(entry, now_ns)),
            wire.1@ == self.deletes@.map_values(|key: FlowKey| wire_key(key)),
    {
        let ghost all = self.entries@.map_values(|entry: FlowEntry| wire_entry(entry, now_ns));
        let ghost gone = self.deletes@.map_values(|key: FlowKey| wire_key(key));
        let mut entries: Vec<WireEntry> = Vec::new();
        let mut i: usize = 0;
        while i < self.entries.len()
            invariant
                i <= self.entries.len(),
                all == self.entries@.map_values(|entry: FlowEntry| wire_entry(entry, now_ns)),
                entries@ == all.take(i as int),
            decreases self.entries.len() - i,
        {
            entries.push(entry_to_proto(&self.entries[i], now_ns));
            i += 1;
            assert(entries@ =~= all.take(i as int));
        }
        assert(all.take(all.len() as int) =~= all);
        let mut deletes: Vec<WireKey> = Vec::new();
        let mut j: usize = 0;
        while j < self.deletes.len()
            invariant
                j <= self.deletes.len(),
                gone == self.deletes@.map_values(|key: FlowKey| wire_key(key)),
                deletes@ == gone.take(j as int),
            decreases self.deletes.len() - j,
        {
            deletes.push(key_to_proto(self.deletes[j]));
            j += 1;
            assert(deletes@ =~= gone.take(j as int));
        }
        assert(gone.take(gone.len() as int) =~= gone);
        (entries, deletes)
    }
}

// ---------------------------------------------------------------------------
// Gathering operations
// ---------------------------------------------------------------------------

/// A change of the flows.
#[derive(Clone, Copy, Debug, PartialEq, Eq, Structural)]
pub enum FlowMutation {
    Upsert(FlowEntry),
    Delete(FlowKey),
}

/// What is to be done about a flow.
#[derive(Clone, Copy, Debug, PartialEq, Eq, Structural)]
pub enum FlowOp {
    Upsert(FlowValue),
    Delete,
}

/// Operations after a change: one per flow. A flow that was seen earlier than the
/// one to be sent does not replace it.
pub open spec fn gathered(rows: Seq<(FlowKey, FlowOp)>, mutation: FlowMutation) -> Seq<
    (FlowKey, FlowOp),
> {
    match mutation {
        FlowMutation::Upsert(entry) => match row_of(rows, entry.key) {
            Some(FlowOp::Upsert(value)) => if entry.value.last_seen_ns < value.last_seen_ns {
                rows
            } else {
                with_row(rows, entry.key, FlowOp::Upsert(entry.value))
            },
            _ => with_row(rows, entry.key, FlowOp::Upsert(entry.value)),
        },
        FlowMutation::Delete(key) => with_row(rows, key, FlowOp::Delete),
    }
}

/// Operations after changes.
pub open spec fn gathered_all(rows: Seq<(FlowKey, FlowOp)>, mutations: Seq<FlowMutation>) -> Seq<
    (FlowKey, FlowOp),
>
    decreases mutations.len(),
{
    if mutations.len() == 0 {
        rows
    } else {
        gathered(gathered_all(rows, mutations.drop_last()), mutations.last())
    }
}

/// Flows as changes.
pub open spec fn upserts(entries: Seq<FlowEntry>) -> Seq<FlowMutation> {
    entries.map_values(|entry: FlowEntry| FlowMutation::Upsert(entry))
}

/// Flows that are gone, as changes.
pub open spec fn deletes(keys: Seq<FlowKey>) -> Seq<FlowMutation> {
    keys.map_values(|key: FlowKey| FlowMutation::Delete(key))
}

/// Operations split into those that go out and the rest.
pub struct Split {
    pub entries: Seq<FlowEntry>,
    pub deletes: Seq<FlowKey>,
    pub left: Seq<(FlowKey, FlowOp)>,
}

/// The first `up` flows to send and the first `down` flows that are gone, and the
/// rest.
pub open spec fn split(rows: Seq<(FlowKey, FlowOp)>, up: nat, down: nat) -> Split
    decreases rows.len(),
{
    if rows.len() == 0 {
        Split { entries: Seq::empty(), deletes: Seq::empty(), left: Seq::empty() }
    } else {
        let (key, op) = rows[0];
        match op {
            FlowOp::Upsert(value) => if up > 0 {
                let rest = split(rows.skip(1), (up - 1) as nat, down);
                Split { entries: seq![FlowEntry { key, value }] + rest.entries, ..rest }
            } else {
                let rest = split(rows.skip(1), up, down);
                Split { left: seq![rows[0]] + rest.left, ..rest }
            },
            FlowOp::Delete => if down > 0 {
                let rest = split(rows.skip(1), up, (down - 1) as nat);
                Split { deletes: seq![key] + rest.deletes, ..rest }
            } else {
                let rest = split(rows.skip(1), up, down);
                Split { left: seq![rows[0]] + rest.left, ..rest }
            },
        }
    }
}

/// How many flows are to be sent, not counting above what goes out at once.
pub open spec fn upsert_count(rows: Seq<(FlowKey, FlowOp)>) -> nat
    decreases rows.len(),
{
    if rows.len() == 0 {
        0
    } else {
        let before = upsert_count(rows.drop_last());
        if rows.last().1 is Upsert && before < MAX_SYNC_OPS_PER_BATCH {
            before + 1
        } else {
            before
        }
    }
}

/// What goes out next: flows to be sent first, then flows that are gone.
pub open spec fn next_batch(rows: Seq<(FlowKey, FlowOp)>) -> Split {
    split(
        rows,
        MAX_SYNC_OPS_PER_BATCH as nat,
        (MAX_SYNC_OPS_PER_BATCH - upsert_count(rows)) as nat,
    )
}

/// Whether to send operations that wait since a time: there are some, and it is asked
/// for, there are enough, or they waited long enough.
pub open spec fn due_to_flush(
    rows: Seq<(FlowKey, FlowOp)>,
    oldest_ms: Option<u64>,
    now_ms: u64,
    force: bool,
) -> bool {
    rows.len() > 0 && (force || rows.len() >= MAX_SYNC_OPS_PER_BATCH || (oldest_ms matches Some(ms)
        && now_ms >= ms + PENDING_FLUSH_INTERVAL_MS))
}

/// Since when operations wait, after some came in or none did.
pub open spec fn waiting_since(oldest_ms: Option<u64>, came_in: bool, now_ms: u64) -> Option<u64> {
    if !came_in || oldest_ms is Some {
        oldest_ms
    } else {
        Some(now_ms)
    }
}

/// Operations that are gathered before they go out. Times are milliseconds.
pub struct PendingFlowBatch {
    pub states: FlowTable<FlowOp>,
    pub oldest_update_ms: Option<u64>,
}

impl PendingFlowBatch {
    /// The operations.
    pub open spec fn rows(&self) -> Seq<(FlowKey, FlowOp)> {
        self.states@
    }

    pub open spec fn wf(&self) -> bool {
        self.states.wf()
    }

    /// No operations.
    pub fn new() -> (pending: Self)
        ensures
            pending.wf(),
            pending.rows() == Seq::<(FlowKey, FlowOp)>::empty(),
            pending.oldest_update_ms is None,
    {
        PendingFlowBatch { states: FlowTable::new(), oldest_update_ms: None }
    }

    /// How many operations there are.
    pub fn operation_count(&self) -> (count: usize)
        ensures
            count == self.rows().len(),
    {
        self.states.len()
    }

    fn mark_updated(&mut self, now_ms: u64)
        ensures
            final(self).states == old(self).states,
            final(self).oldest_update_ms == Some(
                match old(self).oldest_update_ms {
                    Some(ms) => ms,
                    None => now_ms,
                },
            ),
    {
        if self.oldest_update_ms.is_none() {
            self.oldest_update_ms = Some(now_ms);
        }
    }

    fn apply(&mut self, mutation: FlowMutation)
        requires
            old(self).wf(),
        ensures
            final(self).wf(),
            final(self).rows() == gathered(old(self).rows(), mutation),
            final(self).oldest_update_ms == old(self).oldest_update_ms,
    {
        match mutation {
            FlowMutation::Upsert(entry) => {
                let stale = match self.states.get(entry.key) {
                    Some(FlowOp::Upsert(value)) => entry.value.last_seen_ns < value.last_seen_ns,
                    _ => false,
                };
                if !stale {
                    self.states.insert(entry.key, FlowOp::Upsert(entry.value));
                }
            },
            FlowMutation::Delete(key) => self.states.insert(key, FlowOp::Delete),
        }
    }

    /// Gathers changes. The waiting time counts from the first of them.
    pub fn apply_mutations(&mut self, mutations: &[FlowMutation], now_ms: u64)
        requires
            old(self).wf(),
        ensures
            final(self).wf(),
            final(self).rows() == gathered_all(old(self).rows(), mutations@),
            final(self).oldest_update_ms == waiting_since(
                old(self).oldest_update_ms,
                mutations@.len() > 0,
                now_ms,
            ),
    {
        if mutations.len() == 0 {
            return ;
        }
        let ghost start = self.rows();
        self.mark_updated(now_ms);
        let ghost oldest = self.oldest_update_ms;
        let mut i: usize = 0;
        while i < mutations.len()
            invariant
                i <= mutations.len(),
                self.wf(),
                self.oldest_update_ms == oldest,
                self.rows() == gathered_all(start, mutations@.take(i as int)),
            decreases mutations.len() - i,
        {
            assert(mutations@.take(i + 1).drop_last() =~= mutations@.take(i as int));
            assert(mutations@.take(i + 1).last() == mutations@[i as int]);
            self.apply(mutations[i]);
            i += 1;
        }
        assert(mutations@.take(mutations@.len() as int) =~= mutations@);
    }

    /// Gathers flows to be sent.
    pub fn apply_entries(&mut self, entries: &[FlowEntry], now_ms: u64)
        requires
            old(self).wf(),
        ensures
            final(self).wf(),
            final(self).rows() == gathered_all(old(self).rows(), upserts(entries@)),
            final(self).oldest_update_ms == waiting_since(
                old(self).oldest_update_ms,
                entries@.len() > 0,
                now_ms,
            ),
    {
        let ghost all = upserts(entries@);
        let mut mutations: Vec<FlowMutation> = Vec::new();
        let mut i: usize = 0;
        while i < entries.len()
            invariant
                i <= entries.len(),
                all == upserts(entries@),
                mutations@ == all.take(i as int),
            decreases entries.len() - i,
        {
            mutations.push(FlowMutation::Upsert(entries[i]));
            i += 1;
            assert(mutations@ =~= all.take(i as int));
        }
        assert(all.take(all.len() as int) =~= all);
        self.apply_mutations(mutations.as_slice(), now_ms);
    }

    /// Gathers flows that are gone.
    pub fn apply_deletes(&mut self, keys: &[FlowKey], now_ms: u64)
        requires
            old(self).wf(),
        ensures
            final(self).wf(),
            final(self).rows() == gathered_all(old(self).rows(), deletes(keys@)),
            final(self).oldest_update_ms == waiting_since(
                old(self).oldest_update_ms,
                keys@.len() > 0,
                now_ms,
            ),
    {
        let ghost all = deletes(keys@);
        let mut mutations: Vec<FlowMutation> = Vec::new();
        let mut i: usize = 0;
        while i < keys.len()
            invariant
                i <= keys.len(),
                all == deletes(keys@),
                mutations@ == all.take(i as int),
            decreases keys.len() - i,
        {
            mutations.push(FlowMutation::Delete(keys[i]));
            i += 1;
            assert(mutations@ =~= all.take(i as int));
        }
        assert(all.take(all.len() as int) =~= all);
        self.apply_mutations(mutations.as_slice(), now_ms);
    }

    /// Takes back operations that the peer did not accept.
    pub fn requeue_batch(&mut self, batch: &FlowSyncBatch, now_ms: u64)
        requires
            old(self).wf(),
        ensures
            final(self).wf(),
            final(self).rows() == gathered_all(
                gathered_all(old(self).rows(), deletes(batch.deletes@)),
                upserts(batch.entries@),
            ),
            final(self).oldest_update_ms == waiting_since(
                old(self).oldest_update_ms,
                batch.entries@.len() + batch.deletes@.len() > 0,
                now_ms,
            ),
    {
        self.apply_deletes(batch.deletes.as_slice(), now_ms);
        self.apply_entries(batch.entries.as_slice(), now_ms);
    }

    /// Whether to send now: there is something, and it is asked for, there is
    /// enough, or it waited long enough.
    pub open spec fn flush_due(&self, now_ms: u64, force: bool) -> bool {
        due_to_flush(self.rows(), self.oldest_update_ms, now_ms, force)
    }

    /// Whether to send now.
    pub fn should_flush(&self, now_ms: u64, force: bool) -> (b: bool)
        ensures
            b == self.flush_due(now_ms, force),
    {
        if self.states.len() == 0 {
            return false;
        }
        force || self.states.len() >= MAX_SYNC_OPS_PER_BATCH || match self.oldest_update_ms {
            Some(ms) => now_ms >= ms && now_ms - ms >= PENDING_FLUSH_INTERVAL_MS,
            None => false,
        }
    }

    fn count_upserts(&self) -> (count: usize)
        ensures
            count == upsert_count(self.rows()),
            count <= MAX_SYNC_OPS_PER_BATCH,
    {
        let mut count: usize = 0;
        let mut i: usize = 0;
        while i < self.states.len()
            invariant
                i <= self.rows().len(),
                count == upsert_count(self.rows().take(i as int)),
                count <= MAX_SYNC_OPS_PER_BATCH,
            decreases self.rows().len() - i,
        {
            assert(self.rows().take(i + 1).drop_last() =~= self.rows().take(i as int));
            assert(self.rows().take(i + 1).last() == self.rows()[i as int]);
            let upsert = match self.states.row(i).1 {
                FlowOp::Upsert(_) => true,
                FlowOp::Delete => false,
            };
            if upsert && count < MAX_SYNC_OPS_PER_BATCH {
                count += 1;
            }
            i += 1;
        }
        assert(self.rows().take(self.rows().len() as int) =~= self.rows());
        count
    }

    /// Takes what goes out next: flows to be sent first, then flows that are gone,
    /// up to the limit. The waiting time of the rest counts anew.
    pub fn take_limited_batch(&mut self, now_ms: u64) -> (batch: FlowSyncBatch)
        requires
            old(self).wf(),
        ensures
            final(self).wf(),
            ({
                let next = next_batch(old(self).rows());
                &&& batch.entries@ == next.entries
                &&& batch.deletes@ == next.deletes
                &&& final(self).rows() == next.left
                &&& final(self).oldest_update_ms == if next.left.len() == 0 {
                    None
                } else {
                    Some(now_ms)
                }
            }),
    {
        let count = self.count_upserts();
        let mut up: usize = MAX_SYNC_OPS_PER_BATCH;
        let mut down: usize = MAX_SYNC_OPS_PER_BATCH - count;
        let ghost rows = self.rows();
        let ghost whole = next_batch(rows);
        let mut entries: Vec<FlowEntry> = Vec::new();
        let mut gone: Vec<FlowKey> = Vec::new();
        let mut left: FlowTable<FlowOp> = FlowTable::new();
        proof {
            self.states.lemma_distinct();
        }
        let mut i: usize = 0;
        assert(rows.skip(0) =~= rows);
        assert(entries@ + split(rows, up as nat, down as nat).entries =~= whole.entries);
        assert(gone@ + split(rows, up as nat, down as nat).deletes =~= whole.deletes);
        assert(left@ + split(rows, up as nat, down as nat).left =~= whole.left);
        while i < self.states.len()
            invariant
                i <= rows.len(),
                rows == self.rows(),
                distinct_rows(rows),
                left.wf(),
                entries@ + split(rows.skip(i as int), up as nat, down as nat).entries
                    == whole.entries,
                gone@ + split(rows.skip(i as int), up as nat, down as nat).deletes
                    == whole.deletes,
                left@ + split(rows.skip(i as int), up as nat, down as nat).left == whole.left,
                forall|k: int|
                    0 <= k < left@.len() ==> rows.take(i as int).contains(#[trigger] left@[k]),
            decreases rows.len() - i,
        {
            let ghost rest = rows.skip(i as int);
            assert(rest[0] == rows[i as int]);
            assert(rest.skip(1) =~= rows.skip(i + 1));
            let ghost before = (entries@, gone@, left@);
            let (key, op) = *self.states.row(i);
            let taken = match op {
                FlowOp::Upsert(value) => {
                    if up > 0 {
                        up -= 1;
                        entries.push(FlowEntry { key, value });
                        true
                    } else {
                        false
                    }
                },
                FlowOp::Delete => {
                    if down > 0 {
                        down -= 1;
                        gone.push(key);
                        true
                    } else {
                        false
                    }
                },
            };
            if !taken {
                proof {
                    assert forall|k: int| 0 <= k < left@.len() implies (#[trigger] left@[k]).0
                        != key by {
                        assert(rows.take(i as int).contains(left@[k]));
                        let j = choose|j: int|
                            0 <= j < rows.take(i as int).len() && rows.take(i as int)[j] == left@[k];
                        assert(rows[j].0 != rows[i as int].0);
                    }
                    lemma_row_at_is(left@, key, left@.len() as int);
                }
                left.insert(key, op);
            }
            proof {
                let after = split(rows.skip(i + 1), up as nat, down as nat);
                assert(entries@ + after.entries =~= before.0 + split(
                    rest,
                    (if op is Upsert && taken {
                        up + 1
                    } else {
                        up as int
                    }) as nat,
                    (if op is Delete && taken {
                        down + 1
                    } else {
                        down as int
                    }) as nat,
                ).entries);
                assert(gone@ + after.deletes =~= whole.deletes);
                assert(left@ + after.left =~= whole.left);
                assert forall|k: int| 0 <= k < left@.len() implies rows.take(i + 1).contains(
                    #[trigger] left@[k],
                ) by {
                    if k < before.2.len() {
                        assert(rows.take(i as int).contains(before.2[k]));
                        let j = choose|j: int|
                            0 <= j < rows.take(i as int).len() && rows.take(i as int)[j]
                                == before.2[k];
                        assert(rows.take(i + 1)[j] == left@[k]);
                    } else {
                        assert(rows.take(i + 1)[i as int] == left@[k]);
                    }
                }
            }
            i += 1;
        }
        assert(rows.skip(rows.len() as int).len() == 0);
        assert(entries@ =~= whole.entries);
        assert(gone@ =~= whole.deletes);
        assert(left@ =~= whole.left);
        self.oldest_update_ms = if left.len() == 0 {
            None
        } else {
            Some(now_ms)
        };
        self.states = left;
        FlowSyncBatch { entries, deletes: gone }
    }
}

// ---------------------------------------------------------------------------
// Comparing flows as a whole
// ---------------------------------------------------------------------------

/// A time in milliseconds that does not go above what can be held.
pub open spec fn later(now_ms: u64, wait_ms: u64) -> u64 {
    if now_ms + wait_ms <= u64::MAX {
        (now_ms + wait_ms) as u64
    } else {
        u64::MAX
    }
}

/// When the flows are compared as a whole.
#[derive(Clone, Copy, Debug, PartialEq, Eq, Structural)]
pub struct FullReconcileSchedule {
    pub next_at_ms: u64,
    pub recovery_rounds: u8,
}

impl FullReconcileSchedule {
    /// A schedule that is due at once.
    pub fn new(now_ms: u64) -> (schedule: Self)
        ensures
            schedule.next_at_ms == now_ms,
            schedule.recovery_rounds == 0,
    {
        FullReconcileSchedule { next_at_ms: now_ms, recovery_rounds: 0 }
    }

    /// Whether the flows are to be compared.
    pub fn due(&self, now_ms: u64) -> (due: bool)
        ensures
            due == (now_ms >= self.next_at_ms),
    {
        now_ms >= self.next_at_ms
    }

    /// The schedule once the flows were compared: again soon while there are rounds left
    /// after a fault, else after the usual time.
    pub open spec fn completed(self, now_ms: u64) -> FullReconcileSchedule {
        if self.recovery_rounds > 0 {
            FullReconcileSchedule {
                next_at_ms: later(now_ms, RECONCILE_RECOVERY_INTERVAL_MS),
                recovery_rounds: (self.recovery_rounds - 1) as u8,
            }
        } else {
            FullReconcileSchedule {
                next_at_ms: later(now_ms, RECONCILE_HEALTHY_INTERVAL_MS),
                recovery_rounds: 0,
            }
        }
    }

    /// Notes that the flows were compared: again soon while there are rounds left
    /// after a fault, else after the usual time.
    pub fn mark_completed(&mut self, now_ms: u64)
        ensures
            *final(self) == old(self).completed(now_ms),
    {
        let wait_ms: u64 = if self.recovery_rounds > 0 {
            self.recovery_rounds = self.recovery_rounds - 1;
            RECONCILE_RECOVERY_INTERVAL_MS
        } else {
            RECONCILE_HEALTHY_INTERVAL_MS
        };
        self.next_at_ms = if now_ms <= u64::MAX - wait_ms {
            now_ms + wait_ms
        } else {
            u64::MAX
        };
    }

    /// Has the flows compared at once, and a few times more often than usual.
    pub fn force_recovery(&mut self, now_ms: u64)
        ensures
            final(self).next_at_ms == now_ms,
            final(self).recovery_rounds == RECONCILE_RECOVERY_ROUNDS,
    {
        self.next_at_ms = now_ms;
        self.recovery_rounds = RECONCILE_RECOVERY_ROUNDS;
    }
}

/// Whether the peer accepted every operation that was sent.
pub fn flow_ack_covers_sent(expected: usize, accepted: u64) -> (b: bool)
    ensures
        b == (accepted == expected),
{
    accepted == expected as u64
}

// ---------------------------------------------------------------------------
// Laws
// ---------------------------------------------------------------------------

/// A flow on the wire arrives as it was sent; when it was last seen is rebased to
/// the clock of the receiver.
pub proof fn law_wire_keeps_flows(entry: FlowEntry, sent_ns: u64, received_ns: u64)
    ensures
        plain_entry(wire_entry(entry, sent_ns), received_ns) == Ok::<FlowEntry, WireFault>(
            FlowEntry {
                key: entry.key,
                value: FlowValue {
                    last_seen_ns: seen_at(age_ns(entry.value.last_seen_ns, sent_ns), received_ns),
                    ..entry.value
                },
            },
        ),
        plain_key(wire_key(entry.key)) == Ok::<FlowKey, WireFault>(entry.key),
{
}

/// A flow keeps its age on the way, as far as the clock of the receiver reaches
/// back.
pub proof fn law_wire_keeps_age(last_seen_ns: u64, sent_ns: u64, received_ns: u64)
    requires
        0 < last_seen_ns <= sent_ns,
        sent_ns - last_seen_ns < received_ns,
    ensures
        age_ns(seen_at(age_ns(last_seen_ns, sent_ns), received_ns), received_ns) == age_ns(
            last_seen_ns,
            sent_ns,
        ),
{
}

/// What was last said of a flow is what is sent of it: a later change replaces an
/// earlier one, but for a flow that was seen earlier.
pub proof fn law_last_change_counts(
    rows: Seq<(FlowKey, FlowOp)>,
    mutation: FlowMutation,
    other: FlowKey,
)
    ensures
        match mutation {
            FlowMutation::Delete(key) => row_of(gathered(rows, mutation), key) == Some(
                FlowOp::Delete,
            ),
            FlowMutation::Upsert(entry) => row_of(gathered(rows, mutation), entry.key) matches Some(
                FlowOp::Upsert(value),
            ) && value.last_seen_ns >= entry.value.last_seen_ns && (match row_of(rows, entry.key) {
                Some(FlowOp::Upsert(kept)) => entry.value.last_seen_ns >= kept.last_seen_ns
                    ==> value == entry.value,
                _ => value == entry.value,
            }),
        },
        other != mutation_key(mutation) ==> row_of(gathered(rows, mutation), other) == row_of(
            rows,
            other,
        ),
{
    match mutation {
        FlowMutation::Delete(key) => {
            law_row_is_found(rows, key, FlowOp::Delete, key);
            law_row_is_found(rows, key, FlowOp::Delete, other);
        },
        FlowMutation::Upsert(entry) => {
            law_row_is_found(rows, entry.key, FlowOp::Upsert(entry.value), entry.key);
            law_row_is_found(rows, entry.key, FlowOp::Upsert(entry.value), other);
        },
    }
}

/// The flow that a change is of.
pub open spec fn mutation_key(mutation: FlowMutation) -> FlowKey {
    match mutation {
        FlowMutation::Delete(key) => key,
        FlowMutation::Upsert(entry) => entry.key,
    }
}

/// How many of the rows are flows to be sent.
pub open spec fn all_upserts(rows: Seq<(FlowKey, FlowOp)>) -> nat
    decreases rows.len(),
{
    if rows.len() == 0 {
        0
    } else if rows[0].1 is Upsert {
        1 + all_upserts(rows.skip(1))
    } else {
        all_upserts(rows.skip(1))
    }
}

proof fn lemma_all_upserts_push(rows: Seq<(FlowKey, FlowOp)>)
    requires
        rows.len() > 0,
    ensures
        all_upserts(rows) == all_upserts(rows.drop_last()) + if rows.last().1 is Upsert {
            1nat
        } else {
            0nat
        },
    decreases rows.len(),
{
    if rows.len() > 1 {
        lemma_all_upserts_push(rows.skip(1));
        assert(rows.skip(1).drop_last() =~= rows.drop_last().skip(1));
        assert(rows.skip(1).last() == rows.last());
        assert(rows.drop_last()[0] == rows[0]);
    } else {
        assert(all_upserts(rows.drop_last()) == 0);
        assert(all_upserts(rows.skip(1)) == 0);
    }
}

proof fn lemma_upsert_count(rows: Seq<(FlowKey, FlowOp)>)
    ensures
        upsert_count(rows) == if all_upserts(rows) <= MAX_SYNC_OPS_PER_BATCH {
            all_upserts(rows)
        } else {
            MAX_SYNC_OPS_PER_BATCH as nat
        },
    decreases rows.len(),
{
    if rows.len() > 0 {
        lemma_upsert_count(rows.drop_last());
        lemma_all_upserts_push(rows);
    }
}

proof fn lemma_split(rows: Seq<(FlowKey, FlowOp)>, up: nat, down: nat)
    ensures
        ({
            let parts = split(rows, up, down);
            let sent = all_upserts(rows);
            let gone = (rows.len() - all_upserts(rows)) as nat;
            &&& all_upserts(rows) <= rows.len()
            &&& parts.entries.len() == if sent <= up {
                sent
            } else {
                up
            }
            &&& parts.deletes.len() == if gone <= down {
                gone
            } else {
                down
            }
            &&& parts.left.len() == rows.len() - parts.entries.len() - parts.deletes.len()
        }),
    decreases rows.len(),
{
    if rows.len() > 0 {
        let (key, op) = rows[0];
        match op {
            FlowOp::Upsert(value) => if up > 0 {
                lemma_split(rows.skip(1), (up - 1) as nat, down);
            } else {
                lemma_split(rows.skip(1), up, down);
            },
            FlowOp::Delete => if down > 0 {
                lemma_split(rows.skip(1), up, (down - 1) as nat);
            } else {
                lemma_split(rows.skip(1), up, down);
            },
        }
    }
}

/// No more operations go out at once than the limit allows; flows to be sent go
/// ahead of flows that are gone; what does not fit stays.
pub proof fn law_batch_is_bounded(rows: Seq<(FlowKey, FlowOp)>)
    ensures
        ({
            let next = next_batch(rows);
            &&& next.entries.len() + next.deletes.len() <= MAX_SYNC_OPS_PER_BATCH
            &&& next.left.len() == rows.len() - next.entries.len() - next.deletes.len()
            &&& rows.len() >= MAX_SYNC_OPS_PER_BATCH ==> next.entries.len() + next.deletes.len()
                == MAX_SYNC_OPS_PER_BATCH
            &&& rows.len() <= MAX_SYNC_OPS_PER_BATCH ==> next.left.len() == 0
            &&& all_upserts(rows) >= MAX_SYNC_OPS_PER_BATCH ==> next.deletes.len() == 0
        }),
{
    lemma_upsert_count(rows);
    lemma_split(
        rows,
        MAX_SYNC_OPS_PER_BATCH as nat,
        (MAX_SYNC_OPS_PER_BATCH - upsert_count(rows)) as nat,
    );
}

/// An active gateway takes no flows, whoever sends them.
pub proof fn law_active_takes_no_flows(
    source: Option<IpAddr>,
    peers: Seq<GatewayHaPeer>,
    sender: Seq<char>,
    token_ok: bool,
)
    ensures
        sync_allowed(source, peers, sender, token_ok, true) is Err,
        sync_allowed(source, peers, sender, false, false) is Err,
{
}

/// Flows are taken over of the first peer alone: from its address, under its name, with
/// the right token, and only while this gateway is not active. The refusal says what is
/// amiss first.
pub proof fn law_only_the_peer_may_send(
    source: IpAddr,
    peers: Seq<GatewayHaPeer>,
    sender: Seq<char>,
    token_ok: bool,
    active: bool,
    ip: IpAddr,
)
    requires
        peers.len() > 0,
        ip_value(peers[0].underlay_ip@) == Some(ip),
    ensures
        ({
            let result = sync_allowed(Some(source), peers, sender, token_ok, active);
            &&& result is Ok <==> source == ip && sender == peers[0].name@ && token_ok && !active
            &&& source != ip ==> result == Err::<(), SyncRefusal>(SyncRefusal::WrongAddress)
            &&& source == ip && sender != peers[0].name@ ==> result == Err::<(), SyncRefusal>(
                SyncRefusal::WrongName,
            )
            &&& source == ip && sender == peers[0].name@ && !token_ok ==> result == Err::<
                (),
                SyncRefusal,
            >(SyncRefusal::BadToken)
            &&& sync_allowed(None, peers, sender, token_ok, active) == Err::<(), SyncRefusal>(
                SyncRefusal::NoSource,
            )
            &&& sync_allowed(Some(source), Seq::empty(), sender, token_ok, active) == Err::<
                (),
                SyncRefusal,
            >(SyncRefusal::NoPeer)
        }),
{
}

/// A flow on the wire has each field of the flow under its own name, and says how long ago
/// it was seen.
pub proof fn law_wire_names_the_fields(entry: FlowEntry, now_ns: u64)
    ensures
        ({
            let wire = wire_entry(entry, now_ns);
            &&& wire.key matches Some(key) && key.src == entry.key.src && key.dst == entry.key.dst
                && key.sport == entry.key.sport && key.dport == entry.key.dport && key.proto
                == entry.key.proto
            &&& wire.value matches Some(value) && value.listener_id == entry.value.listener_id
                && value.target_id == entry.value.target_id && value.vip == entry.value.vip
                && value.target == entry.value.target && value.vip_port == entry.value.vip_port
                && value.target_port == entry.value.target_port && value.timeout_secs
                == entry.value.timeout_secs && (0 < entry.value.last_seen_ns <= now_ns
                ==> value.last_seen_age_ns == now_ns - entry.value.last_seen_ns)
        }),
{
}

/// A key on the wire is read field by field; a port or a protocol that is too large spoils
/// it.
pub proof fn law_wire_keys_are_read(key: WireKey)
    ensures
        key.sport <= 65535 && key.dport <= 65535 && key.proto <= 255 ==> (plain_key(key) matches Ok(
            plain,
        ) && plain.src == key.src && plain.dst == key.dst && plain.sport == key.sport && plain.dport
            == key.dport && plain.proto == key.proto),
        key.sport > 65535 ==> plain_key(key) == Err::<FlowKey, WireFault>(WireFault::SourcePort),
        key.sport <= 65535 && key.dport > 65535 ==> plain_key(key) == Err::<FlowKey, WireFault>(
            WireFault::DestinationPort,
        ),
        key.sport <= 65535 && key.dport <= 65535 && key.proto > 255 ==> plain_key(key) == Err::<
            FlowKey,
            WireFault,
        >(WireFault::Protocol),
{
}

/// A flow on the wire without its key or its value, or with a port that is too large, is
/// refused.
pub proof fn law_incomplete_flows_are_refused(entry: WireEntry, key: WireKey, now_ns: u64)
    requires
        entry.key == Some(key) ==> key.sport <= 65535 && key.dport <= 65535 && key.proto <= 255,
    ensures
        entry.key is None ==> plain_entry(entry, now_ns) == Err::<FlowEntry, WireFault>(
            WireFault::NoKey,
        ),
        entry.key == Some(key) && entry.value is None ==> plain_entry(entry, now_ns) == Err::<
            FlowEntry,
            WireFault,
        >(WireFault::NoValue),
        entry.key == Some(key) && (entry.value matches Some(value) && value.vip_port > 65535)
            ==> plain_entry(entry, now_ns) == Err::<FlowEntry, WireFault>(WireFault::VipPort),
        entry.key == Some(key) && (entry.value matches Some(value) && value.vip_port <= 65535
            && value.target_port > 65535) ==> plain_entry(entry, now_ns) == Err::<
            FlowEntry,
            WireFault,
        >(WireFault::TargetPort),
        entry.key == Some(key) && (entry.value matches Some(value) && value.vip_port <= 65535
            && value.target_port <= 65535) ==> plain_entry(entry, now_ns) is Ok,
{
}

/// A request holds as many flows as it gives, each in its place; a single bad one spoils
/// them all.
pub proof fn law_requests_are_read_as_a_whole(entries: Seq<WireEntry>, now_ns: u64, i: int)
    requires
        0 <= i < entries.len(),
    ensures
        match plain_entries(entries, now_ns) {
            Ok(list) => list.len() == entries.len() && plain_entry(entries[i], now_ns) == Ok::<
                FlowEntry,
                WireFault,
            >(list[i]),
            Err(fault) => exists|k: int|
                0 <= k < entries.len() && plain_entry(#[trigger] entries[k], now_ns) == Err::<
                    FlowEntry,
                    WireFault,
                >(fault),
        },
    decreases entries.len(),
{
    let front = entries.drop_last();
    let last = entries.len() - 1;
    assert(entries[last] == entries.last());
    lemma_entries_len(front, now_ns);
    if i < last {
        law_requests_are_read_as_a_whole(front, now_ns, i);
        assert(front[i] == entries[i]);
    } else if front.len() > 0 {
        law_requests_are_read_as_a_whole(front, now_ns, 0);
    }
    match plain_entries(front, now_ns) {
        Err(fault) => {
            let k = choose|k: int|
                0 <= k < front.len() && plain_entry(#[trigger] front[k], now_ns) == Err::<
                    FlowEntry,
                    WireFault,
                >(fault);
            assert(entries[k] == front[k]);
        },
        Ok(before) => {},
    }
}

proof fn lemma_entries_len(entries: Seq<WireEntry>, now_ns: u64)
    ensures
        plain_entries(entries, now_ns) matches Ok(list) ==> list.len() == entries.len(),
    decreases entries.len(),
{
    if entries.len() > 0 {
        lemma_entries_len(entries.drop_last(), now_ns);
    }
}

/// As many flows that are gone are read as the request gives, each in its place; a single
/// bad one spoils them all.
pub proof fn law_deletions_are_read_as_a_whole(keys: Seq<WireKey>, i: int)
    requires
        0 <= i < keys.len(),
    ensures
        match plain_keys(keys) {
            Ok(list) => list.len() == keys.len() && plain_key(keys[i]) == Ok::<FlowKey, WireFault>(
                list[i],
            ),
            Err(fault) => exists|k: int|
                0 <= k < keys.len() && plain_key(#[trigger] keys[k]) == Err::<FlowKey, WireFault>(
                    fault,
                ),
        },
    decreases keys.len(),
{
    let front = keys.drop_last();
    let last = keys.len() - 1;
    assert(keys[last] == keys.last());
    lemma_keys_len(front);
    if i < last {
        law_deletions_are_read_as_a_whole(front, i);
        assert(front[i] == keys[i]);
    } else if front.len() > 0 {
        law_deletions_are_read_as_a_whole(front, 0);
    }
    match plain_keys(front) {
        Err(fault) => {
            let k = choose|k: int|
                0 <= k < front.len() && plain_key(#[trigger] front[k]) == Err::<FlowKey, WireFault>(
                    fault,
                );
            assert(keys[k] == front[k]);
        },
        Ok(before) => {},
    }
}

proof fn lemma_keys_len(keys: Seq<WireKey>)
    ensures
        plain_keys(keys) matches Ok(list) ==> list.len() == keys.len(),
    decreases keys.len(),
{
    if keys.len() > 0 {
        lemma_keys_len(keys.drop_last());
    }
}

/// Every operation that waits either goes out, as a flow to be sent or as one that is gone,
/// or stays.
pub proof fn law_no_operation_is_lost(rows: Seq<(FlowKey, FlowOp)>, i: int)
    requires
        0 <= i < rows.len(),
    ensures
        ({
            let next = next_batch(rows);
            let (key, op) = rows[i];
            match op {
                FlowOp::Upsert(value) => next.entries.contains(FlowEntry { key, value })
                    || next.left.contains(rows[i]),
                FlowOp::Delete => next.deletes.contains(key) || next.left.contains(rows[i]),
            }
        }),
{
    lemma_split_keeps(rows, 4096, (4096 - upsert_count(rows)) as nat, i);
}

proof fn lemma_split_keeps(rows: Seq<(FlowKey, FlowOp)>, up: nat, down: nat, i: int)
    requires
        0 <= i < rows.len(),
    ensures
        ({
            let parts = split(rows, up, down);
            let (key, op) = rows[i];
            match op {
                FlowOp::Upsert(value) => parts.entries.contains(FlowEntry { key, value })
                    || parts.left.contains(rows[i]),
                FlowOp::Delete => parts.deletes.contains(key) || parts.left.contains(rows[i]),
            }
        }),
    decreases rows.len(),
{
    let parts = split(rows, up, down);
    let (key, op) = rows[0];
    let rest = rows.skip(1);
    let (up_rest, down_rest) = match op {
        FlowOp::Upsert(value) => if up > 0 {
            ((up - 1) as nat, down)
        } else {
            (up, down)
        },
        FlowOp::Delete => if down > 0 {
            (up, (down - 1) as nat)
        } else {
            (up, down)
        },
    };
    let tail = split(rest, up_rest, down_rest);
    if i == 0 {
        match op {
            FlowOp::Upsert(value) => {
                if up > 0 {
                    assert(parts.entries[0] == (FlowEntry { key, value }));
                } else {
                    assert(parts.left[0] == rows[0]);
                }
            },
            FlowOp::Delete => {
                if down > 0 {
                    assert(parts.deletes[0] == key);
                } else {
                    assert(parts.left[0] == rows[0]);
                }
            },
        }
    } else {
        lemma_split_keeps(rest, up_rest, down_rest, i - 1);
        assert(rest[i - 1] == rows[i]);
        let shift_left = parts.left.len() - tail.left.len();
        let shift_entries = parts.entries.len() - tail.entries.len();
        let shift_deletes = parts.deletes.len() - tail.deletes.len();
        assert(forall|k: int|
            0 <= k < tail.left.len() ==> parts.left[k + shift_left] == #[trigger] tail.left[k]);
        assert(forall|k: int|
            0 <= k < tail.entries.len() ==> parts.entries[k + shift_entries]
                == #[trigger] tail.entries[k]);
        assert(forall|k: int|
            0 <= k < tail.deletes.len() ==> parts.deletes[k + shift_deletes]
                == #[trigger] tail.deletes[k]);
    }
}

/// Whatever goes out or stays is an operation that waited.
pub proof fn law_no_operation_is_made_up(rows: Seq<(FlowKey, FlowOp)>, i: int)
    ensures
        ({
            let next = next_batch(rows);
            &&& 0 <= i < next.entries.len() ==> rows.contains(
                (next.entries[i].key, FlowOp::Upsert(next.entries[i].value)),
            )
            &&& 0 <= i < next.deletes.len() ==> rows.contains((next.deletes[i], FlowOp::Delete))
            &&& 0 <= i < next.left.len() ==> rows.contains(next.left[i])
        }),
{
    lemma_split_takes(rows, 4096, (4096 - upsert_count(rows)) as nat, i);
}

proof fn lemma_split_takes(rows: Seq<(FlowKey, FlowOp)>, up: nat, down: nat, i: int)
    ensures
        ({
            let parts = split(rows, up, down);
            &&& 0 <= i < parts.entries.len() ==> rows.contains(
                (parts.entries[i].key, FlowOp::Upsert(parts.entries[i].value)),
            )
            &&& 0 <= i < parts.deletes.len() ==> rows.contains((parts.deletes[i], FlowOp::Delete))
            &&& 0 <= i < parts.left.len() ==> rows.contains(parts.left[i])
        }),
    decreases rows.len(),
{
    if rows.len() > 0 {
        let (key, op) = rows[0];
        let rest = rows.skip(1);
        let (up_rest, down_rest) = match op {
            FlowOp::Upsert(value) => if up > 0 {
                ((up - 1) as nat, down)
            } else {
                (up, down)
            },
            FlowOp::Delete => if down > 0 {
                (up, (down - 1) as nat)
            } else {
                (up, down)
            },
        };
        lemma_split_takes(rest, up_rest, down_rest, i);
        lemma_split_takes(rest, up_rest, down_rest, i - 1);
        assert(rows.contains(rows[0]));
        assert forall|row: (FlowKey, FlowOp)| rest.contains(row) implies rows.contains(row) by {
            let k = choose|k: int| 0 <= k < rest.len() && rest[k] == row;
            assert(rows[k + 1] == row);
        }
    }
}

/// Operations go out once there are 4096 of them, once the first has waited for 50
/// milliseconds, or when asked for; none go out where there are none.
pub proof fn law_operations_go_out_in_time(
    rows: Seq<(FlowKey, FlowOp)>,
    oldest_ms: u64,
    now_ms: u64,
)
    ensures
        rows.len() == 0 ==> !due_to_flush(rows, Some(oldest_ms), now_ms, true),
        rows.len() > 0 ==> due_to_flush(rows, Some(oldest_ms), now_ms, true),
        rows.len() >= 4096 ==> due_to_flush(rows, None, now_ms, false),
        0 < rows.len() < 4096 ==> due_to_flush(rows, Some(oldest_ms), now_ms, false) == (now_ms
            >= oldest_ms + 50),
        rows.len() < 4096 ==> !due_to_flush(rows, None, now_ms, false),
        waiting_since(None, true, now_ms) == Some(now_ms),
        waiting_since(Some(oldest_ms), true, now_ms) == Some(oldest_ms),
        waiting_since(Some(oldest_ms), false, now_ms) == Some(oldest_ms),
{
}

/// Flows are compared again 10 seconds after they were, and after a fault three times after
/// 2 seconds.
pub proof fn law_flows_are_compared_again(schedule: FullReconcileSchedule, now_ms: u64)
    requires
        now_ms <= u64::MAX - 10_000,
    ensures
        RECONCILE_RECOVERY_ROUNDS == 3,
        schedule.recovery_rounds == 0 ==> schedule.completed(now_ms).next_at_ms == now_ms + 10_000
            && schedule.completed(now_ms).recovery_rounds == 0,
        schedule.recovery_rounds > 0 ==> schedule.completed(now_ms).next_at_ms == now_ms + 2_000
            && schedule.completed(now_ms).recovery_rounds == schedule.recovery_rounds - 1,
{
}

} // verus!
