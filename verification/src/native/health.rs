//! The health records of targets: their names, and how they follow the listeners
//! and the probes.
use super::api_model::{
    clone_health, clone_healths, health_views, same_healths, EntryView, HealthProbeConfig,
    HealthView, NativeListenerStateEntry, NativeListenerTarget, ProbeView, TargetHealthEntry,
    TargetView,
};
use super::store::DirtyFlag;
use crate::net::{format_ip, ip_text, law_address_text_is_trimmed, IpAddr};
use crate::text::{
    clone_opt_text, decimal, has_text, lower, lower_text, push_decimal, same_opt_text, same_text,
    strings, trim_text, trimmed,
};
use vstd::prelude::*;

verus! {

// ---------------------------------------------------------------------------
// Names
// ---------------------------------------------------------------------------

/// The name of a target's health record under one protocol.
pub open spec fn health_key(group: Seq<char>, ip: Seq<char>, protocol: Seq<char>, port: u16) -> Seq<
    char,
> {
    group + ":"@ + trimmed(ip) + "_"@ + lower(trimmed(protocol)) + "_"@ + decimal(port as nat)
}

/// The name of a target's health record under one protocol.
pub fn target_health_key(group: &str, ip: &str, protocol: &str, port: u16) -> (key: String)
    ensures
        key@ == health_key(group@, ip@, protocol@, port),
{
    let address = trim_text(ip);
    let kept = trim_text(protocol);
    let small = lower_text(kept.as_str());
    let mut key = String::new();
    key.append(group);
    assert(key@ =~= group@);
    key.append(":");
    key.append(address.as_str());
    key.append("_");
    key.append(small.as_str());
    key.append("_");
    push_decimal(&mut key, port as u64);
    key
}

/// The name of a target's health record, from the target's address.
pub open spec fn health_identity(
    group: Seq<char>,
    address: IpAddr,
    protocol: Seq<char>,
    port: u16,
) -> Seq<char> {
    group + ":"@ + ip_text(address) + "_"@ + lower(trimmed(protocol)) + "_"@ + decimal(port as nat)
}

/// The name of a target's health record, from the target's address.
pub fn target_health_identity(group: &str, address: IpAddr, protocol: &str, service_port: u16) -> (
    name: String)
    ensures
        name@ == health_identity(group@, address, protocol@, service_port),
{
    let text = format_ip(address);
    let kept = trim_text(protocol);
    let small = lower_text(kept.as_str());
    let mut name = String::new();
    name.append(group);
    assert(name@ =~= group@);
    name.append(":");
    name.append(text.as_str());
    name.append("_");
    name.append(small.as_str());
    name.append("_");
    push_decimal(&mut name, service_port as u64);
    name
}

// ---------------------------------------------------------------------------
// Records in a list
// ---------------------------------------------------------------------------

/// Where the first record of a name stands; the length of the list if there is
/// none.
pub open spec fn name_at(items: Seq<HealthView>, name: Seq<char>) -> int
    decreases items.len(),
{
    if items.len() == 0 {
        0
    } else if items[0].name == name {
        0
    } else {
        1 + name_at(items.skip(1), name)
    }
}

/// The first record of a name.
pub open spec fn named(items: Seq<HealthView>, name: Seq<char>) -> Option<HealthView> {
    if name_at(items, name) < items.len() {
        Some(items[name_at(items, name)])
    } else {
        None
    }
}

/// `items` with a record in the place of the first of its name, or behind them.
pub open spec fn upserted(items: Seq<HealthView>, entry: HealthView) -> Seq<HealthView> {
    if name_at(items, entry.name) < items.len() {
        items.update(name_at(items, entry.name), entry)
    } else {
        items.push(entry)
    }
}

/// Finds the first record of a name.
pub fn find_health(items: &[TargetHealthEntry], name: &str) -> (at: usize)
    ensures
        at == name_at(health_views(items@), name@),
        at <= items.len(),
{
    let ghost views = health_views(items@);
    let mut i: usize = 0;
    assert(views.skip(0) =~= views);
    while i < items.len()
        invariant
            i <= items.len(),
            views == health_views(items@),
            name_at(views, name@) == i + name_at(views.skip(i as int), name@),
        decreases items.len() - i,
    {
        assert(views.skip(i as int)[0] == items@[i as int]@);
        assert(views.skip(i as int).skip(1) =~= views.skip(i + 1));
        if same_text(items[i].name.as_str(), name) {
            return i;
        }
        i += 1;
    }
    i
}

/// Puts a record in the place of the first of its name, or behind the others.
pub fn upsert_health_entry(items: &mut Vec<TargetHealthEntry>, entry: TargetHealthEntry)
    ensures
        health_views(final(items)@) == upserted(health_views(old(items)@), entry@),
{
    let at = find_health(items.as_slice(), entry.name.as_str());
    let ghost before = items@;
    let ghost view = entry@;
    if at < items.len() {
        items.set(at, entry);
        assert(health_views(items@) =~= health_views(before).update(at as int, view));
    } else {
        items.push(entry);
        assert(health_views(items@) =~= health_views(before).push(view));
    }
}

// ---------------------------------------------------------------------------
// Records of a listener
// ---------------------------------------------------------------------------

/// A record to write. Where `observed` holds, the state that the probes saw
/// stays; otherwise the target counts as healthy.
pub struct HealthOp {
    pub record: HealthView,
    pub observed: bool,
}

/// The state that a record shows, `unknown` where none was seen yet.
pub open spec fn shown_state(record: Option<HealthView>) -> Seq<char> {
    match record {
        Some(record) => match record.current_state {
            Some(state) => state,
            None => "unknown"@,
        },
        None => "unknown"@,
    }
}

/// The record that takes the place of `record`.
pub open spec fn stamped(record: Option<HealthView>, op: HealthOp) -> HealthView {
    HealthView {
        current_state: Some(
            if op.observed {
                shown_state(record)
            } else {
                "ok"@
            },
        ),
        ..op.record
    }
}

/// `items` after the writes `ops`.
pub open spec fn with_ops(items: Seq<HealthView>, ops: Seq<HealthOp>) -> Seq<HealthView>
    decreases ops.len(),
{
    if ops.len() == 0 {
        items
    } else {
        let before = with_ops(items, ops.drop_last());
        upserted(before, stamped(named(before, ops.last().record.name), ops.last()))
    }
}

/// The names that writes are for.
pub open spec fn op_names(ops: Seq<HealthOp>) -> Seq<Seq<char>> {
    ops.map_values(|op: HealthOp| op.record.name)
}

/// The protocols of a listener.
pub open spec fn entry_protocols(entry: EntryView) -> Seq<Seq<char>> {
    if entry.protocols.len() == 0 {
        seq![entry.spec.protocol]
    } else {
        entry.protocols
    }
}

/// Texts in small letters.
pub open spec fn lowered(texts: Seq<Seq<char>>) -> Seq<Seq<char>> {
    texts.map_values(|text: Seq<char>| lower(text))
}

/// The record to write for one target under one protocol.
pub open spec fn health_op(
    group: Seq<char>,
    probe: Option<ProbeView>,
    protocol: Seq<char>,
    target: TargetView,
) -> HealthOp {
    let name = health_key(group, target.address, protocol, target.target_port);
    match probe {
        Some(probe) => HealthOp {
            record: HealthView {
                target_group: group,
                host_name: target.address,
                name,
                description: None,
                inactive_retries: probe.inactive_retries,
                probe_type: Some(
                    lower(
                        match probe.probe_type {
                            Some(kind) => kind,
                            None => protocol,
                        },
                    ),
                ),
                probe_req: probe.probe_req,
                probe_resp: probe.probe_resp,
                probe_duration: probe.probe_duration,
                probe_port: Some(
                    match probe.probe_port {
                        Some(port) => port,
                        None => target.target_port,
                    },
                ),
                min_delay: None,
                avg_delay: None,
                max_delay: None,
                current_state: None,
                sync: None,
            },
            observed: true,
        },
        None => HealthOp {
            record: HealthView {
                target_group: group,
                host_name: target.address,
                name,
                description: None,
                inactive_retries: Some(0),
                probe_type: Some("none"@),
                probe_req: None,
                probe_resp: None,
                probe_duration: Some(0),
                probe_port: Some(target.target_port),
                min_delay: None,
                avg_delay: None,
                max_delay: None,
                current_state: None,
                sync: None,
            },
            observed: false,
        },
    }
}

/// The records to write for the targets of a listener under one protocol.
pub open spec fn target_ops(
    group: Seq<char>,
    probe: Option<ProbeView>,
    protocol: Seq<char>,
    targets: Seq<TargetView>,
) -> Seq<HealthOp> {
    targets.map_values(|target: TargetView| health_op(group, probe, protocol, target))
}

/// The records to write for the targets of a listener under some protocols.
pub open spec fn protocol_ops(
    group: Seq<char>,
    probe: Option<ProbeView>,
    protocols: Seq<Seq<char>>,
    targets: Seq<TargetView>,
) -> Seq<HealthOp>
    decreases protocols.len(),
{
    if protocols.len() == 0 {
        Seq::empty()
    } else {
        protocol_ops(group, probe, protocols.drop_last(), targets) + target_ops(
            group,
            probe,
            protocols.last(),
            targets,
        )
    }
}

/// The records to write for a listener.
pub open spec fn entry_ops(entry: EntryView, probe: Option<ProbeView>) -> Seq<HealthOp> {
    protocol_ops(entry.target_group, probe, lowered(entry_protocols(entry)), entry.targets)
}

/// A probe as plain values.
pub open spec fn probe_view(probe: Option<HealthProbeConfig>) -> Option<ProbeView> {
    match probe {
        Some(probe) => Some(probe@),
        None => None,
    }
}

/// The protocols of a listener in small letters.
pub fn listener_protocols(entry: &NativeListenerStateEntry) -> (protocols: Vec<String>)
    ensures
        strings(protocols@) == lowered(entry_protocols(entry@)),
{
    let mut protocols: Vec<String> = Vec::new();
    let ghost all = lowered(entry_protocols(entry@));
    if entry.protocols.len() == 0 {
        assert(entry@.protocols.len() == 0);
        protocols.push(lower_text(entry.spec.protocol.as_str()));
        assert(strings(protocols@) =~= all);
        return protocols;
    }
    assert(entry@.protocols.len() == entry.protocols@.len());
    let mut i: usize = 0;
    while i < entry.protocols.len()
        invariant
            i <= entry.protocols.len(),
            entry.protocols.len() > 0,
            all == lowered(entry@.protocols),
            strings(protocols@) == all.take(i as int),
        decreases entry.protocols.len() - i,
    {
        let small = lower_text(entry.protocols[i].as_str());
        let ghost before = protocols@;
        assert(entry@.protocols[i as int] == entry.protocols@[i as int]@);
        protocols.push(small);
        assert(strings(protocols@) =~= strings(before).push(small@));
        assert(all.take(i + 1) =~= all.take(i as int).push(all[i as int]));
        i += 1;
    }
    assert(all.take(all.len() as int) =~= all);
    protocols
}

fn probe_record(
    items: &[TargetHealthEntry],
    group: &str,
    probe: &HealthProbeConfig,
    protocol: &str,
    target: &NativeListenerTarget,
) -> (record: TargetHealthEntry)
    ensures
        record@ == ({
            let op = health_op(group@, Some(probe@), protocol@, target@);
            stamped(named(health_views(items@), op.record.name), op)
        }),
{
    let name = target_health_key(group, target.address.as_str(), protocol, target.target_port);
    let kind = match &probe.probe_type {
        Some(kind) => lower_text(kind.as_str()),
        None => lower_text(protocol),
    };
    let port: u16 = match probe.probe_port {
        Some(port) => port,
        None => target.target_port,
    };
    let at = find_health(items, name.as_str());
    let state = if at < items.len() {
        assert(health_views(items@)[at as int] == items@[at as int]@);
        match &items[at].current_state {
            Some(state) => state.clone(),
            None => String::from_str("unknown"),
        }
    } else {
        String::from_str("unknown")
    };
    TargetHealthEntry {
        target_group: String::from_str(group),
        host_name: target.address.clone(),
        name,
        description: None,
        inactive_retries: probe.inactive_retries,
        probe_type: Some(kind),
        probe_req: clone_opt_text(&probe.probe_req),
        probe_resp: clone_opt_text(&probe.probe_resp),
        probe_duration: probe.probe_duration,
        probe_port: Some(port),
        min_delay: None,
        avg_delay: None,
        max_delay: None,
        current_state: Some(state),
        sync: None,
    }
}

fn default_record(
    items: &[TargetHealthEntry],
    group: &str,
    protocol: &str,
    target: &NativeListenerTarget,
) -> (record: TargetHealthEntry)
    ensures
        record@ == ({
            let op = health_op(group@, None, protocol@, target@);
            stamped(named(health_views(items@), op.record.name), op)
        }),
{
    let name = target_health_key(group, target.address.as_str(), protocol, target.target_port);
    TargetHealthEntry {
        target_group: String::from_str(group),
        host_name: target.address.clone(),
        name,
        description: None,
        inactive_retries: Some(0),
        probe_type: Some(String::from_str("none")),
        probe_req: None,
        probe_resp: None,
        probe_duration: Some(0),
        probe_port: Some(target.target_port),
        min_delay: None,
        avg_delay: None,
        max_delay: None,
        current_state: Some(String::from_str("ok")),
        sync: None,
    }
}

pub proof fn lemma_ops_concat(items: Seq<HealthView>, a: Seq<HealthOp>, b: Seq<HealthOp>)
    ensures
        with_ops(items, a + b) == with_ops(with_ops(items, a), b),
    decreases b.len(),
{
    if b.len() == 0 {
        assert(a + b =~= a);
    } else {
        assert((a + b).drop_last() =~= a + b.drop_last());
        assert((a + b).last() == b.last());
        lemma_ops_concat(items, a, b.drop_last());
    }
}

fn write_targets(
    items: &mut Vec<TargetHealthEntry>,
    names: &mut Vec<String>,
    entry: &NativeListenerStateEntry,
    probe: &Option<HealthProbeConfig>,
    protocol: &str,
)
    ensures
        ({
            let ops = target_ops(
                entry.target_group@,
                probe_view(*probe),
                protocol@,
                entry@.targets,
            );
            &&& health_views(final(items)@) == with_ops(health_views(old(items)@), ops)
            &&& strings(final(names)@) == strings(old(names)@) + op_names(ops)
        }),
{
    let ghost start = health_views(items@);
    let ghost named_before = strings(names@);
    let ghost ops = target_ops(
        entry.target_group@,
        probe_view(*probe),
        protocol@,
        entry@.targets,
    );
    assert(ops.len() == entry.targets@.len());
    let mut i: usize = 0;
    assert(named_before + op_names(ops.take(0)) =~= named_before);
    while i < entry.targets.len()
        invariant
            i <= entry.targets.len(),
            ops == target_ops(entry.target_group@, probe_view(*probe), protocol@, entry@.targets),
            ops.len() == entry.targets@.len(),
            health_views(items@) == with_ops(start, ops.take(i as int)),
            strings(names@) == named_before + op_names(ops.take(i as int)),
        decreases entry.targets.len() - i,
    {
        let target = &entry.targets[i];
        assert(entry@.targets[i as int] == target@);
        let record = match probe {
            Some(probe) => probe_record(
                items.as_slice(),
                entry.target_group.as_str(),
                probe,
                protocol,
                target,
            ),
            None => default_record(
                items.as_slice(),
                entry.target_group.as_str(),
                protocol,
                target,
            ),
        };
        let ghost op = ops[i as int];
        assert(ops.take(i + 1).drop_last() =~= ops.take(i as int));
        assert(ops.take(i + 1).last() == op);
        let name = record.name.clone();
        let ghost text = name@;
        let ghost before = names@;
        names.push(name);
        upsert_health_entry(items, record);
        assert(strings(names@) =~= strings(before).push(text));
        assert(op_names(ops.take(i + 1)) =~= op_names(ops.take(i as int)).push(op.record.name));
        assert((named_before + op_names(ops.take(i as int))).push(text) =~= named_before
            + op_names(ops.take(i + 1)));
        i += 1;
    }
    assert(ops.take(ops.len() as int) =~= ops);
}

/// Writes the records of a listener and lists their names.
pub fn write_records(
    items: &mut Vec<TargetHealthEntry>,
    names: &mut Vec<String>,
    entry: &NativeListenerStateEntry,
    probe: &Option<HealthProbeConfig>,
)
    ensures
        ({
            let ops = entry_ops(entry@, probe_view(*probe));
            &&& health_views(final(items)@) == with_ops(health_views(old(items)@), ops)
            &&& strings(final(names)@) == strings(old(names)@) + op_names(ops)
        }),
{
    let protocols = listener_protocols(entry);
    let ghost start = health_views(items@);
    let ghost named_before = strings(names@);
    let ghost texts = strings(protocols@);
    let ghost group = entry.target_group@;
    let ghost view = probe_view(*probe);
    let ghost targets = entry@.targets;
    let mut i: usize = 0;
    assert(named_before + op_names(protocol_ops(group, view, texts.take(0), targets))
        =~= named_before);
    while i < protocols.len()
        invariant
            i <= protocols.len(),
            texts == strings(protocols@),
            group == entry.target_group@,
            view == probe_view(*probe),
            targets == entry@.targets,
            health_views(items@) == with_ops(
                start,
                protocol_ops(group, view, texts.take(i as int), targets),
            ),
            strings(names@) == named_before + op_names(
                protocol_ops(group, view, texts.take(i as int), targets),
            ),
        decreases protocols.len() - i,
    {
        let ghost before = protocol_ops(group, view, texts.take(i as int), targets);
        let ghost more = target_ops(group, view, texts[i as int], targets);
        assert(texts[i as int] == protocols@[i as int]@);
        assert(texts.take(i + 1).drop_last() =~= texts.take(i as int));
        assert(texts.take(i + 1).last() == texts[i as int]);
        write_targets(items, names, entry, probe, protocols[i].as_str());
        proof {
            lemma_ops_concat(start, before, more);
        }
        assert(op_names(before + more) =~= op_names(before) + op_names(more));
        assert(named_before + op_names(before) + op_names(more) =~= named_before + op_names(
            before + more,
        ));
        i += 1;
    }
    assert(texts.take(texts.len() as int) =~= texts);
}

// ---------------------------------------------------------------------------
// Records that no listener asks for
// ---------------------------------------------------------------------------

/// The records whose names are in `names`.
pub open spec fn kept(items: Seq<HealthView>, names: Seq<Seq<char>>) -> Seq<HealthView>
    decreases items.len(),
{
    if items.len() == 0 {
        Seq::empty()
    } else if names.contains(items.last().name) {
        kept(items.drop_last(), names).push(items.last())
    } else {
        kept(items.drop_last(), names)
    }
}

/// Keeps the records whose names are in `names`.
pub fn keep_named(items: &[TargetHealthEntry], names: &[String]) -> (out: Vec<TargetHealthEntry>)
    ensures
        health_views(out@) == kept(health_views(items@), strings(names@)),
{
    let mut out: Vec<TargetHealthEntry> = Vec::new();
    let ghost views = health_views(items@);
    let mut i: usize = 0;
    assert(health_views(out@) =~= Seq::<HealthView>::empty());
    while i < items.len()
        invariant
            i <= items.len(),
            views == health_views(items@),
            health_views(out@) == kept(views.take(i as int), strings(names@)),
        decreases items.len() - i,
    {
        assert(views[i as int] == items@[i as int]@);
        assert(views.take(i + 1).drop_last() =~= views.take(i as int));
        assert(views.take(i + 1).last() == views[i as int]);
        if has_text(names, items[i].name.as_str()) {
            let ghost before = out@;
            out.push(clone_health(&items[i]));
            assert(health_views(out@) =~= health_views(before).push(views[i as int]));
        }
        i += 1;
    }
    assert(views.take(views.len() as int) =~= views);
    out
}

// ---------------------------------------------------------------------------
// Verdicts of the probes
// ---------------------------------------------------------------------------

/// A verdict on the target of a record.
#[derive(Clone, Debug)]
pub struct HealthUpdate {
    pub name: String,
    pub healthy: bool,
}

/// What writing verdicts came to: how many records changed their state, and
/// whether the records differ from before.
#[derive(Clone, Copy, Debug, PartialEq, Eq, Structural)]
pub struct HealthChange {
    pub transitions: usize,
    pub changed: bool,
}

/// The state that a verdict is written as.
pub open spec fn verdict(healthy: bool) -> Seq<char> {
    if healthy {
        "ok"@
    } else {
        "nok"@
    }
}

/// Whether a verdict changes a record.
pub open spec fn is_transition(items: Seq<HealthView>, update: HealthUpdate) -> bool {
    named(items, update.name@) matches Some(record) && record.current_state != Some(
        verdict(update.healthy),
    )
}

/// The records after a verdict.
pub open spec fn judged(items: Seq<HealthView>, update: HealthUpdate) -> Seq<HealthView> {
    if is_transition(items, update) {
        let at = name_at(items, update.name@);
        items.update(
            at,
            HealthView { current_state: Some(verdict(update.healthy)), ..items[at] },
        )
    } else {
        items
    }
}

/// The records after verdicts.
pub open spec fn judged_all(items: Seq<HealthView>, updates: Seq<HealthUpdate>) -> Seq<HealthView>
    decreases updates.len(),
{
    if updates.len() == 0 {
        items
    } else {
        judged(judged_all(items, updates.drop_last()), updates.last())
    }
}

/// How many records show another state than before; each counts once, however many
/// verdicts there are for it.
pub open spec fn transitions(before: Seq<HealthView>, after: Seq<HealthView>) -> nat
    decreases before.len(),
{
    if before.len() == 0 || after.len() != before.len() {
        0
    } else {
        transitions(before.drop_last(), after.drop_last()) + if before.last().current_state
            != after.last().current_state {
            1nat
        } else {
            0nat
        }
    }
}

proof fn lemma_judged_len(items: Seq<HealthView>, updates: Seq<HealthUpdate>)
    ensures
        judged_all(items, updates).len() == items.len(),
    decreases updates.len(),
{
    if updates.len() > 0 {
        lemma_judged_len(items, updates.drop_last());
        lemma_name_at(judged_all(items, updates.drop_last()), updates.last().name@);
    }
}

fn count_transitions(before: &[TargetHealthEntry], after: &[TargetHealthEntry]) -> (count: usize)
    requires
        before.len() == after.len(),
    ensures
        count == transitions(health_views(before@), health_views(after@)),
{
    let ghost old_views = health_views(before@);
    let ghost new_views = health_views(after@);
    let mut count: usize = 0;
    let mut i: usize = 0;
    while i < before.len()
        invariant
            i <= before.len() == after.len(),
            old_views == health_views(before@),
            new_views == health_views(after@),
            count == transitions(old_views.take(i as int), new_views.take(i as int)),
            count <= i,
        decreases before.len() - i,
    {
        assert(old_views.take(i + 1).drop_last() =~= old_views.take(i as int));
        assert(new_views.take(i + 1).drop_last() =~= new_views.take(i as int));
        assert(old_views.take(i + 1).last() == before@[i as int]@);
        assert(new_views.take(i + 1).last() == after@[i as int]@);
        if !same_opt_text(&before[i].current_state, &after[i].current_state) {
            count += 1;
        }
        i += 1;
    }
    assert(old_views.take(old_views.len() as int) =~= old_views);
    assert(new_views.take(new_views.len() as int) =~= new_views);
    count
}

fn judge(items: &mut Vec<TargetHealthEntry>, update: &HealthUpdate)
    ensures
        health_views(final(items)@) == judged(health_views(old(items)@), *update),
{
    let at = find_health(items.as_slice(), update.name.as_str());
    if at >= items.len() {
        return ;
    }
    let ghost views = health_views(items@);
    assert(views[at as int] == items@[at as int]@);
    let state = if update.healthy {
        String::from_str("ok")
    } else {
        String::from_str("nok")
    };
    let next = Some(state);
    if same_opt_text(&items[at].current_state, &next) {
        return ;
    }
    let mut record = clone_health(&items[at]);
    record.current_state = next;
    let ghost view = record@;
    items.set(at, record);
    assert(health_views(items@) =~= views.update(at as int, view));
}

/// Writes the verdicts of the probes into the records that they name. What the
/// listeners ask for stays as it is. A record that changes calls for the datapath to be
/// brought in line.
pub fn mutate_target_health(
    items: &mut Vec<TargetHealthEntry>,
    updates: &[HealthUpdate],
    flag: &mut DirtyFlag,
) -> (change: HealthChange)
    ensures
        health_views(final(items)@) == judged_all(health_views(old(items)@), updates@),
        change.transitions == transitions(
            health_views(old(items)@),
            health_views(final(items)@),
        ),
        change.changed == (health_views(final(items)@) != health_views(old(items)@)),
        final(flag).dirty == (old(flag).dirty || change.changed),
{
    let ghost start = health_views(items@);
    let before = clone_healths(items.as_slice());
    let mut i: usize = 0;
    while i < updates.len()
        invariant
            i <= updates.len(),
            health_views(items@) == judged_all(start, updates@.take(i as int)),
        decreases updates.len() - i,
    {
        assert(updates@.take(i + 1).drop_last() =~= updates@.take(i as int));
        assert(updates@.take(i + 1).last() == updates@[i as int]);
        judge(items, &updates[i]);
        i += 1;
    }
    assert(updates@.take(updates@.len() as int) =~= updates@);
    proof {
        lemma_judged_len(start, updates@);
        assert(health_views(before@).len() == before@.len());
        assert(health_views(items@).len() == items@.len());
    }
    let count = count_transitions(before.as_slice(), items.as_slice());
    let changed = !same_healths(before.as_slice(), items.as_slice());
    if changed {
        flag.mark_state_dirty();
    }
    HealthChange { transitions: count, changed }
}

/// How many records changed their state, once it is known whether they were stored:
/// none where they were not. The datapath is told of a change only where there is one.
pub fn stored_transitions(change: HealthChange, stored: bool) -> (count: usize)
    ensures
        count == if stored {
            change.transitions
        } else {
            0
        },
{
    if stored {
        change.transitions
    } else {
        0
    }
}

// ---------------------------------------------------------------------------
// Laws
// ---------------------------------------------------------------------------

/// Where the first record of a name stands: no record before it has the name.
proof fn lemma_name_at(items: Seq<HealthView>, name: Seq<char>)
    ensures
        0 <= name_at(items, name) <= items.len(),
        name_at(items, name) < items.len() ==> items[name_at(items, name)].name == name,
        forall|j: int| 0 <= j < name_at(items, name) ==> items[j].name != name,
    decreases items.len(),
{
    if items.len() > 0 && items[0].name != name {
        let rest = items.skip(1);
        lemma_name_at(rest, name);
        let at = name_at(rest, name);
        assert forall|j: int| 0 <= j < name_at(items, name) implies items[j].name != name by {
            if j > 0 {
                assert(rest[j - 1] == items[j]);
            }
        }
        if at < rest.len() {
            assert(rest[at] == items[at + 1]);
        }
    }
}

proof fn lemma_name_at_is(items: Seq<HealthView>, name: Seq<char>, at: int)
    requires
        0 <= at <= items.len(),
        at < items.len() ==> items[at].name == name,
        forall|j: int| 0 <= j < at ==> items[j].name != name,
    ensures
        name_at(items, name) == at,
{
    lemma_name_at(items, name);
    let found = name_at(items, name);
    if found < at {
        assert(items[found].name == name);
    } else if at < found {
        assert(items[at].name == name);
    }
}

proof fn lemma_named_after_upsert(items: Seq<HealthView>, entry: HealthView, name: Seq<char>)
    ensures
        named(upserted(items, entry), name) == if entry.name == name {
            Some(entry)
        } else {
            named(items, name)
        },
{
    lemma_name_at(items, entry.name);
    lemma_name_at(items, name);
    let at = name_at(items, entry.name);
    let out = upserted(items, entry);
    if entry.name == name {
        lemma_name_at_is(out, name, at);
    } else if at < items.len() {
        lemma_name_at_is(out, name, name_at(items, name));
    } else {
        let found = name_at(items, name);
        if found < items.len() {
            lemma_name_at_is(out, name, found);
        } else {
            lemma_name_at_is(out, name, out.len() as int);
        }
    }
}

/// What writes make of the record of one name.
pub open spec fn rewritten(
    record: Option<HealthView>,
    ops: Seq<HealthOp>,
    name: Seq<char>,
) -> Option<HealthView>
    decreases ops.len(),
{
    if ops.len() == 0 {
        record
    } else {
        let before = rewritten(record, ops.drop_last(), name);
        if ops.last().record.name == name {
            Some(stamped(before, ops.last()))
        } else {
            before
        }
    }
}

proof fn lemma_named_after_ops(items: Seq<HealthView>, ops: Seq<HealthOp>, name: Seq<char>)
    ensures
        named(with_ops(items, ops), name) == rewritten(named(items, name), ops, name),
    decreases ops.len(),
{
    if ops.len() > 0 {
        let before = with_ops(items, ops.drop_last());
        let entry = stamped(named(before, ops.last().record.name), ops.last());
        lemma_named_after_ops(items, ops.drop_last(), name);
        lemma_named_after_upsert(before, entry, name);
    }
}

/// Whether a write for a name sets its state.
pub open spec fn sets_state(ops: Seq<HealthOp>, name: Seq<char>) -> bool
    decreases ops.len(),
{
    ops.len() > 0 && (sets_state(ops.drop_last(), name) || (ops.last().record.name == name
        && !ops.last().observed))
}

/// The last write for a name.
pub open spec fn last_op(ops: Seq<HealthOp>, name: Seq<char>) -> Option<HealthOp>
    decreases ops.len(),
{
    if ops.len() == 0 {
        None
    } else if ops.last().record.name == name {
        Some(ops.last())
    } else {
        last_op(ops.drop_last(), name)
    }
}

proof fn lemma_rewritten(record: Option<HealthView>, ops: Seq<HealthOp>, name: Seq<char>)
    ensures
        rewritten(record, ops, name) == (match last_op(ops, name) {
            None => record,
            Some(op) => Some(
                HealthView {
                    current_state: Some(
                        if sets_state(ops, name) {
                            "ok"@
                        } else {
                            shown_state(record)
                        },
                    ),
                    ..op.record
                },
            ),
        }),
        last_op(ops, name) is None ==> !sets_state(ops, name),
    decreases ops.len(),
{
    if ops.len() > 0 {
        lemma_rewritten(record, ops.drop_last(), name);
    }
}

proof fn lemma_last_op(ops: Seq<HealthOp>, name: Seq<char>)
    ensures
        op_names(ops).contains(name) <==> last_op(ops, name) is Some,
        last_op(ops, name) matches Some(op) ==> op.record.name == name,
    decreases ops.len(),
{
    let names = op_names(ops);
    if ops.len() > 0 {
        lemma_last_op(ops.drop_last(), name);
        let before = op_names(ops.drop_last());
        assert(names =~= before.push(ops.last().record.name));
        if before.contains(name) {
            let i = choose|i: int| 0 <= i < before.len() && before[i] == name;
            assert(names[i] == name);
        }
        if names.contains(name) && ops.last().record.name != name {
            let i = choose|i: int| 0 <= i < names.len() && names[i] == name;
            assert(before[i] == name);
        }
        assert(names[names.len() - 1] == ops.last().record.name);
    }
}

proof fn lemma_kept(items: Seq<HealthView>, names: Seq<Seq<char>>)
    ensures
        forall|i: int|
            0 <= i < kept(items, names).len() ==> names.contains(
                #[trigger] kept(items, names)[i].name,
            ),
    decreases items.len(),
{
    if items.len() > 0 {
        lemma_kept(items.drop_last(), names);
    }
}

proof fn lemma_kept_named(items: Seq<HealthView>, names: Seq<Seq<char>>, name: Seq<char>)
    requires
        names.contains(name),
    ensures
        named(kept(items, names), name) == named(items, name),
    decreases items.len(),
{
    if items.len() > 0 {
        let front = items.drop_last();
        lemma_kept_named(front, names, name);
        lemma_named_of_push(front, items.last(), name);
        assert(front.push(items.last()) =~= items);
        if names.contains(items.last().name) {
            lemma_named_of_push(kept(front, names), items.last(), name);
        }
    }
}

proof fn lemma_named_of_push(items: Seq<HealthView>, entry: HealthView, name: Seq<char>)
    ensures
        named(items.push(entry), name) == (match named(items, name) {
            Some(record) => Some(record),
            None => if entry.name == name {
                Some(entry)
            } else {
                None
            },
        }),
{
    lemma_name_at(items, name);
    let out = items.push(entry);
    let at = name_at(items, name);
    if at < items.len() || entry.name == name {
        lemma_name_at_is(out, name, at);
    } else {
        lemma_name_at_is(out, name, out.len() as int);
    }
}

proof fn lemma_kept_all(items: Seq<HealthView>, names: Seq<Seq<char>>)
    requires
        forall|i: int| 0 <= i < items.len() ==> names.contains(#[trigger] items[i].name),
    ensures
        kept(items, names) == items,
    decreases items.len(),
{
    if items.len() > 0 {
        let front = items.drop_last();
        assert forall|i: int| 0 <= i < front.len() implies names.contains(
            #[trigger] front[i].name,
        ) by {
            assert(front[i] == items[i]);
        }
        lemma_kept_all(front, names);
        assert(names.contains(items[items.len() - 1].name));
        assert(front.push(items.last()) =~= items);
    }
}

/// Writes for records that are there keep every record in its place, and change
/// only the first of a name.
proof fn lemma_ops_in_place(items: Seq<HealthView>, ops: Seq<HealthOp>)
    requires
        forall|j: int| 0 <= j < ops.len() ==> named(items, #[trigger] ops[j].record.name) is Some,
    ensures
        with_ops(items, ops).len() == items.len(),
        forall|i: int|
            0 <= i < items.len() ==> {
                &&& (#[trigger] with_ops(items, ops)[i]).name == items[i].name
                &&& name_at(items, items[i].name) != i ==> with_ops(items, ops)[i] == items[i]
            },
    decreases ops.len(),
{
    if ops.len() > 0 {
        let front = ops.drop_last();
        assert forall|j: int| 0 <= j < front.len() implies named(
            items,
            #[trigger] front[j].record.name,
        ) is Some by {
            assert(front[j] == ops[j]);
        }
        lemma_ops_in_place(items, front);
        let before = with_ops(items, front);
        let name = ops.last().record.name;
        assert(ops[ops.len() - 1].record.name == name);
        lemma_name_at(items, name);
        let at = name_at(items, name);
        lemma_name_at_is(before, name, at);
        let entry = stamped(named(before, name), ops.last());
        assert(entry.name == name);
        assert(with_ops(items, ops) == before.update(at, entry));
        assert forall|i: int| 0 <= i < items.len() implies {
            &&& (#[trigger] with_ops(items, ops)[i]).name == items[i].name
            &&& name_at(items, items[i].name) != i ==> with_ops(items, ops)[i] == items[i]
        } by {
            assert(before[i].name == items[i].name);
        }
    }
}

/// A record that the probes name is one that the listeners name.
pub proof fn law_health_names_agree(
    group: Seq<char>,
    address: IpAddr,
    protocol: Seq<char>,
    port: u16,
)
    ensures
        health_identity(group, address, protocol, port) == health_key(
            group,
            ip_text(address),
            protocol,
            port,
        ),
{
    law_address_text_is_trimmed(address);
}

/// Records follow the writes: the first record of a name is that of the last
/// write for it. Its state is what the probes saw, or `unknown`; where a write
/// for the name is not probed, the target counts as healthy.
pub proof fn law_records_keep_observed_state(
    items: Seq<HealthView>,
    ops: Seq<HealthOp>,
    name: Seq<char>,
)
    requires
        op_names(ops).contains(name),
    ensures
        last_op(ops, name) is Some,
        named(with_ops(items, ops), name) == Some(
            HealthView {
                current_state: Some(
                    if sets_state(ops, name) {
                        "ok"@
                    } else {
                        shown_state(named(items, name))
                    },
                ),
                ..last_op(ops, name).unwrap().record
            },
        ),
{
    lemma_named_after_ops(items, ops, name);
    lemma_rewritten(named(items, name), ops, name);
    lemma_last_op(ops, name);
}

/// Only records that a listener asks for are kept.
pub proof fn law_kept_records_are_wanted(items: Seq<HealthView>, names: Seq<Seq<char>>, i: int)
    requires
        0 <= i < kept(items, names).len(),
    ensures
        names.contains(kept(items, names)[i].name),
{
    lemma_kept(items, names);
}

/// Writing the same records again changes nothing.
pub proof fn law_records_settle(items: Seq<HealthView>, ops: Seq<HealthOp>)
    ensures
        ({
            let once = kept(with_ops(items, ops), op_names(ops));
            kept(with_ops(once, ops), op_names(ops)) == once
        }),
{
    let names = op_names(ops);
    let written = with_ops(items, ops);
    let once = kept(written, names);
    lemma_kept(written, names);
    assert forall|j: int| 0 <= j < ops.len() implies named(
        once,
        #[trigger] ops[j].record.name,
    ) is Some by {
        let name = ops[j].record.name;
        assert(names[j] == name);
        lemma_kept_named(written, names, name);
        law_records_keep_observed_state(items, ops, name);
    }
    lemma_ops_in_place(once, ops);
    let twice = with_ops(once, ops);
    assert forall|i: int| 0 <= i < once.len() implies twice[i] == once[i] by {
        let name = once[i].name;
        assert(twice[i].name == name);
        if name_at(once, name) == i {
            assert forall|j: int| 0 <= j < i implies twice[j].name != name by {
                lemma_name_at(once, name);
                assert(once[j].name != name);
            }
            lemma_name_at_is(twice, name, i);
            assert(named(twice, name) == Some(twice[i]));
            assert(named(once, name) == Some(once[i]));
            lemma_kept_named(written, names, name);
            law_records_keep_observed_state(items, ops, name);
            law_records_keep_observed_state(once, ops, name);
        }
    }
    assert(twice =~= once);
    assert forall|i: int| 0 <= i < twice.len() implies names.contains(
        #[trigger] twice[i].name,
    ) by {
        assert(names.contains(once[i].name));
    }
    lemma_kept_all(twice, names);
}

/// Whether records hold one of a name.
pub open spec fn has_record(items: Seq<HealthView>, name: Seq<char>) -> bool {
    exists|i: int| 0 <= i < items.len() && (#[trigger] items[i]).name == name
}

proof fn lemma_has_record(items: Seq<HealthView>, name: Seq<char>)
    ensures
        has_record(items, name) <==> named(items, name) is Some,
{
    lemma_name_at(items, name);
    let at = name_at(items, name);
    if at < items.len() {
        assert(items[at].name == name);
    }
    if has_record(items, name) {
        let i = choose|i: int| 0 <= i < items.len() && (#[trigger] items[i]).name == name;
        assert(at <= i);
    }
}

/// The records that are left are of exactly the names that the listeners ask for.
pub proof fn law_records_are_those_asked_for(
    items: Seq<HealthView>,
    ops: Seq<HealthOp>,
    name: Seq<char>,
)
    ensures
        has_record(kept(with_ops(items, ops), op_names(ops)), name) <==> op_names(ops).contains(
            name,
        ),
{
    let names = op_names(ops);
    let written = with_ops(items, ops);
    let once = kept(written, names);
    lemma_kept(written, names);
    lemma_has_record(once, name);
    if names.contains(name) {
        lemma_kept_named(written, names, name);
        law_records_keep_observed_state(items, ops, name);
    }
}

/// Whether records differ from others at most in states that probes observed: a record
/// that is not probed is as it was, and a state that changed is one that was seen.
pub open spec fn observed_since(
    once: Seq<HealthView>,
    later: Seq<HealthView>,
    ops: Seq<HealthOp>,
) -> bool {
    &&& later.len() == once.len()
    &&& forall|i: int|
        0 <= i < once.len() ==> {
            &&& #[trigger] later[i] == (HealthView {
                current_state: later[i].current_state,
                ..once[i]
            })
            &&& later[i].current_state == once[i].current_state || (later[i].current_state is Some
                && !sets_state(ops, once[i].name))
        }
}

/// Writing the records again keeps every state that probes observed in between.
pub proof fn law_observed_states_stay(
    items: Seq<HealthView>,
    ops: Seq<HealthOp>,
    later: Seq<HealthView>,
)
    requires
        observed_since(kept(with_ops(items, ops), op_names(ops)), later, ops),
    ensures
        kept(with_ops(later, ops), op_names(ops)) == later,
{
    let names = op_names(ops);
    let written = with_ops(items, ops);
    let once = kept(written, names);
    lemma_kept(written, names);
    assert forall|i: int| 0 <= i < later.len() implies names.contains(
        #[trigger] later[i].name,
    ) && later[i].name == once[i].name by {
        assert(names.contains(once[i].name));
    }
    assert forall|j: int| 0 <= j < ops.len() implies named(
        later,
        #[trigger] ops[j].record.name,
    ) is Some by {
        let name = ops[j].record.name;
        assert(names[j] == name);
        lemma_kept_named(written, names, name);
        law_records_keep_observed_state(items, ops, name);
        lemma_name_at(once, name);
        let at = name_at(once, name);
        assert forall|k: int| 0 <= k < at implies later[k].name != name by {
            assert(once[k].name != name);
        }
        assert(later[at].name == name);
        lemma_name_at_is(later, name, at);
    }
    lemma_ops_in_place(later, ops);
    let twice = with_ops(later, ops);
    assert forall|i: int| 0 <= i < later.len() implies twice[i] == later[i] by {
        let name = later[i].name;
        assert(twice[i].name == name);
        if name_at(later, name) == i {
            lemma_name_at(later, name);
            assert forall|j: int| 0 <= j < i implies twice[j].name != name by {
                assert(later[j].name != name);
            }
            lemma_name_at_is(twice, name, i);
            assert(named(twice, name) == Some(twice[i]));
            assert(named(later, name) == Some(later[i]));
            assert forall|j: int| 0 <= j < i implies once[j].name != name by {
                assert(later[j].name != name);
            }
            lemma_name_at_is(once, name, i);
            assert(named(once, name) == Some(once[i]));
            lemma_kept_named(written, names, name);
            law_records_keep_observed_state(items, ops, name);
            law_records_keep_observed_state(later, ops, name);
        }
    }
    assert(twice =~= later);
    assert forall|i: int| 0 <= i < twice.len() implies names.contains(
        #[trigger] twice[i].name,
    ) by {
        assert(names.contains(later[i].name));
    }
    lemma_kept_all(twice, names);
}

/// A verdict is written into the first record of its name, as `ok` where the target is
/// healthy and as `nok` where it is not. Nothing else of that record changes and no other
/// record does; a verdict for a name that no record has changes nothing.
pub proof fn law_verdict_is_written(items: Seq<HealthView>, update: HealthUpdate, i: int)
    requires
        0 <= i <= items.len(),
        i < items.len() ==> items[i].name == update.name@,
        forall|j: int| 0 <= j < i ==> (#[trigger] items[j]).name != update.name@,
    ensures
        ({
            let after = judged(items, update);
            &&& after.len() == items.len()
            &&& forall|j: int| 0 <= j < items.len() && j != i ==> #[trigger] after[j] == items[j]
            &&& i < items.len() && update.healthy ==> after[i] == (HealthView {
                current_state: Some("ok"@),
                ..items[i]
            })
            &&& i < items.len() && !update.healthy ==> after[i] == (HealthView {
                current_state: Some("nok"@),
                ..items[i]
            })
        }),
{
    lemma_name_at_is(items, update.name@, i);
}

/// Every record that shows another state than before counts once, and no other does.
pub proof fn law_changed_states_are_counted(
    before: Seq<HealthView>,
    after: Seq<HealthView>,
    was: HealthView,
    is_now: HealthView,
)
    requires
        before.len() == after.len(),
    ensures
        was.current_state != is_now.current_state ==> transitions(
            before.push(was),
            after.push(is_now),
        ) == transitions(before, after) + 1,
        was.current_state == is_now.current_state ==> transitions(
            before.push(was),
            after.push(is_now),
        ) == transitions(before, after),
        transitions(before, before) == 0,
    decreases before.len(),
{
    assert(before.push(was).drop_last() =~= before);
    assert(after.push(is_now).drop_last() =~= after);
    lemma_no_transitions(before);
}

proof fn lemma_no_transitions(items: Seq<HealthView>)
    ensures
        transitions(items, items) == 0,
    decreases items.len(),
{
    if items.len() > 0 {
        lemma_no_transitions(items.drop_last());
    }
}

/// The record of a target says which group and which target it is of, under its own name,
/// and how it is probed: by the kind that the group asks for, or else by the protocol, at
/// the port for probes, or else at the port that the listener forwards to. A target that is
/// not probed counts as healthy.
pub proof fn law_records_say_how_targets_are_probed(
    group: Seq<char>,
    probe: ProbeView,
    protocol: Seq<char>,
    target: TargetView,
    before: Option<HealthView>,
)
    ensures
        ({
            let op = health_op(group, Some(probe), protocol, target);
            let record = stamped(before, op);
            &&& record.target_group == group
            &&& record.host_name == target.address
            &&& record.name == health_key(group, target.address, protocol, target.target_port)
            &&& record.inactive_retries == probe.inactive_retries
            &&& probe.probe_type matches Some(kind) ==> record.probe_type == Some(lower(kind))
            &&& probe.probe_type is None ==> record.probe_type == Some(lower(protocol))
            &&& record.probe_req == probe.probe_req
            &&& record.probe_resp == probe.probe_resp
            &&& record.probe_duration == probe.probe_duration
            &&& probe.probe_port matches Some(port) ==> record.probe_port == Some(port)
            &&& probe.probe_port is None ==> record.probe_port == Some(target.target_port)
            &&& before is None ==> record.current_state == Some("unknown"@)
            &&& before matches Some(old_record) ==> (old_record.current_state matches Some(state)
                ==> record.current_state == Some(state))
        }),
        ({
            let record = stamped(before, health_op(group, None, protocol, target));
            &&& record.target_group == group
            &&& record.host_name == target.address
            &&& record.name == health_key(group, target.address, protocol, target.target_port)
            &&& record.probe_type == Some("none"@)
            &&& record.inactive_retries == Some(0u32)
            &&& record.probe_duration == Some(0u32)
            &&& record.probe_port == Some(target.target_port)
            &&& record.current_state == Some("ok"@)
        }),
{
}

/// The name of a record is the group, the address, the protocol and the port.
pub proof fn law_records_are_named(group: Seq<char>, ip: Seq<char>, protocol: Seq<char>, port: u16)
    requires
        ip == trimmed(ip),
        protocol == lower(trimmed(protocol)),
    ensures
        health_key(group, ip, protocol, port) == group + ":"@ + ip + "_"@ + protocol + "_"@
            + decimal(port as nat),
{
}

/// Writing a record puts it in the place of the first of its name, or behind all others
/// where there is none; the others stay as they are.
pub proof fn law_record_takes_its_place(items: Seq<HealthView>, entry: HealthView, i: int)
    requires
        0 <= i <= items.len(),
        i < items.len() ==> items[i].name == entry.name,
        forall|j: int| 0 <= j < i ==> (#[trigger] items[j]).name != entry.name,
    ensures
        ({
            let after = upserted(items, entry);
            &&& after.len() == if i < items.len() {
                items.len()
            } else {
                items.len() + 1
            }
            &&& after[i] == entry
            &&& forall|j: int| 0 <= j < items.len() && j != i ==> #[trigger] after[j] == items[j]
        }),
{
    lemma_name_at_is(items, entry.name, i);
}

/// Verdicts are written down one after the other.
pub proof fn law_verdicts_follow_each_other(
    items: Seq<HealthView>,
    updates: Seq<HealthUpdate>,
    update: HealthUpdate,
)
    ensures
        judged_all(items, Seq::empty()) == items,
        judged_all(items, updates.push(update)) == judged(judged_all(items, updates), update),
{
    assert(updates.push(update).drop_last() =~= updates);
}

} // verus!
