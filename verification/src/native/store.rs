//! The listeners and the health records as they are kept for the API: made anew
//! from the configuration, gathered for reading.
use super::api_model::{
    clone_entry, clone_healths, entry_views, health_views, names_probe, same_entries, same_healths,
    target_views, EntryView, HealthProbeConfig, HealthView, NativeListenerSpec,
    NativeListenerStateEntry, NativeListenerStateList, NativeListenerTarget, ProbeView, SpecView,
    TargetHealthEntry, TargetHealthList, TargetView,
};
use super::health::{
    entry_ops, entry_protocols, has_record, health_key, keep_named, kept,
    law_observed_states_stay, law_records_are_those_asked_for, law_records_settle,
    lemma_ops_concat, lowered, observed_since, op_names, probe_view, protocol_ops, target_ops,
    with_ops, write_records, HealthOp,
};
use super::model::{
    effective_vip_ips, effective_vips, find_group, first_group, law_vips_are_distinct, shared_vip,
    ModelError, DEFAULT_INACTIVE_TIMEOUT,
};
use crate::config::{BackendTarget, Config, Listener, Protocol, TargetGroup};
use crate::net::{format_ip, ip_text, ipv4_text, law_address_text_is_trimmed, push_ipv4, IpAddr};
use crate::text::{
    clone_opt_text, clone_texts, decimal, has_text, join, joined, law_trimming_takes_the_ends, lower,
    lower_text, opt_text, push_decimal, same_text, strings, trim_text, trimmed,
};
use vstd::prelude::*;

verus! {

/// What is kept for the API.
#[derive(Clone, Debug)]
pub struct NativeProxyState {
    pub listeners: Vec<NativeListenerStateEntry>,
    pub target_health: Vec<TargetHealthEntry>,
}

impl Default for NativeProxyState {
    fn default() -> (state: Self)
        ensures
            state.listeners@ == Seq::<NativeListenerStateEntry>::empty(),
            state.target_health@ == Seq::<TargetHealthEntry>::empty(),
    {
        NativeProxyState { listeners: Vec::new(), target_health: Vec::new() }
    }
}

/// Whether what is kept changed since it was last looked at.
#[derive(Clone, Copy, Debug, PartialEq, Eq, Structural)]
pub struct DirtyFlag {
    pub dirty: bool,
}

impl DirtyFlag {
    /// Says that what is kept changed.
    pub fn mark_state_dirty(&mut self)
        ensures
            final(self).dirty,
    {
        self.dirty = true;
    }

    /// Whether what is kept changed since this was last asked.
    pub fn take_state_dirty(&mut self) -> (dirty: bool)
        ensures
            dirty == old(self).dirty,
            !final(self).dirty,
    {
        let dirty = self.dirty;
        self.dirty = false;
        dirty
    }
}

/// Why the state cannot be made from a configuration.
#[derive(Clone, Copy, Debug, PartialEq, Eq, Structural)]
pub enum StoreError {
    /// A listener names a group that is not there.
    MissingGroup,
    /// A listener forwards to port 0.
    TargetPort,
    /// A listener selects no protocol.
    NoProtocol,
    /// The addresses of a listener are of no use.
    Addresses(ModelError),
}

// ---------------------------------------------------------------------------
// A listener from the configuration
// ---------------------------------------------------------------------------

/// A target as the API shows it.
pub open spec fn shown_target(target: BackendTarget, port: u16) -> TargetView {
    TargetView {
        address: ip_text(target.address),
        target_port: port,
        weight: target.weight,
        state: Some("active"@),
        counter: Some("0:0"@),
    }
}

/// The names of protocols.
pub open spec fn protocol_names(protocols: Seq<Protocol>) -> Seq<Seq<char>> {
    protocols.map_values(|protocol: Protocol| protocol.name())
}

/// A listener as the API shows it, before its addresses are set.
pub open spec fn shown_listener(listener: Listener, group: TargetGroup) -> Result<
    EntryView,
    StoreError,
> {
    if listener.target_port == 0 {
        Err(StoreError::TargetPort)
    } else if listener.protocols@.len() == 0 {
        Err(StoreError::NoProtocol)
    } else {
        Ok(
            EntryView {
                target_group: group.name@,
                spec: SpecView {
                    vip_ips: Seq::empty(),
                    port: listener.port,
                    protocol: listener.protocols@[0].name(),
                    sel: listener.select,
                    mode: listener.mode,
                    monitor: group.monitor,
                    probetype: opt_text(group.probe_type),
                    probeport: group.probe_port,
                    probereq: opt_text(group.probe_req),
                    proberesp: opt_text(group.probe_resp),
                    probe_timeout: group.period_secs,
                    probe_retries: group.retries,
                    inactive_timeout: match listener.inactive_timeout {
                        Some(secs) => secs,
                        None => DEFAULT_INACTIVE_TIMEOUT,
                    },
                    name: Some(listener.name@),
                },
                targets: group.targets@.map_values(
                    |target: BackendTarget| shown_target(target, listener.target_port),
                ),
                protocols: protocol_names(listener.protocols@),
            },
        )
    }
}

fn show_targets(targets: &[BackendTarget], port: u16) -> (out: Vec<NativeListenerTarget>)
    ensures
        target_views(out@) == targets@.map_values(
            |target: BackendTarget| shown_target(target, port),
        ),
{
    let mut out: Vec<NativeListenerTarget> = Vec::new();
    let ghost all = targets@.map_values(|target: BackendTarget| shown_target(target, port));
    let mut i: usize = 0;
    assert(target_views(out@) =~= all.take(0));
    while i < targets.len()
        invariant
            i <= targets.len(),
            all == targets@.map_values(|target: BackendTarget| shown_target(target, port)),
            target_views(out@) == all.take(i as int),
        decreases targets.len() - i,
    {
        let target = NativeListenerTarget {
            address: format_ip(targets[i].address),
            target_port: port,
            weight: targets[i].weight,
            state: Some(String::from_str("active")),
            counter: Some(String::from_str("0:0")),
        };
        let ghost view = target@;
        let ghost before = out@;
        out.push(target);
        assert(target_views(out@) =~= target_views(
            before,
        ).push(view));
        assert(view == all[i as int]);
        assert(all.take(i + 1) =~= all.take(i as int).push(view));
        i += 1;
    }
    assert(all.take(all.len() as int) =~= all);
    out
}

fn name_protocols(protocols: &[Protocol]) -> (names: Vec<String>)
    ensures
        strings(names@) == protocol_names(protocols@),
{
    let mut names: Vec<String> = Vec::new();
    let ghost all = protocol_names(protocols@);
    let mut i: usize = 0;
    assert(strings(names@) =~= all.take(0));
    while i < protocols.len()
        invariant
            i <= protocols.len(),
            all == protocol_names(protocols@),
            strings(names@) == all.take(i as int),
        decreases protocols.len() - i,
    {
        let name = String::from_str(protocols[i].as_str());
        let ghost view = name@;
        let ghost before = names@;
        names.push(name);
        assert(strings(names@) =~= strings(before).push(view));
        assert(all.take(i + 1) =~= all.take(i as int).push(view));
        i += 1;
    }
    assert(all.take(all.len() as int) =~= all);
    names
}

/// A listener as the API shows it, before its addresses are set. A group may be
/// empty while it waits for a backend; the port to forward to is the listener's.
pub fn listener_entry(listener: &Listener, group: &TargetGroup) -> (entry: Result<
    NativeListenerStateEntry,
    StoreError,
>)
    ensures
        match (entry, shown_listener(*listener, *group)) {
            (Ok(entry), Ok(view)) => entry@ == view,
            (Err(error), Err(fault)) => error == fault,
            _ => false,
        },
{
    if listener.target_port == 0 {
        return Err(StoreError::TargetPort);
    }
    if listener.protocols.len() == 0 {
        return Err(StoreError::NoProtocol);
    }
    let inactive_timeout: u32 = match listener.inactive_timeout {
        Some(secs) => secs,
        None => DEFAULT_INACTIVE_TIMEOUT,
    };
    let spec = NativeListenerSpec {
        vip_ips: Vec::new(),
        port: listener.port,
        protocol: String::from_str(listener.protocols[0].as_str()),
        sel: listener.select,
        mode: listener.mode,
        monitor: group.monitor,
        probetype: clone_opt_text(&group.probe_type),
        probeport: group.probe_port,
        probereq: clone_opt_text(&group.probe_req),
        proberesp: clone_opt_text(&group.probe_resp),
        probe_timeout: group.period_secs,
        probe_retries: group.retries,
        inactive_timeout,
        name: Some(listener.name.clone()),
    };
    assert(strings(spec.vip_ips@) =~= Seq::<Seq<char>>::empty());
    Ok(
        NativeListenerStateEntry {
            target_group: group.name.clone(),
            spec,
            targets: show_targets(group.targets.as_slice(), listener.target_port),
            protocols: name_protocols(listener.protocols.as_slice()),
        },
    )
}

/// The probe of a group that is monitored.
pub open spec fn group_probe(group: TargetGroup) -> Option<ProbeView> {
    if group.monitor && names_probe(group.probe_type) {
        Some(
            ProbeView {
                probe_type: opt_text(group.probe_type),
                probe_port: group.probe_port,
                probe_req: opt_text(group.probe_req),
                probe_resp: opt_text(group.probe_resp),
                skip_tls_verify: group.probe_skip_tls_verify,
                probe_duration: group.period_secs,
                inactive_retries: group.retries,
            },
        )
    } else {
        None
    }
}

/// The probe of a group that is monitored.
pub fn target_group_probe(group: &TargetGroup) -> (probe: Option<HealthProbeConfig>)
    ensures
        probe_view(probe) == group_probe(*group),
{
    if !group.monitor {
        return None;
    }
    let probe = HealthProbeConfig {
        probe_type: clone_opt_text(&group.probe_type),
        probe_port: group.probe_port,
        probe_req: clone_opt_text(&group.probe_req),
        probe_resp: clone_opt_text(&group.probe_resp),
        skip_tls_verify: group.probe_skip_tls_verify,
        probe_duration: group.period_secs,
        inactive_retries: group.retries,
    };
    if probe.enabled() {
        Some(probe)
    } else {
        None
    }
}

// ---------------------------------------------------------------------------
// Normal form
// ---------------------------------------------------------------------------

/// A list without what repeats its neighbour.
pub open spec fn deduped(s: Seq<Seq<char>>) -> Seq<Seq<char>>
    decreases s.len(),
{
    if s.len() == 0 {
        s
    } else {
        let before = deduped(s.drop_last());
        if before.len() > 0 && before.last() == s.last() {
            before
        } else {
            before.push(s.last())
        }
    }
}

/// The texts that are not blank, without the white space around them.
pub open spec fn unblank(s: Seq<Seq<char>>) -> Seq<Seq<char>>
    decreases s.len(),
{
    if s.len() == 0 {
        s
    } else if trimmed(s.last()).len() == 0 {
        unblank(s.drop_last())
    } else {
        unblank(s.drop_last()).push(trimmed(s.last()))
    }
}

/// A target with its defaults filled in.
pub open spec fn normal_target(target: TargetView) -> TargetView {
    TargetView {
        weight: if target.weight == 0 {
            1
        } else {
            target.weight
        },
        state: match target.state {
            Some(state) => Some(state),
            None => Some("active"@),
        },
        counter: match target.counter {
            Some(counter) => Some(counter),
            None => Some("0:0"@),
        },
        ..target
    }
}

/// A listener in its normal form: protocols in small letters, addresses trimmed,
/// defaults filled in.
pub open spec fn normal_entry(entry: EntryView) -> EntryView {
    EntryView {
        target_group: entry.target_group,
        spec: SpecView {
            vip_ips: unblank(entry.spec.vip_ips),
            protocol: if entry.protocols.len() == 0 {
                lower(entry.spec.protocol)
            } else {
                lower(entry.protocols[0])
            },
            inactive_timeout: if entry.spec.inactive_timeout == 0 {
                DEFAULT_INACTIVE_TIMEOUT
            } else {
                entry.spec.inactive_timeout
            },
            ..entry.spec
        },
        targets: entry.targets.map_values(|target: TargetView| normal_target(target)),
        protocols: if entry.protocols.len() == 0 {
            seq![lower(entry.spec.protocol)]
        } else {
            deduped(lowered(entry.protocols))
        },
    }
}

fn dedup_lowered(texts: &[String]) -> (out: Vec<String>)
    ensures
        strings(out@) == deduped(lowered(strings(texts@))),
        texts.len() > 0 ==> out.len() > 0 && out@[0]@ == lower(texts@[0]@),
{
    let mut out: Vec<String> = Vec::new();
    let ghost all = lowered(strings(texts@));
    let mut i: usize = 0;
    assert(strings(out@) =~= deduped(all.take(0)));
    while i < texts.len()
        invariant
            i <= texts.len(),
            all == lowered(strings(texts@)),
            strings(out@) == deduped(all.take(i as int)),
            i > 0 ==> out.len() > 0 && out@[0]@ == lower(texts@[0]@),
            i == 0 ==> out.len() == 0,
        decreases texts.len() - i,
    {
        let small = lower_text(texts[i].as_str());
        assert(strings(texts@)[i as int] == texts@[i as int]@);
        assert(all[i as int] == small@);
        assert(all.take(i + 1).drop_last() =~= all.take(i as int));
        assert(all.take(i + 1).last() == small@);
        assert(strings(out@).len() == out@.len());
        let repeats = if out.len() > 0 {
            assert(strings(out@).last() == out@[out@.len() - 1]@);
            same_text(out[out.len() - 1].as_str(), small.as_str())
        } else {
            false
        };
        if !repeats {
            let ghost view = small@;
            let ghost before = out@;
            out.push(small);
            assert(strings(out@) =~= strings(before).push(view));
        }
        i += 1;
    }
    assert(all.take(all.len() as int) =~= all);
    out
}

fn trim_unblank(texts: &[String]) -> (out: Vec<String>)
    ensures
        strings(out@) == unblank(strings(texts@)),
{
    let mut out: Vec<String> = Vec::new();
    let ghost all = strings(texts@);
    let mut i: usize = 0;
    assert(strings(out@) =~= unblank(all.take(0)));
    while i < texts.len()
        invariant
            i <= texts.len(),
            all == strings(texts@),
            strings(out@) == unblank(all.take(i as int)),
        decreases texts.len() - i,
    {
        let text = trim_text(texts[i].as_str());
        assert(all.take(i + 1).drop_last() =~= all.take(i as int));
        assert(all.take(i + 1).last() == texts@[i as int]@);
        if !text.as_str().is_empty() {
            let ghost view = text@;
            let ghost before = out@;
            out.push(text);
            assert(strings(out@) =~= strings(before).push(view));
        }
        i += 1;
    }
    assert(all.take(all.len() as int) =~= all);
    out
}

fn normalize_target(target: &NativeListenerTarget) -> (out: NativeListenerTarget)
    ensures
        out@ == normal_target(target@),
{
    let weight: u32 = if target.weight == 0 {
        1
    } else {
        target.weight
    };
    let state = match &target.state {
        Some(state) => Some(state.clone()),
        None => Some(String::from_str("active")),
    };
    let counter = match &target.counter {
        Some(counter) => Some(counter.clone()),
        None => Some(String::from_str("0:0")),
    };
    NativeListenerTarget {
        address: target.address.clone(),
        target_port: target.target_port,
        weight,
        state,
        counter,
    }
}

fn normalize_targets(targets: &[NativeListenerTarget]) -> (out: Vec<NativeListenerTarget>)
    ensures
        target_views(out@) == target_views(
            targets@,
        ).map_values(|target: TargetView| normal_target(target)),
{
    let mut out: Vec<NativeListenerTarget> = Vec::new();
    let ghost views = target_views(targets@);
    let ghost all = views.map_values(|target: TargetView| normal_target(target));
    let mut i: usize = 0;
    assert(target_views(out@) =~= all.take(0));
    while i < targets.len()
        invariant
            i <= targets.len(),
            views == target_views(targets@),
            all == views.map_values(|target: TargetView| normal_target(target)),
            target_views(out@) == all.take(i as int),
        decreases targets.len() - i,
    {
        let target = normalize_target(&targets[i]);
        assert(views[i as int] == targets@[i as int]@);
        let ghost view = target@;
        let ghost before = out@;
        out.push(target);
        assert(target_views(out@) =~= target_views(
            before,
        ).push(view));
        assert(view == all[i as int]);
        assert(all.take(i + 1) =~= all.take(i as int).push(view));
        i += 1;
    }
    assert(all.take(all.len() as int) =~= all);
    out
}

/// Brings a listener into its normal form.
pub fn normalize_entry(entry: &mut NativeListenerStateEntry)
    ensures
        final(entry)@ == normal_entry(old(entry)@),
{
    assert(strings(entry.protocols@).len() == entry.protocols@.len());
    if entry.protocols.len() == 0 {
        let small = lower_text(entry.spec.protocol.as_str());
        entry.spec.protocol = small.clone();
        let mut protocols: Vec<String> = Vec::new();
        protocols.push(small);
        assert(strings(protocols@) =~= seq![lower(old(entry).spec.protocol@)]);
        entry.protocols = protocols;
    } else {
        let protocols = dedup_lowered(entry.protocols.as_slice());
        assert(strings(old(entry).protocols@)[0] == old(entry).protocols@[0]@);
        entry.spec.protocol = protocols[0].clone();
        entry.protocols = protocols;
    }
    entry.spec.vip_ips = trim_unblank(entry.spec.vip_ips.as_slice());
    if entry.spec.inactive_timeout == 0 {
        entry.spec.inactive_timeout = DEFAULT_INACTIVE_TIMEOUT;
    }
    entry.targets = normalize_targets(entry.targets.as_slice());
}

// ---------------------------------------------------------------------------
// The whole state from the configuration
// ---------------------------------------------------------------------------

/// IPv4 addresses as text.
pub open spec fn vip_texts(vips: Seq<u32>) -> Seq<Seq<char>> {
    vips.map_values(|vip: u32| ipv4_text(vip))
}

/// A listener in its normal form with its addresses, and the probe of its group.
pub open spec fn planned(cfg: Config, listener: Listener) -> Result<
    (EntryView, Option<ProbeView>),
    StoreError,
> {
    match first_group(cfg.target_groups@, listener.target_group@) {
        None => Err(StoreError::MissingGroup),
        Some(group) => match shown_listener(listener, group) {
            Err(error) => Err(error),
            Ok(entry) => match effective_vips(cfg, listener.vip_ips@) {
                Err(error) => Err(StoreError::Addresses(error)),
                Ok(vips) => Ok(
                    (
                        normal_entry(
                            EntryView {
                                spec: SpecView { vip_ips: vip_texts(vips), ..entry.spec },
                                ..entry
                            },
                        ),
                        group_probe(group),
                    ),
                ),
            },
        },
    }
}

/// The listeners, the health records to write, and the first fault.
pub struct Plan {
    pub entries: Seq<EntryView>,
    pub ops: Seq<HealthOp>,
    pub error: Option<StoreError>,
}

/// The plan for the first of the configured listeners.
pub open spec fn plan(cfg: Config, listeners: Seq<Listener>) -> Plan
    decreases listeners.len(),
{
    if listeners.len() == 0 {
        Plan { entries: Seq::empty(), ops: Seq::empty(), error: None }
    } else {
        let before = plan(cfg, listeners.drop_last());
        if before.error is Some {
            before
        } else {
            match planned(cfg, listeners.last()) {
                Err(error) => Plan { error: Some(error), ..before },
                Ok((entry, probe)) => Plan {
                    entries: before.entries.push(entry),
                    ops: before.ops + entry_ops(entry, probe),
                    error: None,
                },
            }
        }
    }
}

/// The health records that a configuration leaves.
pub open spec fn projected_health(cfg: Config, health: Seq<HealthView>) -> Seq<HealthView> {
    let all = plan(cfg, cfg.listeners@);
    kept(with_ops(health, all.ops), op_names(all.ops))
}

fn show_vips(vips: &[u32]) -> (texts: Vec<String>)
    ensures
        strings(texts@) == vip_texts(vips@),
{
    let mut texts: Vec<String> = Vec::new();
    let ghost all = vip_texts(vips@);
    let mut i: usize = 0;
    assert(strings(texts@) =~= all.take(0));
    while i < vips.len()
        invariant
            i <= vips.len(),
            all == vip_texts(vips@),
            strings(texts@) == all.take(i as int),
        decreases vips.len() - i,
    {
        let mut text = String::new();
        push_ipv4(&mut text, vips[i]);
        assert(text@ =~= ipv4_text(vips@[i as int]));
        let ghost view = text@;
        let ghost before = texts@;
        texts.push(text);
        assert(strings(texts@) =~= strings(before).push(view));
        assert(all.take(i + 1) =~= all.take(i as int).push(view));
        i += 1;
    }
    assert(all.take(all.len() as int) =~= all);
    texts
}

fn plan_listener(cfg: &Config, listener: &Listener) -> (out: Result<
    (NativeListenerStateEntry, Option<HealthProbeConfig>),
    StoreError,
>)
    ensures
        match (out, planned(*cfg, *listener)) {
            (Ok((entry, probe)), Ok((view, shape))) => entry@ == view && probe_view(probe) == shape,
            (Err(error), Err(fault)) => error == fault,
            _ => false,
        },
{
    let at = match find_group(cfg.target_groups.as_slice(), listener.target_group.as_str()) {
        Some(at) => at,
        None => {
            return Err(StoreError::MissingGroup);
        },
    };
    let group = &cfg.target_groups[at];
    let mut entry = match listener_entry(listener, group) {
        Ok(entry) => entry,
        Err(error) => {
            return Err(error);
        },
    };
    let vips = match effective_vip_ips(cfg, listener.vip_ips.as_slice()) {
        Ok(vips) => vips,
        Err(error) => {
            return Err(StoreError::Addresses(error));
        },
    };
    entry.spec.vip_ips = show_vips(vips.as_slice());
    normalize_entry(&mut entry);
    Ok((entry, target_group_probe(group)))
}

proof fn lemma_concat_names(a: Seq<HealthOp>, b: Seq<HealthOp>)
    ensures
        op_names(a + b) == op_names(a) + op_names(b),
{
    assert(op_names(a + b) =~= op_names(a) + op_names(b));
}

/// Makes the state anew from the configuration. Health that the probes observed
/// stays with its target; records that no listener asks for go. Where the
/// configuration is faulty the listeners stay, and only the records of those
/// before the faulty one are written.
pub fn rebuild_listener_state(cfg: &Config, state: &mut NativeProxyState) -> (result: Result<
    (),
    StoreError,
>)
    ensures
        ({
            let all = plan(*cfg, cfg.listeners@);
            let before = health_views(old(state).target_health@);
            let after = health_views(final(state).target_health@);
            match all.error {
                None => {
                    &&& result == Ok::<(), StoreError>(())
                    &&& entry_views(final(state).listeners@) == all.entries
                    &&& after == projected_health(*cfg, before)
                },
                Some(error) => {
                    &&& result == Err::<(), StoreError>(error)
                    &&& final(state).listeners == old(state).listeners
                    &&& after == with_ops(before, all.ops)
                },
            }
        }),
{
    let ghost start = health_views(state.target_health@);
    let ghost listeners = state.listeners;
    let mut entries: Vec<NativeListenerStateEntry> = Vec::new();
    let mut names: Vec<String> = Vec::new();
    let mut fault: Option<StoreError> = None;
    let mut i: usize = 0;
    assert(entry_views(entries@) =~= Seq::<EntryView>::empty());
    assert(strings(names@) =~= op_names(Seq::<HealthOp>::empty()));
    while i < cfg.listeners.len()
        invariant
            i <= cfg.listeners.len(),
            state.listeners == listeners,
            ({
                let done = plan(*cfg, cfg.listeners@.take(i as int));
                &&& fault == done.error
                &&& entry_views(entries@) == done.entries
                &&& strings(names@) == op_names(done.ops)
                &&& health_views(state.target_health@) == with_ops(start, done.ops)
            }),
        decreases cfg.listeners.len() - i,
    {
        let ghost done = plan(*cfg, cfg.listeners@.take(i as int));
        assert(cfg.listeners@.take(i + 1).drop_last() =~= cfg.listeners@.take(i as int));
        assert(cfg.listeners@.take(i + 1).last() == cfg.listeners@[i as int]);
        if fault.is_none() {
            match plan_listener(cfg, &cfg.listeners[i]) {
                Err(error) => {
                    fault = Some(error);
                },
                Ok((entry, probe)) => {
                    write_records(&mut state.target_health, &mut names, &entry, &probe);
                    let ghost more = entry_ops(entry@, probe_view(probe));
                    let ghost view = entry@;
                    let ghost before = entries@;
                    proof {
                        lemma_ops_concat(start, done.ops, more);
                        lemma_concat_names(done.ops, more);
                    }
                    entries.push(entry);
                    assert(entry_views(entries@) =~= entry_views(before).push(view));
                },
            }
        }
        i += 1;
    }
    assert(cfg.listeners@.take(cfg.listeners@.len() as int) =~= cfg.listeners@);
    match fault {
        Some(error) => Err(error),
        None => {
            state.target_health = keep_named(state.target_health.as_slice(), names.as_slice());
            state.listeners = entries;
            Ok(())
        },
    }
}

/// Whether a state differs from the one that is stored.
pub fn state_changed(stored: &Option<NativeProxyState>, state: &NativeProxyState) -> (changed: bool)
    ensures
        changed == (match *stored {
            None => true,
            Some(stored) => entry_views(stored.listeners@) != entry_views(state.listeners@)
                || health_views(stored.target_health@) != health_views(state.target_health@),
        }),
{
    match stored {
        None => true,
        Some(stored) => !same_entries(stored.listeners.as_slice(), state.listeners.as_slice())
            || !same_healths(stored.target_health.as_slice(), state.target_health.as_slice()),
    }
}

/// The health records that are stored; without a stored state there are none.
pub open spec fn stored_health(stored: Option<NativeProxyState>) -> Seq<HealthView> {
    match stored {
        Some(stored) => health_views(stored.target_health@),
        None => Seq::empty(),
    }
}

/// Makes the stored state anew and says whether the new one has to be stored: it has
/// where it differs, and where none is stored yet. It does not say that the state is
/// dirty: that is what led here.
pub fn reconcile_listener_state(cfg: &Config, stored: &Option<NativeProxyState>) -> (made: Result<
    (NativeProxyState, bool),
    StoreError,
>)
    ensures
        ({
            let all = plan(*cfg, cfg.listeners@);
            match (made, all.error) {
                (Ok((state, store)), None) => {
                    &&& entry_views(state.listeners@) == all.entries
                    &&& health_views(state.target_health@) == projected_health(
                        *cfg,
                        stored_health(*stored),
                    )
                    &&& store == (match *stored {
                        None => true,
                        Some(stored) => entry_views(stored.listeners@) != all.entries
                            || health_views(stored.target_health@) != health_views(
                            state.target_health@,
                        ),
                    })
                },
                (Err(error), Some(fault)) => error == fault,
                _ => false,
            }
        }),
{
    let mut state = match stored {
        Some(stored) => NativeProxyState {
            listeners: clone_entries(stored.listeners.as_slice()),
            target_health: clone_healths(stored.target_health.as_slice()),
        },
        None => NativeProxyState::default(),
    };
    assert(health_views(state.target_health@) =~= stored_health(*stored));
    match rebuild_listener_state(cfg, &mut state) {
        Err(error) => Err(error),
        Ok(()) => {
            let store = state_changed(stored, &state);
            Ok((state, store))
        },
    }
}

/// A copy of a list of listeners.
pub fn clone_entries(entries: &[NativeListenerStateEntry]) -> (copy: Vec<NativeListenerStateEntry>)
    ensures
        entry_views(copy@) == entry_views(entries@),
{
    let mut copy: Vec<NativeListenerStateEntry> = Vec::new();
    let ghost all = entry_views(entries@);
    let mut i: usize = 0;
    assert(entry_views(copy@) =~= all.take(0));
    while i < entries.len()
        invariant
            i <= entries.len(),
            all == entry_views(entries@),
            entry_views(copy@) == all.take(i as int),
        decreases entries.len() - i,
    {
        let entry = clone_entry(&entries[i]);
        let ghost view = entry@;
        let ghost before = copy@;
        copy.push(entry);
        assert(entry_views(copy@) =~= entry_views(before).push(view));
        assert(all.take(i + 1) =~= all.take(i as int).push(view));
        i += 1;
    }
    assert(all.take(all.len() as int) =~= all);
    copy
}

/// The health records, for the API.
pub fn target_health(state: &NativeProxyState) -> (entries: Vec<TargetHealthEntry>)
    ensures
        entries@ == state.target_health@,
{
    clone_healths(state.target_health.as_slice())
}

/// The health records, for the API.
pub fn target_health_native(state: &NativeProxyState) -> (list: TargetHealthList)
    ensures
        list.entries@ == state.target_health@,
{
    TargetHealthList { entries: clone_healths(state.target_health.as_slice()) }
}

// ---------------------------------------------------------------------------
// Names of listeners
// ---------------------------------------------------------------------------

/// The names that a listener gets where none is given.
pub open spec fn generated_names(port: u16) -> Seq<Seq<char>> {
    let tail = "-"@ + decimal(port as nat);
    seq![
        "tcp"@ + tail,
        "udp"@ + tail,
        "tcp-udp"@ + tail,
        "udp-tcp"@ + tail,
        "auto-tcp"@ + tail,
        "auto-udp"@ + tail,
        "auto-tcp-udp"@ + tail,
        "auto-udp-tcp"@ + tail,
    ]
}

/// Whether a listener has no name of its own.
pub open spec fn is_generated(name: Option<Seq<char>>, port: u16) -> bool {
    match name {
        None => true,
        Some(name) => generated_names(port).contains(trimmed(name)),
    }
}

fn is_name_of(name: &str, start: &str, tail: &str) -> (b: bool)
    ensures
        b == (name@ == start@ + tail@),
{
    let mut text = String::from_str(start);
    text.append(tail);
    same_text(name, text.as_str())
}

/// Whether a listener has no name of its own.
pub fn is_generated_listener_name(name: &Option<String>, port: u16) -> (b: bool)
    ensures
        b == is_generated(opt_text(*name), port),
{
    match name {
        None => true,
        Some(name) => {
            let kept = trim_text(name.as_str());
            let mut tail = String::from_str("-");
            push_decimal(&mut tail, port as u64);
            let ghost names = generated_names(port);
            assert(names.len() == 8);
            assert(names[0] == "tcp"@ + tail@ && names[1] == "udp"@ + tail@ && names[2]
                == "tcp-udp"@ + tail@ && names[3] == "udp-tcp"@ + tail@ && names[4] == "auto-tcp"@
                + tail@ && names[5] == "auto-udp"@ + tail@ && names[6] == "auto-tcp-udp"@ + tail@
                && names[7] == "auto-udp-tcp"@ + tail@);
            let n = kept.as_str();
            let t = tail.as_str();
            is_name_of(n, "tcp", t) || is_name_of(n, "udp", t) || is_name_of(n, "tcp-udp", t)
                || is_name_of(n, "udp-tcp", t) || is_name_of(n, "auto-tcp", t) || is_name_of(
                n,
                "auto-udp",
                t,
            ) || is_name_of(n, "auto-tcp-udp", t) || is_name_of(n, "auto-udp-tcp", t)
        },
    }
}

/// The name that protocols and a port make.
pub open spec fn made_name(protocols: Seq<Seq<char>>, port: u16) -> Seq<char> {
    joined(protocols, "-"@) + "-"@ + decimal(port as nat)
}

fn make_name(protocols: &[String], port: u16) -> (name: String)
    ensures
        name@ == made_name(strings(protocols@), port),
{
    let mut name = join(protocols, "-");
    name.append("-");
    push_decimal(&mut name, port as u64);
    name
}

/// The name of a listener: its own, or made of its protocols and port.
pub open spec fn shown_name(entry: EntryView) -> Seq<char> {
    match entry.spec.name {
        Some(name) => if trimmed(name).len() > 0 {
            trimmed(name)
        } else {
            made_name(entry_protocols(entry), entry.spec.port)
        },
        None => made_name(entry_protocols(entry), entry.spec.port),
    }
}

fn copy_protocols(entry: &NativeListenerStateEntry) -> (protocols: Vec<String>)
    ensures
        strings(protocols@) == entry_protocols(entry@),
{
    assert(entry@.protocols.len() == entry.protocols@.len());
    if entry.protocols.len() == 0 {
        let mut protocols: Vec<String> = Vec::new();
        protocols.push(entry.spec.protocol.clone());
        assert(strings(protocols@) =~= seq![entry.spec.protocol@]);
        protocols
    } else {
        clone_texts(entry.protocols.as_slice())
    }
}

/// The name of a listener: its own, or made of its protocols and port.
pub fn listener_name(entry: &NativeListenerStateEntry) -> (name: String)
    ensures
        name@ == shown_name(entry@),
{
    if let Some(name) = &entry.spec.name {
        let kept = trim_text(name.as_str());
        if !kept.as_str().is_empty() {
            return kept;
        }
    }
    let protocols = copy_protocols(entry);
    make_name(protocols.as_slice(), entry.spec.port)
}

// ---------------------------------------------------------------------------
// Gathering listeners for reading
// ---------------------------------------------------------------------------

/// Whether two lists have a text in common.
pub open spec fn overlap(a: Seq<Seq<char>>, b: Seq<Seq<char>>) -> bool {
    exists|i: int| 0 <= i < a.len() && b.contains(#[trigger] a[i])
}

/// The name of a listener without white space around it; empty if there is none.
pub open spec fn plain_name(entry: EntryView) -> Seq<char> {
    match entry.spec.name {
        Some(name) => trimmed(name),
        None => trimmed(""@),
    }
}

/// Whether two records are of one listener: they share an address, a port and a
/// name, or neither has a name of its own.
pub open spec fn same_listener(a: EntryView, b: EntryView) -> bool {
    &&& overlap(a.spec.vip_ips, b.spec.vip_ips)
    &&& a.spec.port == b.spec.port
    &&& plain_name(a) == plain_name(b) || (is_generated(a.spec.name, a.spec.port) && is_generated(
        b.spec.name,
        b.spec.port,
    ))
}

fn have_common(a: &[String], b: &[String]) -> (common: bool)
    ensures
        common == overlap(strings(a@), strings(b@)),
{
    let ghost va = strings(a@);
    let mut i: usize = 0;
    while i < a.len()
        invariant
            i <= a.len(),
            va == strings(a@),
            forall|j: int| 0 <= j < i ==> !strings(b@).contains(#[trigger] va[j]),
        decreases a.len() - i,
    {
        assert(va[i as int] == a@[i as int]@);
        if has_text(b, a[i].as_str()) {
            assert(strings(b@).contains(va[i as int]));
            return true;
        }
        i += 1;
    }
    false
}

fn trim_name(entry: &NativeListenerStateEntry) -> (name: String)
    ensures
        name@ == plain_name(entry@),
{
    match &entry.spec.name {
        Some(name) => trim_text(name.as_str()),
        None => trim_text(""),
    }
}

/// Whether two records are of one listener.
pub fn same_listener_identity(a: &NativeListenerStateEntry, b: &NativeListenerStateEntry) -> (same:
    bool)
    ensures
        same == same_listener(a@, b@),
{
    if !have_common(a.spec.vip_ips.as_slice(), b.spec.vip_ips.as_slice()) || a.spec.port
        != b.spec.port {
        return false;
    }
    let first = trim_name(a);
    let second = trim_name(b);
    same_text(first.as_str(), second.as_str()) || (is_generated_listener_name(
        &a.spec.name,
        a.spec.port,
    ) && is_generated_listener_name(&b.spec.name, b.spec.port))
}

/// `list` with the texts of `more` that it lacks.
pub open spec fn with_missing(list: Seq<Seq<char>>, more: Seq<Seq<char>>) -> Seq<Seq<char>>
    decreases more.len(),
{
    if more.len() == 0 {
        list
    } else {
        let before = with_missing(list, more.drop_last());
        if before.contains(more.last()) {
            before
        } else {
            before.push(more.last())
        }
    }
}

/// Whether a list has a text, whatever its case.
pub open spec fn has_any_case(list: Seq<Seq<char>>, text: Seq<char>) -> bool {
    lowered(list).contains(lower(text))
}

/// `list` with the protocols of `more` that it lacks, in small letters.
pub open spec fn with_protocols(list: Seq<Seq<char>>, more: Seq<Seq<char>>) -> Seq<Seq<char>>
    decreases more.len(),
{
    if more.len() == 0 {
        list
    } else {
        let before = with_protocols(list, more.drop_last());
        if has_any_case(before, more.last()) {
            before
        } else {
            before.push(lower(more.last()))
        }
    }
}

/// A listener with the addresses and protocols of another record of it.
pub open spec fn merged_entry(a: EntryView, b: EntryView) -> EntryView {
    let protocols = with_protocols(entry_protocols(a), entry_protocols(b));
    EntryView {
        spec: SpecView {
            vip_ips: with_missing(a.spec.vip_ips, b.spec.vip_ips),
            name: if is_generated(a.spec.name, a.spec.port) && is_generated(
                b.spec.name,
                b.spec.port,
            ) {
                Some(made_name(protocols, a.spec.port))
            } else {
                a.spec.name
            },
            ..a.spec
        },
        protocols,
        ..a
    }
}

fn push_missing(list: &mut Vec<String>, more: &[String])
    ensures
        strings(final(list)@) == with_missing(strings(old(list)@), strings(more@)),
{
    let ghost start = strings(list@);
    let ghost views = strings(more@);
    let mut i: usize = 0;
    while i < more.len()
        invariant
            i <= more.len(),
            views == strings(more@),
            strings(list@) == with_missing(start, views.take(i as int)),
        decreases more.len() - i,
    {
        assert(views.take(i + 1).drop_last() =~= views.take(i as int));
        assert(views.take(i + 1).last() == more@[i as int]@);
        if !has_text(list.as_slice(), more[i].as_str()) {
            let ghost before = list@;
            list.push(more[i].clone());
            assert(strings(list@) =~= strings(before).push(more@[i as int]@));
        }
        i += 1;
    }
    assert(views.take(views.len() as int) =~= views);
}

fn has_protocol(list: &[String], text: &str) -> (b: bool)
    ensures
        b == has_any_case(strings(list@), text@),
{
    let small = lower_text(text);
    let ghost all = lowered(strings(list@));
    let mut i: usize = 0;
    while i < list.len()
        invariant
            i <= list.len(),
            small@ == lower(text@),
            all == lowered(strings(list@)),
            forall|j: int| 0 <= j < i ==> all[j] != small@,
        decreases list.len() - i,
    {
        let other = lower_text(list[i].as_str());
        assert(all[i as int] == other@);
        if same_text(other.as_str(), small.as_str()) {
            return true;
        }
        i += 1;
    }
    false
}

fn push_protocols(list: &mut Vec<String>, more: &[String])
    ensures
        strings(final(list)@) == with_protocols(strings(old(list)@), strings(more@)),
{
    let ghost start = strings(list@);
    let ghost views = strings(more@);
    let mut i: usize = 0;
    while i < more.len()
        invariant
            i <= more.len(),
            views == strings(more@),
            strings(list@) == with_protocols(start, views.take(i as int)),
        decreases more.len() - i,
    {
        assert(views.take(i + 1).drop_last() =~= views.take(i as int));
        assert(views.take(i + 1).last() == more@[i as int]@);
        if !has_protocol(list.as_slice(), more[i].as_str()) {
            let small = lower_text(more[i].as_str());
            let ghost view = small@;
            let ghost before = list@;
            list.push(small);
            assert(strings(list@) =~= strings(before).push(view));
        }
        i += 1;
    }
    assert(views.take(views.len() as int) =~= views);
}

/// Adds the addresses and protocols of another record of a listener to it.
pub fn merge_entries(existing: &NativeListenerStateEntry, incoming: &NativeListenerStateEntry) -> (
    merged: NativeListenerStateEntry)
    ensures
        merged@ == merged_entry(existing@, incoming@),
{
    let mut merged = clone_entry(existing);
    push_missing(&mut merged.spec.vip_ips, incoming.spec.vip_ips.as_slice());
    let mut protocols = copy_protocols(existing);
    let more = copy_protocols(incoming);
    push_protocols(&mut protocols, more.as_slice());
    if is_generated_listener_name(&existing.spec.name, existing.spec.port)
        && is_generated_listener_name(&incoming.spec.name, incoming.spec.port) {
        merged.spec.name = Some(make_name(protocols.as_slice(), existing.spec.port));
    }
    merged.protocols = protocols;
    merged
}

/// Where the first record of a listener stands; the length of the list if there
/// is none.
pub open spec fn listener_at(entries: Seq<EntryView>, entry: EntryView) -> int
    decreases entries.len(),
{
    if entries.len() == 0 {
        0
    } else if same_listener(entries[0], entry) {
        0
    } else {
        1 + listener_at(entries.skip(1), entry)
    }
}

/// The records with those of one listener brought together.
pub open spec fn gathered(entries: Seq<EntryView>) -> Seq<EntryView>
    decreases entries.len(),
{
    if entries.len() == 0 {
        Seq::empty()
    } else {
        let before = gathered(entries.drop_last());
        let entry = entries.last();
        let at = listener_at(before, entry);
        if at < before.len() {
            before.update(at, merged_entry(before[at], entry))
        } else {
            before.push(entry)
        }
    }
}

fn find_listener(entries: &[NativeListenerStateEntry], entry: &NativeListenerStateEntry) -> (at:
    usize)
    ensures
        at == listener_at(entry_views(entries@), entry@),
        at <= entries.len(),
{
    let ghost views = entry_views(entries@);
    let mut i: usize = 0;
    assert(views.skip(0) =~= views);
    while i < entries.len()
        invariant
            i <= entries.len(),
            views == entry_views(entries@),
            listener_at(views, entry@) == i + listener_at(views.skip(i as int), entry@),
        decreases entries.len() - i,
    {
        assert(views.skip(i as int)[0] == entries@[i as int]@);
        assert(views.skip(i as int).skip(1) =~= views.skip(i + 1));
        if same_listener_identity(&entries[i], entry) {
            return i;
        }
        i += 1;
    }
    i
}

/// The listeners for the API: records of one listener are shown as one.
pub fn native_listeners_state(state: &NativeProxyState) -> (list: NativeListenerStateList)
    ensures
        entry_views(list.listeners@) == gathered(entry_views(state.listeners@)),
{
    let mut entries: Vec<NativeListenerStateEntry> = Vec::new();
    let ghost views = entry_views(state.listeners@);
    let mut i: usize = 0;
    assert(entry_views(entries@) =~= Seq::<EntryView>::empty());
    while i < state.listeners.len()
        invariant
            i <= state.listeners.len(),
            views == entry_views(state.listeners@),
            entry_views(entries@) == gathered(views.take(i as int)),
        decreases state.listeners.len() - i,
    {
        let entry = &state.listeners[i];
        assert(views.take(i + 1).drop_last() =~= views.take(i as int));
        assert(views.take(i + 1).last() == entry@);
        let at = find_listener(entries.as_slice(), entry);
        let ghost before = entries@;
        assert(entry_views(before).len() == before.len());
        if at < entries.len() {
            let merged = merge_entries(&entries[at], entry);
            assert(entry_views(before)[at as int] == before[at as int]@);
            let ghost view = merged@;
            entries.set(at, merged);
            assert(entry_views(entries@) =~= entry_views(before).update(at as int, view));
        } else {
            entries.push(clone_entry(entry));
            assert(entry_views(entries@) =~= entry_views(before).push(entry@));
        }
        i += 1;
    }
    assert(views.take(views.len() as int) =~= views);
    NativeListenerStateList { listeners: entries }
}

// ---------------------------------------------------------------------------
// Addresses and protocols of one listener
// ---------------------------------------------------------------------------

/// The addresses of a listener that sets none.
pub open spec fn default_ips(cfg: Config) -> Seq<Seq<char>> {
    match effective_vips(cfg, Seq::empty()) {
        Ok(vips) => vip_texts(vips),
        Err(_) => seq![ip_text(cfg.network.gateway_ip)],
    }
}

fn default_external_ips(cfg: &Config) -> (ips: Vec<String>)
    ensures
        strings(ips@) == default_ips(*cfg),
{
    let none: Vec<IpAddr> = Vec::new();
    assert(none@ =~= Seq::<IpAddr>::empty());
    match effective_vip_ips(cfg, none.as_slice()) {
        Ok(vips) => show_vips(vips.as_slice()),
        Err(_) => {
            let mut ips: Vec<String> = Vec::new();
            ips.push(format_ip(cfg.network.gateway_ip));
            assert(strings(ips@) =~= seq![ip_text(cfg.network.gateway_ip)]);
            ips
        },
    }
}

proof fn lemma_first_default_ip(cfg: Config)
    ensures
        default_ips(cfg).len() > 0,
        default_ips(cfg)[0] == ip_text(cfg.network.gateway_ip),
{
    if let IpAddr::V4(gateway) = cfg.network.gateway_ip {
        law_vips_are_distinct(gateway, Seq::empty(), shared_vip(cfg.ha));
    }
}

/// The address of a listener that sets none: the gateway's own.
pub fn default_external_ip(cfg: &Config) -> (ip: String)
    ensures
        ip@ == ip_text(cfg.network.gateway_ip),
{
    let ips = default_external_ips(cfg);
    proof {
        lemma_first_default_ip(*cfg);
        assert(strings(ips@).len() == ips@.len());
        assert(strings(ips@)[0] == ips@[0]@);
    }
    ips[0].clone()
}

/// A listener at one address and for one protocol.
pub open spec fn single(entry: EntryView, ip: Seq<char>, protocol: Seq<char>) -> EntryView {
    EntryView {
        spec: SpecView { vip_ips: seq![ip], protocol, ..entry.spec },
        protocols: seq![protocol],
        ..entry
    }
}

/// A listener at one address, for each of its protocols.
pub open spec fn at_ip(entry: EntryView, ip: Seq<char>) -> Seq<EntryView> {
    entry_protocols(entry).map_values(|protocol: Seq<char>| single(entry, ip, protocol))
}

/// A listener at each address and for each of its protocols.
pub open spec fn at_ips(entry: EntryView, ips: Seq<Seq<char>>) -> Seq<EntryView>
    decreases ips.len(),
{
    if ips.len() == 0 {
        Seq::empty()
    } else {
        at_ips(entry, ips.drop_last()) + at_ip(entry, ips.last())
    }
}

/// The addresses of a listener.
pub open spec fn entry_ips(cfg: Config, entry: EntryView) -> Seq<Seq<char>> {
    if entry.spec.vip_ips.len() == 0 {
        default_ips(cfg)
    } else {
        unblank(entry.spec.vip_ips)
    }
}

fn one_text(text: &str) -> (list: Vec<String>)
    ensures
        strings(list@) == seq![text@],
{
    let mut list: Vec<String> = Vec::new();
    list.push(String::from_str(text));
    assert(strings(list@) =~= seq![text@]);
    list
}

fn push_at_ip(
    out: &mut Vec<NativeListenerStateEntry>,
    entry: &NativeListenerStateEntry,
    protocols: &[String],
    ip: &str,
)
    requires
        strings(protocols@) == entry_protocols(entry@),
    ensures
        entry_views(final(out)@) == entry_views(old(out)@) + at_ip(entry@, ip@),
{
    let ghost start = entry_views(out@);
    let ghost all = at_ip(entry@, ip@);
    let mut i: usize = 0;
    assert(start + all.take(0) =~= start);
    assert(strings(protocols@).len() == protocols@.len());
    while i < protocols.len()
        invariant
            i <= protocols.len(),
            strings(protocols@) == entry_protocols(entry@),
            strings(protocols@).len() == protocols@.len(),
            all == at_ip(entry@, ip@),
            entry_views(out@) == start + all.take(i as int),
        decreases protocols.len() - i,
    {
        let mut next = clone_entry(entry);
        next.spec.vip_ips = one_text(ip);
        next.spec.protocol = protocols[i].clone();
        next.protocols = one_text(protocols[i].as_str());
        assert(strings(protocols@)[i as int] == protocols@[i as int]@);
        let ghost view = next@;
        assert(view == all[i as int]);
        let ghost before = out@;
        out.push(next);
        assert(entry_views(out@) =~= entry_views(before).push(view));
        assert(all.take(i + 1) =~= all.take(i as int).push(view));
        assert((start + all.take(i as int)).push(view) =~= start + all.take(i + 1));
        i += 1;
    }
    assert(all.take(all.len() as int) =~= all);
}

/// A listener at each of its addresses and for each of its protocols.
pub fn expanded_native_listener_entries(cfg: &Config, entry: &NativeListenerStateEntry) -> (out:
    Vec<NativeListenerStateEntry>)
    ensures
        entry_views(out@) == at_ips(entry@, entry_ips(*cfg, entry@)),
{
    assert(entry@.spec.vip_ips.len() == entry.spec.vip_ips@.len());
    let ips = if entry.spec.vip_ips.len() == 0 {
        default_external_ips(cfg)
    } else {
        trim_unblank(entry.spec.vip_ips.as_slice())
    };
    let protocols = copy_protocols(entry);
    let mut out: Vec<NativeListenerStateEntry> = Vec::new();
    let ghost views = strings(ips@);
    let mut i: usize = 0;
    assert(entry_views(out@) =~= Seq::<EntryView>::empty());
    while i < ips.len()
        invariant
            i <= ips.len(),
            views == strings(ips@),
            strings(protocols@) == entry_protocols(entry@),
            entry_views(out@) == at_ips(entry@, views.take(i as int)),
        decreases ips.len() - i,
    {
        assert(views.take(i + 1).drop_last() =~= views.take(i as int));
        assert(views.take(i + 1).last() == ips@[i as int]@);
        push_at_ip(&mut out, entry, protocols.as_slice(), ips[i].as_str());
        i += 1;
    }
    assert(views.take(views.len() as int) =~= views);
    out
}

// ---------------------------------------------------------------------------
// Removing listeners
// ---------------------------------------------------------------------------

/// The listeners that do not have a name.
pub open spec fn not_named(entries: Seq<EntryView>, name: Seq<char>) -> Seq<EntryView>
    decreases entries.len(),
{
    if entries.len() == 0 {
        Seq::empty()
    } else if shown_name(entries.last()) == name {
        not_named(entries.drop_last(), name)
    } else {
        not_named(entries.drop_last(), name).push(entries.last())
    }
}

/// Removes the listeners of a name. Where there were any, the state has to be
/// stored and is dirty.
pub fn delete_listener(state: &mut NativeProxyState, flag: &mut DirtyFlag, name: &str) -> (changed:
    bool)
    ensures
        entry_views(final(state).listeners@) == not_named(
            entry_views(old(state).listeners@),
            name@,
        ),
        final(state).target_health == old(state).target_health,
        changed == (final(state).listeners@.len() != old(state).listeners@.len()),
        final(flag).dirty == (old(flag).dirty || changed),
{
    let mut left: Vec<NativeListenerStateEntry> = Vec::new();
    let ghost views = entry_views(state.listeners@);
    let mut i: usize = 0;
    assert(entry_views(left@) =~= Seq::<EntryView>::empty());
    while i < state.listeners.len()
        invariant
            i <= state.listeners.len(),
            *state == *old(state),
            views == entry_views(state.listeners@),
            entry_views(left@) == not_named(views.take(i as int), name@),
        decreases state.listeners.len() - i,
    {
        assert(views.take(i + 1).drop_last() =~= views.take(i as int));
        assert(views.take(i + 1).last() == state.listeners@[i as int]@);
        let own = listener_name(&state.listeners[i]);
        if !same_text(own.as_str(), name) {
            let ghost before = left@;
            let copy = clone_entry(&state.listeners[i]);
            let ghost view = copy@;
            left.push(copy);
            assert(entry_views(left@) =~= entry_views(before).push(view));
        }
        i += 1;
    }
    assert(views.take(views.len() as int) =~= views);
    let changed = left.len() != state.listeners.len();
    state.listeners = left;
    if changed {
        flag.mark_state_dirty();
    }
    changed
}

// ---------------------------------------------------------------------------
// Laws
// ---------------------------------------------------------------------------

/// Making the state anew from one configuration a second time changes nothing.
pub proof fn law_projection_settles(cfg: Config, health: Seq<HealthView>)
    ensures
        projected_health(cfg, projected_health(cfg, health)) == projected_health(cfg, health),
{
    law_records_settle(health, plan(cfg, cfg.listeners@).ops);
}

/// Making the state anew a second time keeps what probes observed in between: where
/// nothing but the states of probed targets changed, nothing changes.
pub proof fn law_projection_keeps_what_was_observed(
    cfg: Config,
    health: Seq<HealthView>,
    later: Seq<HealthView>,
)
    requires
        observed_since(projected_health(cfg, health), later, plan(cfg, cfg.listeners@).ops),
    ensures
        projected_health(cfg, later) == later,
{
    law_observed_states_stay(health, plan(cfg, cfg.listeners@).ops, later);
}

/// Whether a name is that of a target of a listener under one of its protocols.
pub open spec fn is_health_key_of(entry: EntryView, name: Seq<char>) -> bool {
    let protocols = lowered(entry_protocols(entry));
    exists|p: int, t: int|
        0 <= p < protocols.len() && 0 <= t < entry.targets.len() && name == health_key(
            entry.target_group,
            (#[trigger] entry.targets[t]).address,
            #[trigger] protocols[p],
            entry.targets[t].target_port,
        )
}

proof fn lemma_target_names(
    group: Seq<char>,
    probe: Option<ProbeView>,
    protocol: Seq<char>,
    targets: Seq<TargetView>,
    name: Seq<char>,
)
    ensures
        op_names(target_ops(group, probe, protocol, targets)).contains(name) <==> exists|t: int|
            0 <= t < targets.len() && name == health_key(
                group,
                (#[trigger] targets[t]).address,
                protocol,
                targets[t].target_port,
            ),
{
    let names = op_names(target_ops(group, probe, protocol, targets));
    assert forall|t: int| 0 <= t < targets.len() implies names[t] == health_key(
        group,
        (#[trigger] targets[t]).address,
        protocol,
        targets[t].target_port,
    ) by {
        assert(names[t] == target_ops(group, probe, protocol, targets)[t].record.name);
    }
    if names.contains(name) {
        let t = names.index_of(name);
        assert(name == health_key(group, targets[t].address, protocol, targets[t].target_port));
    }
    if exists|t: int|
        0 <= t < targets.len() && name == health_key(
            group,
            (#[trigger] targets[t]).address,
            protocol,
            targets[t].target_port,
        ) {
        let t = choose|t: int|
            0 <= t < targets.len() && name == health_key(
                group,
                (#[trigger] targets[t]).address,
                protocol,
                targets[t].target_port,
            );
        assert(names[t] == name);
    }
}

proof fn lemma_contains_concat(a: Seq<Seq<char>>, b: Seq<Seq<char>>, name: Seq<char>)
    ensures
        (a + b).contains(name) <==> a.contains(name) || b.contains(name),
{
    if a.contains(name) {
        let i = a.index_of(name);
        assert((a + b)[i] == name);
    }
    if b.contains(name) {
        let i = b.index_of(name);
        assert((a + b)[a.len() + i] == name);
    }
    if (a + b).contains(name) {
        let i = (a + b).index_of(name);
        if i < a.len() {
            assert(a[i] == name);
        } else {
            assert(b[i - a.len()] == name);
        }
    }
}

proof fn lemma_protocol_names(
    group: Seq<char>,
    probe: Option<ProbeView>,
    protocols: Seq<Seq<char>>,
    targets: Seq<TargetView>,
    name: Seq<char>,
)
    ensures
        op_names(protocol_ops(group, probe, protocols, targets)).contains(name) <==> exists|
            p: int,
            t: int,
        |
            0 <= p < protocols.len() && 0 <= t < targets.len() && name == health_key(
                group,
                (#[trigger] targets[t]).address,
                #[trigger] protocols[p],
                targets[t].target_port,
            ),
    decreases protocols.len(),
{
    if protocols.len() > 0 {
        let front = protocols.drop_last();
        let before = protocol_ops(group, probe, front, targets);
        let more = target_ops(group, probe, protocols.last(), targets);
        lemma_protocol_names(group, probe, front, targets, name);
        lemma_target_names(group, probe, protocols.last(), targets, name);
        lemma_concat_names(before, more);
        lemma_contains_concat(op_names(before), op_names(more), name);
        if op_names(before).contains(name) {
            let (p, t) = choose|p: int, t: int|
                0 <= p < front.len() && 0 <= t < targets.len() && name == health_key(
                    group,
                    (#[trigger] targets[t]).address,
                    #[trigger] front[p],
                    targets[t].target_port,
                );
            assert(name == health_key(
                group,
                targets[t].address,
                protocols[p],
                targets[t].target_port,
            ));
        }
        if op_names(more).contains(name) {
            let t = choose|t: int|
                0 <= t < targets.len() && name == health_key(
                    group,
                    (#[trigger] targets[t]).address,
                    protocols.last(),
                    targets[t].target_port,
                );
            assert(name == health_key(
                group,
                targets[t].address,
                protocols[protocols.len() - 1],
                targets[t].target_port,
            ));
        }
        if exists|p: int, t: int|
            0 <= p < protocols.len() && 0 <= t < targets.len() && name == health_key(
                group,
                (#[trigger] targets[t]).address,
                #[trigger] protocols[p],
                targets[t].target_port,
            ) {
            let (p, t) = choose|p: int, t: int|
                0 <= p < protocols.len() && 0 <= t < targets.len() && name == health_key(
                    group,
                    (#[trigger] targets[t]).address,
                    #[trigger] protocols[p],
                    targets[t].target_port,
                );
            if p < front.len() {
                assert(name == health_key(
                    group,
                    targets[t].address,
                    front[p],
                    targets[t].target_port,
                ));
            }
        }
    } else {
        assert(op_names(protocol_ops(group, probe, protocols, targets)).len() == 0);
    }
}

proof fn lemma_plan_names(cfg: Config, listeners: Seq<Listener>, name: Seq<char>)
    ensures
        op_names(plan(cfg, listeners).ops).contains(name) <==> exists|e: int|
            0 <= e < plan(cfg, listeners).entries.len() && is_health_key_of(
                #[trigger] plan(cfg, listeners).entries[e],
                name,
            ),
    decreases listeners.len(),
{
    let all = plan(cfg, listeners);
    if listeners.len() == 0 {
        assert(op_names(all.ops).len() == 0);
    } else {
        let before = plan(cfg, listeners.drop_last());
        lemma_plan_names(cfg, listeners.drop_last(), name);
        if before.error is None && planned(cfg, listeners.last()) is Ok {
            let (entry, probe) = planned(cfg, listeners.last())->Ok_0;
            let more = entry_ops(entry, probe);
            lemma_protocol_names(
                entry.target_group,
                probe,
                lowered(entry_protocols(entry)),
                entry.targets,
                name,
            );
            lemma_concat_names(before.ops, more);
            lemma_contains_concat(op_names(before.ops), op_names(more), name);
            assert(op_names(more).contains(name) <==> is_health_key_of(entry, name));
            if op_names(before.ops).contains(name) {
                let e = choose|e: int|
                    0 <= e < before.entries.len() && is_health_key_of(
                        #[trigger] before.entries[e],
                        name,
                    );
                assert(all.entries[e] == before.entries[e]);
            }
            if is_health_key_of(entry, name) {
                assert(all.entries[all.entries.len() - 1] == entry);
            }
            if exists|e: int|
                0 <= e < all.entries.len() && is_health_key_of(#[trigger] all.entries[e], name) {
                let e = choose|e: int|
                    0 <= e < all.entries.len() && is_health_key_of(
                        #[trigger] all.entries[e],
                        name,
                    );
                if e < before.entries.len() {
                    assert(is_health_key_of(before.entries[e], name));
                }
            }
        }
    }
}

/// The health records that a configuration leaves are exactly those of the targets of its
/// listeners, under each protocol.
pub proof fn law_records_are_those_of_listeners(
    cfg: Config,
    health: Seq<HealthView>,
    name: Seq<char>,
)
    ensures
        has_record(projected_health(cfg, health), name) <==> exists|e: int|
            0 <= e < plan(cfg, cfg.listeners@).entries.len() && is_health_key_of(
                #[trigger] plan(cfg, cfg.listeners@).entries[e],
                name,
            ),
{
    law_records_are_those_asked_for(health, plan(cfg, cfg.listeners@).ops, name);
    lemma_plan_names(cfg, cfg.listeners@, name);
}

/// Without listeners nothing is kept.
pub proof fn law_projection_of_nothing(cfg: Config, health: Seq<HealthView>)
    requires
        cfg.listeners@.len() == 0,
    ensures
        plan(cfg, cfg.listeners@).error is None,
        plan(cfg, cfg.listeners@).entries.len() == 0,
        projected_health(cfg, health).len() == 0,
{
    let names = op_names(Seq::<HealthOp>::empty());
    assert(names.len() == 0);
    lemma_nothing_kept(health, names);
}

proof fn lemma_nothing_kept(health: Seq<HealthView>, names: Seq<Seq<char>>)
    requires
        names.len() == 0,
    ensures
        kept(health, names).len() == 0,
    decreases health.len(),
{
    if health.len() > 0 {
        lemma_nothing_kept(health.drop_last(), names);
    }
}

/// A removed listener is gone, and no other is.
pub proof fn law_delete_removes_exactly(entries: Seq<EntryView>, name: Seq<char>, entry: EntryView)
    ensures
        not_named(entries, name).contains(entry) <==> entries.contains(entry) && shown_name(entry)
            != name,
    decreases entries.len(),
{
    let left = not_named(entries, name);
    if entries.len() > 0 {
        let front = entries.drop_last();
        law_delete_removes_exactly(front, name, entry);
        let before = not_named(front, name);
        if front.contains(entry) {
            let i = choose|i: int| 0 <= i < front.len() && front[i] == entry;
            assert(entries[i] == entry);
        }
        if entries.contains(entry) && entries.last() != entry {
            let i = choose|i: int| 0 <= i < entries.len() && entries[i] == entry;
            assert(front[i] == entry);
        }
        assert(entries[entries.len() - 1] == entries.last());
        if shown_name(entries.last()) != name {
            assert(left[left.len() - 1] == entries.last());
            if before.contains(entry) {
                let i = choose|i: int| 0 <= i < before.len() && before[i] == entry;
                assert(left[i] == entry);
            }
            if left.contains(entry) && entries.last() != entry {
                let i = choose|i: int| 0 <= i < left.len() && left[i] == entry;
                assert(before[i] == entry);
            }
        }
    }
}

/// A listener is shown if and only if it forwards to a port and by a protocol. What is shown
/// is its own port, selection and mode, the probe of its group, and the targets of the group
/// with the port that it forwards to.
pub proof fn law_listeners_are_shown_in_full(listener: Listener, group: TargetGroup, t: int, p: int)
    ensures
        shown_listener(listener, group) is Ok <==> listener.target_port != 0
            && listener.protocols@.len() > 0,
        shown_listener(listener, group) matches Ok(entry) ==> {
            &&& entry.target_group == group.name@
            &&& entry.spec.port == listener.port
            &&& entry.spec.sel == listener.select
            &&& entry.spec.mode == listener.mode
            &&& entry.spec.monitor == group.monitor
            &&& entry.spec.probetype == opt_text(group.probe_type)
            &&& entry.spec.probeport == group.probe_port
            &&& entry.spec.probereq == opt_text(group.probe_req)
            &&& entry.spec.proberesp == opt_text(group.probe_resp)
            &&& entry.spec.probe_timeout == group.period_secs
            &&& entry.spec.probe_retries == group.retries
            &&& listener.inactive_timeout matches Some(secs) ==> entry.spec.inactive_timeout == secs
            &&& listener.inactive_timeout is None ==> entry.spec.inactive_timeout == 240
            &&& entry.spec.name == Some(listener.name@)
            &&& entry.protocols.len() == listener.protocols@.len()
            &&& 0 <= p < listener.protocols@.len() ==> entry.protocols[p] == (match
                listener.protocols@[p] {
                Protocol::Tcp => "tcp"@,
                Protocol::Udp => "udp"@,
            })
            &&& entry.spec.protocol == entry.protocols[0]
            &&& entry.targets.len() == group.targets@.len()
            &&& 0 <= t < group.targets@.len() ==> {
                &&& entry.targets[t].address == ip_text(group.targets@[t].address)
                &&& entry.targets[t].target_port == listener.target_port
                &&& entry.targets[t].weight == group.targets@[t].weight
                &&& entry.targets[t].state == Some("active"@)
                &&& entry.targets[t].counter == Some("0:0"@)
            }
        },
{
}

/// A group has a probe if and only if it is monitored and names one other than `none`; the
/// probe is what the group says.
pub proof fn law_groups_have_their_probes(group: TargetGroup)
    ensures
        group_probe(group) is Some <==> group.monitor && (group.probe_type matches Some(kind)
            && trimmed(kind@).len() > 0 && lower(trimmed(kind@)) != "none"@),
        group_probe(group) matches Some(probe) ==> {
            &&& probe.probe_type == opt_text(group.probe_type)
            &&& probe.probe_port == group.probe_port
            &&& probe.probe_req == opt_text(group.probe_req)
            &&& probe.probe_resp == opt_text(group.probe_resp)
            &&& probe.skip_tls_verify == group.probe_skip_tls_verify
            &&& probe.probe_duration == group.period_secs
            &&& probe.inactive_retries == group.retries
        },
{
}

proof fn lemma_unblank(s: Seq<Seq<char>>, i: int)
    ensures
        forall|k: int|
            0 <= k < unblank(s).len() ==> (#[trigger] unblank(s)[k]).len() > 0 && trimmed(
                unblank(s)[k],
            ) == unblank(s)[k],
        0 <= i < s.len() && trimmed(s[i]).len() > 0 ==> unblank(s).contains(trimmed(s[i])),
    decreases s.len(),
{
    if s.len() > 0 {
        let front = s.drop_last();
        let before = unblank(front);
        let all = unblank(s);
        lemma_unblank(front, i);
        law_trimming_takes_the_ends(s.last());
        assert(s[s.len() - 1] == s.last());
        assert forall|k: int| 0 <= k < all.len() implies (#[trigger] all[k]).len() > 0 && trimmed(
            all[k],
        ) == all[k] by {
            if k < before.len() {
                assert(all[k] == before[k]);
            }
        }
        if 0 <= i < s.len() && trimmed(s[i]).len() > 0 {
            if i < front.len() {
                assert(front[i] == s[i]);
                let k = choose|k: int| 0 <= k < before.len() && before[k] == trimmed(s[i]);
                assert(all[k] == trimmed(s[i]));
            } else {
                assert(all[all.len() - 1] == trimmed(s[i]));
            }
        }
    }
}

proof fn lemma_deduped(s: Seq<Seq<char>>, i: int)
    ensures
        0 <= i < s.len() ==> deduped(s).contains(s[i]),
        s.len() > 0 ==> deduped(s).len() > 0 && deduped(s).last() == s.last() && deduped(s)[0]
            == s[0],
        forall|k: int| 0 <= k < deduped(s).len() ==> s.contains(#[trigger] deduped(s)[k]),
    decreases s.len(),
{
    if s.len() > 0 {
        let front = s.drop_last();
        let before = deduped(front);
        let all = deduped(s);
        lemma_deduped(front, i);
        assert(all[all.len() - 1] == s.last());
        assert(s[s.len() - 1] == s.last());
        if 0 <= i < front.len() {
            assert(front[i] == s[i]);
            let k = choose|k: int| 0 <= k < before.len() && before[k] == s[i];
            assert(all[k] == s[i]);
        }
        assert forall|k: int| 0 <= k < all.len() implies s.contains(#[trigger] all[k]) by {
            if k < before.len() {
                assert(all[k] == before[k]);
                assert(front.contains(before[k]));
                let m = choose|m: int| 0 <= m < front.len() && front[m] == before[k];
                assert(s[m] == all[k]);
            }
        }
    }
}

/// In its normal form a listener has protocols in small letters, the first of them as its
/// own, addresses without blanks, weights above zero, a state and a counter for every
/// target, and a timeout; what it had of these stays.
pub proof fn law_normal_form_fills_in(entry: EntryView, t: int, v: int, p: int)
    ensures
        ({
            let normal = normal_entry(entry);
            &&& normal.target_group == entry.target_group
            &&& normal.spec.port == entry.spec.port
            &&& normal.spec.name == entry.spec.name
            &&& normal.spec.sel == entry.spec.sel
            &&& normal.targets.len() == entry.targets.len()
            &&& 0 <= t < entry.targets.len() ==> {
                let was = entry.targets[t];
                let out = normal.targets[t];
                &&& out.address == was.address
                &&& out.target_port == was.target_port
                &&& was.weight > 0 ==> out.weight == was.weight
                &&& was.weight == 0 ==> out.weight == 1
                &&& was.state is Some ==> out.state == was.state
                &&& was.state is None ==> out.state == Some("active"@)
                &&& was.counter is Some ==> out.counter == was.counter
                &&& was.counter is None ==> out.counter == Some("0:0"@)
            }
            &&& entry.spec.inactive_timeout > 0 ==> normal.spec.inactive_timeout
                == entry.spec.inactive_timeout
            &&& entry.spec.inactive_timeout == 0 ==> normal.spec.inactive_timeout == 240
            &&& 0 <= v < entry.spec.vip_ips.len() && trimmed(entry.spec.vip_ips[v]).len() > 0
                ==> normal.spec.vip_ips.contains(trimmed(entry.spec.vip_ips[v]))
            &&& 0 <= v < normal.spec.vip_ips.len() ==> normal.spec.vip_ips[v].len() > 0
            &&& entry.protocols.len() == 0 ==> normal.protocols == seq![lower(entry.spec.protocol)]
            &&& 0 <= p < entry.protocols.len() ==> normal.protocols.contains(
                lower(entry.protocols[p]),
            )
            &&& normal.protocols.len() > 0 && normal.spec.protocol == normal.protocols[0]
        }),
{
    lemma_unblank(entry.spec.vip_ips, v);
    let small = lowered(entry.protocols);
    lemma_deduped(small, p);
    if entry.protocols.len() > 0 {
        assert(small[0] == lower(entry.protocols[0]));
    }
    if 0 <= p < entry.protocols.len() {
        assert(small[p] == lower(entry.protocols[p]));
    }
}

/// Without a fault every configured listener is shown, in its order, as what becomes of it
/// with the first group of its name and the addresses that it answers on.
pub proof fn law_every_listener_is_shown(cfg: Config, listeners: Seq<Listener>, l: int)
    requires
        plan(cfg, listeners).error is None,
        0 <= l < listeners.len(),
    ensures
        plan(cfg, listeners).entries.len() == listeners.len(),
        first_group(cfg.target_groups@, listeners[l].target_group@) is Some,
        effective_vips(cfg, listeners[l].vip_ips@) is Ok,
        ({
            let entry = plan(cfg, listeners).entries[l];
            let group = first_group(cfg.target_groups@, listeners[l].target_group@)->0;
            let vips = effective_vips(cfg, listeners[l].vip_ips@)->Ok_0;
            &&& entry.target_group == group.name@
            &&& entry.spec.port == listeners[l].port
            &&& entry.spec.name == Some(listeners[l].name@)
            &&& entry.targets.len() == group.targets@.len()
            &&& forall|v: int|
                0 <= v < vips.len() ==> entry.spec.vip_ips.contains(ipv4_text(#[trigger] vips[v]))
        }),
    decreases listeners.len(),
{
    let front = listeners.drop_last();
    lemma_plan_len(cfg, listeners);
    if l < front.len() {
        assert(front[l] == listeners[l]);
        law_every_listener_is_shown(cfg, front, l);
    } else {
        let listener = listeners[l];
        let group = first_group(cfg.target_groups@, listener.target_group@)->0;
        let vips = effective_vips(cfg, listener.vip_ips@)->Ok_0;
        let texts = vip_texts(vips);
        assert forall|v: int| 0 <= v < vips.len() implies unblank(texts).contains(
            ipv4_text(#[trigger] vips[v]),
        ) by {
            assert(texts[v] == ipv4_text(vips[v]));
            law_address_text_is_trimmed(IpAddr::V4(vips[v]));
            lemma_unblank(texts, v);
            lemma_ipv4_text_is_some(vips[v]);
        }
    }
}

proof fn lemma_ipv4_text_is_some(ip: u32)
    ensures
        ipv4_text(ip).len() > 0,
        ip_text(IpAddr::V4(ip)) == ipv4_text(ip),
{
}

proof fn lemma_plan_len(cfg: Config, listeners: Seq<Listener>)
    requires
        plan(cfg, listeners).error is None,
    ensures
        plan(cfg, listeners).entries.len() == listeners.len(),
    decreases listeners.len(),
{
    if listeners.len() > 0 {
        lemma_plan_len(cfg, listeners.drop_last());
    }
}

/// A name of its own is kept without the blanks around it; where there is none, the name is
/// made of the protocols and the port.
pub proof fn law_listeners_are_named(entry: EntryView)
    ensures
        entry.spec.name matches Some(name) ==> (trimmed(name).len() > 0 ==> shown_name(entry)
            == trimmed(name)),
        entry.spec.name is None && entry.protocols.len() == 0 ==> shown_name(entry)
            == entry.spec.protocol + "-"@ + decimal(entry.spec.port as nat),
        entry.spec.name is None && entry.protocols.len() == 1 ==> shown_name(entry)
            == entry.protocols[0] + "-"@ + decimal(entry.spec.port as nat),
        entry.spec.name is None && entry.protocols.len() == 2 ==> shown_name(entry)
            == entry.protocols[0] + "-"@ + entry.protocols[1] + "-"@ + decimal(
            entry.spec.port as nat,
        ),
{
    let own = entry_protocols(entry);
    reveal_with_fuel(joined, 3);
    if entry.protocols.len() == 2 {
        let front = own.drop_last();
        assert(front.len() == 1);
        assert(front[0] == own[0]);
        assert(own.last() == own[1]);
    }
}

/// A listener has no name of its own where it has none or one that is made of the protocols
/// and the port, with `auto-` ahead of it or without.
pub proof fn law_made_names_are_known(name: Seq<char>, port: u16)
    requires
        trimmed(name) == name,
    ensures
        is_generated(None, port),
        ({
            let tail = "-"@ + decimal(port as nat);
            is_generated(Some(name), port) <==> name == "tcp"@ + tail || name == "udp"@ + tail
                || name == "tcp-udp"@ + tail || name == "udp-tcp"@ + tail || name == "auto-tcp"@
                + tail || name == "auto-udp"@ + tail || name == "auto-tcp-udp"@ + tail || name
                == "auto-udp-tcp"@ + tail
        }),
{
    let names = generated_names(port);
    let tail = "-"@ + decimal(port as nat);
    assert(names[0] == "tcp"@ + tail);
    assert(names[1] == "udp"@ + tail);
    assert(names[2] == "tcp-udp"@ + tail);
    assert(names[3] == "udp-tcp"@ + tail);
    assert(names[4] == "auto-tcp"@ + tail);
    assert(names[5] == "auto-udp"@ + tail);
    assert(names[6] == "auto-tcp-udp"@ + tail);
    assert(names[7] == "auto-udp-tcp"@ + tail);
}

proof fn lemma_with_missing(list: Seq<Seq<char>>, more: Seq<Seq<char>>, text: Seq<char>)
    ensures
        with_missing(list, more).contains(text) <==> list.contains(text) || more.contains(text),
    decreases more.len(),
{
    if more.len() > 0 {
        let front = more.drop_last();
        let before = with_missing(list, front);
        let all = with_missing(list, more);
        lemma_with_missing(list, front, text);
        assert(more[more.len() - 1] == more.last());
        if front.contains(text) {
            let i = choose|i: int| 0 <= i < front.len() && front[i] == text;
            assert(more[i] == text);
        }
        if more.contains(text) && text != more.last() {
            let i = choose|i: int| 0 <= i < more.len() && more[i] == text;
            assert(front[i] == text);
        }
        if !before.contains(more.last()) {
            assert(all[all.len() - 1] == more.last());
            if before.contains(text) {
                let i = choose|i: int| 0 <= i < before.len() && before[i] == text;
                assert(all[i] == text);
            }
            if all.contains(text) && text != more.last() {
                let i = choose|i: int| 0 <= i < all.len() && all[i] == text;
                assert(before[i] == text);
            }
        }
    }
}

proof fn lemma_with_protocols(list: Seq<Seq<char>>, more: Seq<Seq<char>>, i: int)
    ensures
        with_protocols(list, more).len() >= list.len(),
        with_protocols(list, more).take(list.len() as int) == list,
        0 <= i < more.len() ==> has_any_case(with_protocols(list, more), more[i]),
    decreases more.len(),
{
    if more.len() > 0 {
        let front = more.drop_last();
        let before = with_protocols(list, front);
        let all = with_protocols(list, more);
        lemma_with_protocols(list, front, i);
        assert(all.take(list.len() as int) =~= before.take(list.len() as int));
        if 0 <= i < more.len() {
            let small = lowered(all);
            if i < front.len() {
                assert(front[i] == more[i]);
                let was = lowered(before);
                let k = choose|k: int| 0 <= k < was.len() && was[k] == lower(more[i]);
                assert(small[k] == lower(more[i]));
            } else if !has_any_case(before, more.last()) {
                let last = lower(more.last());
                assert(lower(last) =~= last);
                assert(small[all.len() - 1] == last);
            }
        }
    } else {
        assert(list.take(list.len() as int) =~= list);
    }
}

/// Two records of one listener are shown as one with the addresses of both, and with every
/// protocol of both once, whatever its letters; everything else is that of the first.
pub proof fn law_records_of_a_listener_are_merged(
    a: EntryView,
    b: EntryView,
    address: Seq<char>,
    i: int,
)
    ensures
        ({
            let merged = merged_entry(a, b);
            &&& merged.spec.vip_ips.contains(address) <==> a.spec.vip_ips.contains(address)
                || b.spec.vip_ips.contains(address)
            &&& 0 <= i < entry_protocols(a).len() ==> merged.protocols[i] == entry_protocols(a)[i]
            &&& 0 <= i < entry_protocols(b).len() ==> has_any_case(
                merged.protocols,
                entry_protocols(b)[i],
            )
            &&& merged.target_group == a.target_group
            &&& merged.targets == a.targets
            &&& merged.spec.port == a.spec.port
            &&& merged.spec.sel == a.spec.sel
            &&& !is_generated(a.spec.name, a.spec.port) ==> merged.spec.name == a.spec.name
        }),
{
    lemma_with_missing(a.spec.vip_ips, b.spec.vip_ips, address);
    lemma_with_protocols(entry_protocols(a), entry_protocols(b), i);
    let own = entry_protocols(a);
    let merged = merged_entry(a, b).protocols;
    if 0 <= i < own.len() {
        assert(merged.take(own.len() as int)[i] == merged[i]);
    }
}

/// Records are of one listener if and only if they have an address and the port in common
/// and either the same name or both none of their own.
pub proof fn law_one_listener_is_known(a: EntryView, b: EntryView, i: int)
    ensures
        a.spec.port != b.spec.port ==> !same_listener(a, b),
        (forall|k: int|
            0 <= k < a.spec.vip_ips.len() ==> !b.spec.vip_ips.contains(
                #[trigger] a.spec.vip_ips[k],
            )) ==> !same_listener(a, b),
        0 <= i < a.spec.vip_ips.len() && b.spec.vip_ips.contains(a.spec.vip_ips[i]) && a.spec.port
            == b.spec.port && a.spec.name == b.spec.name ==> same_listener(a, b),
        same_listener(a, b) && !is_generated(a.spec.name, a.spec.port) ==> (
        a.spec.name matches Some(name) && trimmed(name) == plain_name(b)),
{
}

proof fn lemma_listener_at(entries: Seq<EntryView>, entry: EntryView)
    ensures
        0 <= listener_at(entries, entry) <= entries.len(),
        listener_at(entries, entry) < entries.len() ==> same_listener(
            entries[listener_at(entries, entry)],
            entry,
        ),
    decreases entries.len(),
{
    if entries.len() > 0 && !same_listener(entries[0], entry) {
        lemma_listener_at(entries.skip(1), entry);
    }
}

/// No record is lost where listeners are gathered: the one that stands at the place given
/// back has the port of the record and every address of it.
pub proof fn law_gathering_loses_nothing(entries: Seq<EntryView>, i: int) -> (k: int)
    requires
        0 <= i < entries.len(),
    ensures
        0 <= k < gathered(entries).len() <= entries.len(),
        gathered(entries)[k].spec.port == entries[i].spec.port,
        forall|address: Seq<char>| #[trigger]
            entries[i].spec.vip_ips.contains(address) ==> gathered(
                entries,
            )[k].spec.vip_ips.contains(address),
    decreases entries.len(),
{
    let front = entries.drop_last();
    let before = gathered(front);
    let entry = entries.last();
    let at = listener_at(before, entry);
    let all = gathered(entries);
    lemma_listener_at(before, entry);
    lemma_gathered_len(front);
    if i < front.len() {
        assert(front[i] == entries[i]);
        let k = law_gathering_loses_nothing(front, i);
        if at < before.len() && k == at {
            assert forall|address: Seq<char>| #[trigger]
                entries[i].spec.vip_ips.contains(address) implies all[k].spec.vip_ips.contains(
                address,
            ) by {
                lemma_with_missing(before[at].spec.vip_ips, entry.spec.vip_ips, address);
            }
        }
        k
    } else if at < before.len() {
        assert forall|address: Seq<char>| #[trigger]
            entries[i].spec.vip_ips.contains(address) implies all[at].spec.vip_ips.contains(
            address,
        ) by {
            lemma_with_missing(before[at].spec.vip_ips, entry.spec.vip_ips, address);
        }
        at
    } else {
        before.len() as int
    }
}

proof fn lemma_gathered_len(entries: Seq<EntryView>)
    ensures
        gathered(entries).len() <= entries.len(),
    decreases entries.len(),
{
    if entries.len() > 0 {
        lemma_gathered_len(entries.drop_last());
        lemma_listener_at(gathered(entries.drop_last()), entries.last());
    }
}

/// A listener is taken apart into one record for each address and each protocol, with
/// everything else as it is. The record of an address and a protocol stands at the place
/// given back.
pub proof fn law_listeners_are_taken_apart(entry: EntryView, ips: Seq<Seq<char>>, v: int, p: int) -> (k:
    int)
    requires
        0 <= v < ips.len(),
        0 <= p < entry_protocols(entry).len(),
    ensures
        ({
            let list = at_ips(entry, ips);
            &&& 0 <= k < list.len()
            &&& list[k].spec.vip_ips == seq![ips[v]]
            &&& list[k].spec.protocol == entry_protocols(entry)[p]
            &&& list[k].protocols == seq![entry_protocols(entry)[p]]
            &&& list[k].spec.port == entry.spec.port
            &&& list[k].spec.name == entry.spec.name
            &&& list[k].target_group == entry.target_group
            &&& list[k].targets == entry.targets
        }),
    decreases ips.len(),
{
    let front = at_ips(entry, ips.drop_last());
    if v < ips.len() - 1 {
        law_listeners_are_taken_apart(entry, ips.drop_last(), v, p)
    } else {
        front.len() + p
    }
}

/// A listener answers at the addresses that it names, without blank ones; where it names none
/// at all it answers at those of the gateway.
pub proof fn law_listeners_have_addresses(
    cfg: Config,
    entry: EntryView,
    vips: Seq<u32>,
    i: int,
)
    ensures
        entry.spec.vip_ips.len() > 0 ==> entry_ips(cfg, entry) == unblank(entry.spec.vip_ips),
        entry.spec.vip_ips.len() == 0 && effective_vips(cfg, Seq::empty()) == Ok::<
            Seq<u32>,
            ModelError,
        >(vips) ==> entry_ips(cfg, entry).len() == vips.len() && (0 <= i < vips.len() ==> entry_ips(
            cfg,
            entry,
        )[i] == ipv4_text(vips[i])),
        entry.spec.vip_ips.len() == 0 && effective_vips(cfg, Seq::empty()) is Err ==> entry_ips(
            cfg,
            entry,
        ) == seq![ip_text(cfg.network.gateway_ip)],
{
}

} // verus!
