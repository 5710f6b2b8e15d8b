//! Listeners and target health as the API shows them.
use crate::text::{
    clone_opt_text, clone_texts, lower, lower_text, opt_text, same_opt_text, same_text, same_texts,
    strings, trim_text, trimmed,
};
use vstd::prelude::*;

verus! {

#[derive(Clone, Debug)]
pub struct NativeListenerStateList {
    pub listeners: Vec<NativeListenerStateEntry>,
}

/// A listener. `protocols` are its logical protocols; where there are none, the
/// protocol of `spec` is the only one.
#[derive(Clone, Debug)]
pub struct NativeListenerStateEntry {
    pub target_group: String,
    pub spec: NativeListenerSpec,
    pub targets: Vec<NativeListenerTarget>,
    pub protocols: Vec<String>,
}

#[derive(Clone, Debug)]
pub struct NativeListenerSpec {
    pub vip_ips: Vec<String>,
    pub port: u16,
    pub protocol: String,
    pub sel: u32,
    pub mode: u32,
    pub monitor: bool,
    pub probetype: Option<String>,
    pub probeport: Option<u16>,
    pub probereq: Option<String>,
    pub proberesp: Option<String>,
    pub probe_timeout: Option<u32>,
    pub probe_retries: Option<u32>,
    pub inactive_timeout: u32,
    pub name: Option<String>,
}

#[derive(Clone, Debug)]
pub struct NativeListenerTarget {
    pub address: String,
    pub target_port: u16,
    pub weight: u32,
    pub state: Option<String>,
    pub counter: Option<String>,
}

#[derive(Clone, Debug)]
pub struct TargetHealthList {
    pub entries: Vec<TargetHealthEntry>,
}

#[derive(Clone, Debug)]
pub struct TargetHealthEntry {
    pub target_group: String,
    pub host_name: String,
    pub name: String,
    pub description: Option<String>,
    pub inactive_retries: Option<u32>,
    pub probe_type: Option<String>,
    pub probe_req: Option<String>,
    pub probe_resp: Option<String>,
    pub probe_duration: Option<u32>,
    pub probe_port: Option<u16>,
    pub min_delay: Option<String>,
    pub avg_delay: Option<String>,
    pub max_delay: Option<String>,
    pub current_state: Option<String>,
    pub sync: Option<u32>,
}

#[derive(Clone, Debug)]
pub struct HealthProbeConfig {
    pub probe_type: Option<String>,
    pub probe_port: Option<u16>,
    pub probe_req: Option<String>,
    pub probe_resp: Option<String>,
    pub skip_tls_verify: bool,
    pub probe_duration: Option<u32>,
    pub inactive_retries: Option<u32>,
}

/// What came of deleting a target's health record.
#[derive(Clone, Debug)]
pub enum DeleteTargetHealthResult {
    Deleted,
    NotFound,
    Referenced { listener: String },
}

/// Whether a probe type names a probe: not empty, and not `none` in any case.
pub open spec fn names_probe(probe_type: Option<String>) -> bool {
    match probe_type {
        None => false,
        Some(text) => trimmed(text@).len() > 0 && lower(trimmed(text@)) != "none"@,
    }
}

/// Whether a probe type names a probe.
pub fn is_probe(probe_type: &Option<String>) -> (b: bool)
    ensures
        b == names_probe(*probe_type),
{
    match probe_type {
        None => false,
        Some(text) => {
            let kind = trim_text(text.as_str());
            if kind.as_str().is_empty() {
                return false;
            }
            let small = lower_text(kind.as_str());
            !same_text(small.as_str(), "none")
        },
    }
}

impl HealthProbeConfig {
    /// Whether a probe is configured.
    pub fn enabled(&self) -> (b: bool)
        ensures
            b == names_probe(self.probe_type),
    {
        is_probe(&self.probe_type)
    }
}

// ---------------------------------------------------------------------------
// Plain values
// ---------------------------------------------------------------------------

pub struct TargetView {
    pub address: Seq<char>,
    pub target_port: u16,
    pub weight: u32,
    pub state: Option<Seq<char>>,
    pub counter: Option<Seq<char>>,
}

impl View for NativeListenerTarget {
    type V = TargetView;

    open spec fn view(&self) -> TargetView {
        TargetView {
            address: self.address@,
            target_port: self.target_port,
            weight: self.weight,
            state: opt_text(self.state),
            counter: opt_text(self.counter),
        }
    }
}

pub struct SpecView {
    pub vip_ips: Seq<Seq<char>>,
    pub port: u16,
    pub protocol: Seq<char>,
    pub sel: u32,
    pub mode: u32,
    pub monitor: bool,
    pub probetype: Option<Seq<char>>,
    pub probeport: Option<u16>,
    pub probereq: Option<Seq<char>>,
    pub proberesp: Option<Seq<char>>,
    pub probe_timeout: Option<u32>,
    pub probe_retries: Option<u32>,
    pub inactive_timeout: u32,
    pub name: Option<Seq<char>>,
}

impl View for NativeListenerSpec {
    type V = SpecView;

    open spec fn view(&self) -> SpecView {
        SpecView {
            vip_ips: strings(self.vip_ips@),
            port: self.port,
            protocol: self.protocol@,
            sel: self.sel,
            mode: self.mode,
            monitor: self.monitor,
            probetype: opt_text(self.probetype),
            probeport: self.probeport,
            probereq: opt_text(self.probereq),
            proberesp: opt_text(self.proberesp),
            probe_timeout: self.probe_timeout,
            probe_retries: self.probe_retries,
            inactive_timeout: self.inactive_timeout,
            name: opt_text(self.name),
        }
    }
}

pub struct EntryView {
    pub target_group: Seq<char>,
    pub spec: SpecView,
    pub targets: Seq<TargetView>,
    pub protocols: Seq<Seq<char>>,
}

pub struct ProbeView {
    pub probe_type: Option<Seq<char>>,
    pub probe_port: Option<u16>,
    pub probe_req: Option<Seq<char>>,
    pub probe_resp: Option<Seq<char>>,
    pub skip_tls_verify: bool,
    pub probe_duration: Option<u32>,
    pub inactive_retries: Option<u32>,
}

impl View for HealthProbeConfig {
    type V = ProbeView;

    open spec fn view(&self) -> ProbeView {
        ProbeView {
            probe_type: opt_text(self.probe_type),
            probe_port: self.probe_port,
            probe_req: opt_text(self.probe_req),
            probe_resp: opt_text(self.probe_resp),
            skip_tls_verify: self.skip_tls_verify,
            probe_duration: self.probe_duration,
            inactive_retries: self.inactive_retries,
        }
    }
}

/// Targets as plain values.
pub open spec fn target_views(targets: Seq<NativeListenerTarget>) -> Seq<TargetView> {
    targets.map_values(|target: NativeListenerTarget| target@)
}

impl View for NativeListenerStateEntry {
    type V = EntryView;

    open spec fn view(&self) -> EntryView {
        EntryView {
            target_group: self.target_group@,
            spec: self.spec@,
            targets: target_views(self.targets@),
            protocols: strings(self.protocols@),
        }
    }
}

/// Listeners as plain values.
pub open spec fn entry_views(entries: Seq<NativeListenerStateEntry>) -> Seq<EntryView> {
    entries.map_values(|entry: NativeListenerStateEntry| entry@)
}

pub struct HealthView {
    pub target_group: Seq<char>,
    pub host_name: Seq<char>,
    pub name: Seq<char>,
    pub description: Option<Seq<char>>,
    pub inactive_retries: Option<u32>,
    pub probe_type: Option<Seq<char>>,
    pub probe_req: Option<Seq<char>>,
    pub probe_resp: Option<Seq<char>>,
    pub probe_duration: Option<u32>,
    pub probe_port: Option<u16>,
    pub min_delay: Option<Seq<char>>,
    pub avg_delay: Option<Seq<char>>,
    pub max_delay: Option<Seq<char>>,
    pub current_state: Option<Seq<char>>,
    pub sync: Option<u32>,
}

impl View for TargetHealthEntry {
    type V = HealthView;

    open spec fn view(&self) -> HealthView {
        HealthView {
            target_group: self.target_group@,
            host_name: self.host_name@,
            name: self.name@,
            description: opt_text(self.description),
            inactive_retries: self.inactive_retries,
            probe_type: opt_text(self.probe_type),
            probe_req: opt_text(self.probe_req),
            probe_resp: opt_text(self.probe_resp),
            probe_duration: self.probe_duration,
            probe_port: self.probe_port,
            min_delay: opt_text(self.min_delay),
            avg_delay: opt_text(self.avg_delay),
            max_delay: opt_text(self.max_delay),
            current_state: opt_text(self.current_state),
            sync: self.sync,
        }
    }
}

/// Health records as plain values.
pub open spec fn health_views(entries: Seq<TargetHealthEntry>) -> Seq<HealthView> {
    entries.map_values(|entry: TargetHealthEntry| entry@)
}

// ---------------------------------------------------------------------------
// Copies and comparisons
// ---------------------------------------------------------------------------

/// The settings of a listener that nothing is set of.
pub open spec fn empty_spec() -> SpecView {
    SpecView {
        vip_ips: Seq::empty(),
        port: 0,
        protocol: Seq::empty(),
        sel: 0,
        mode: 0,
        monitor: false,
        probetype: None,
        probeport: None,
        probereq: None,
        proberesp: None,
        probe_timeout: None,
        probe_retries: None,
        inactive_timeout: 0,
        name: None,
    }
}

impl Default for NativeListenerSpec {
    fn default() -> (spec: Self)
        ensures
            spec@ == empty_spec(),
    {
        let spec = NativeListenerSpec {
            vip_ips: Vec::new(),
            port: 0,
            protocol: String::new(),
            sel: 0,
            mode: 0,
            monitor: false,
            probetype: None,
            probeport: None,
            probereq: None,
            proberesp: None,
            probe_timeout: None,
            probe_retries: None,
            inactive_timeout: 0,
            name: None,
        };
        assert(strings(spec.vip_ips@) =~= Seq::<Seq<char>>::empty());
        spec
    }
}

impl Default for NativeListenerStateEntry {
    fn default() -> (entry: Self)
        ensures
            entry.target_group@ == Seq::<char>::empty(),
            entry.spec@ == empty_spec(),
            entry.targets@ == Seq::<NativeListenerTarget>::empty(),
            entry.protocols@ == Seq::<String>::empty(),
    {
        NativeListenerStateEntry {
            target_group: String::new(),
            spec: NativeListenerSpec::default(),
            targets: Vec::new(),
            protocols: Vec::new(),
        }
    }
}

/// A copy of a target.
pub fn clone_target(target: &NativeListenerTarget) -> (copy: NativeListenerTarget)
    ensures
        copy == *target,
{
    NativeListenerTarget {
        address: target.address.clone(),
        target_port: target.target_port,
        weight: target.weight,
        state: clone_opt_text(&target.state),
        counter: clone_opt_text(&target.counter),
    }
}

/// A copy of a list of targets.
pub fn clone_targets(targets: &[NativeListenerTarget]) -> (copy: Vec<NativeListenerTarget>)
    ensures
        copy@ == targets@,
{
    let mut copy: Vec<NativeListenerTarget> = Vec::new();
    let mut i: usize = 0;
    while i < targets.len()
        invariant
            i <= targets.len(),
            copy@ == targets@.take(i as int),
        decreases targets.len() - i,
    {
        copy.push(clone_target(&targets[i]));
        i += 1;
        assert(copy@ =~= targets@.take(i as int));
    }
    assert(targets@.take(targets@.len() as int) =~= targets@);
    copy
}

/// A copy of the settings of a listener.
pub fn clone_spec(spec: &NativeListenerSpec) -> (copy: NativeListenerSpec)
    ensures
        copy@ == spec@,
{
    NativeListenerSpec {
        vip_ips: clone_texts(spec.vip_ips.as_slice()),
        port: spec.port,
        protocol: spec.protocol.clone(),
        sel: spec.sel,
        mode: spec.mode,
        monitor: spec.monitor,
        probetype: clone_opt_text(&spec.probetype),
        probeport: spec.probeport,
        probereq: clone_opt_text(&spec.probereq),
        proberesp: clone_opt_text(&spec.proberesp),
        probe_timeout: spec.probe_timeout,
        probe_retries: spec.probe_retries,
        inactive_timeout: spec.inactive_timeout,
        name: clone_opt_text(&spec.name),
    }
}

/// A copy of a listener.
pub fn clone_entry(entry: &NativeListenerStateEntry) -> (copy: NativeListenerStateEntry)
    ensures
        copy@ == entry@,
{
    NativeListenerStateEntry {
        target_group: entry.target_group.clone(),
        spec: clone_spec(&entry.spec),
        targets: clone_targets(entry.targets.as_slice()),
        protocols: clone_texts(entry.protocols.as_slice()),
    }
}

/// A copy of a health record.
pub fn clone_health(entry: &TargetHealthEntry) -> (copy: TargetHealthEntry)
    ensures
        copy == *entry,
{
    TargetHealthEntry {
        target_group: entry.target_group.clone(),
        host_name: entry.host_name.clone(),
        name: entry.name.clone(),
        description: clone_opt_text(&entry.description),
        inactive_retries: entry.inactive_retries,
        probe_type: clone_opt_text(&entry.probe_type),
        probe_req: clone_opt_text(&entry.probe_req),
        probe_resp: clone_opt_text(&entry.probe_resp),
        probe_duration: entry.probe_duration,
        probe_port: entry.probe_port,
        min_delay: clone_opt_text(&entry.min_delay),
        avg_delay: clone_opt_text(&entry.avg_delay),
        max_delay: clone_opt_text(&entry.max_delay),
        current_state: clone_opt_text(&entry.current_state),
        sync: entry.sync,
    }
}

/// A copy of a list of health records.
pub fn clone_healths(entries: &[TargetHealthEntry]) -> (copy: Vec<TargetHealthEntry>)
    ensures
        copy@ == entries@,
{
    let mut copy: Vec<TargetHealthEntry> = Vec::new();
    let mut i: usize = 0;
    while i < entries.len()
        invariant
            i <= entries.len(),
            copy@ == entries@.take(i as int),
        decreases entries.len() - i,
    {
        copy.push(clone_health(&entries[i]));
        i += 1;
        assert(copy@ =~= entries@.take(i as int));
    }
    assert(entries@.take(entries@.len() as int) =~= entries@);
    copy
}

fn same_target(a: &NativeListenerTarget, b: &NativeListenerTarget) -> (same: bool)
    ensures
        same == (a@ == b@),
{
    same_text(a.address.as_str(), b.address.as_str()) && a.target_port == b.target_port && a.weight
        == b.weight && same_opt_text(&a.state, &b.state) && same_opt_text(&a.counter, &b.counter)
}

fn same_targets(a: &[NativeListenerTarget], b: &[NativeListenerTarget]) -> (same: bool)
    ensures
        same == (target_views(a@) == target_views(b@)),
{
    let ghost va = target_views(a@);
    let ghost vb = target_views(b@);
    assert(va.len() == a@.len() && vb.len() == b@.len());
    if a.len() != b.len() {
        return false;
    }
    let mut i: usize = 0;
    while i < a.len()
        invariant
            i <= a.len(),
            a.len() == b.len(),
            va == target_views(a@),
            vb == target_views(b@),
            forall|j: int| 0 <= j < i ==> va[j] == vb[j],
        decreases a.len() - i,
    {
        assert(va[i as int] == a@[i as int]@ && vb[i as int] == b@[i as int]@);
        if !same_target(&a[i], &b[i]) {
            return false;
        }
        i += 1;
    }
    assert(va =~= vb);
    true
}

fn same_spec(a: &NativeListenerSpec, b: &NativeListenerSpec) -> (same: bool)
    ensures
        same == (a@ == b@),
{
    same_texts(a.vip_ips.as_slice(), b.vip_ips.as_slice()) && a.port == b.port && same_text(
        a.protocol.as_str(),
        b.protocol.as_str(),
    ) && a.sel == b.sel && a.mode == b.mode && a.monitor == b.monitor && same_opt_text(
        &a.probetype,
        &b.probetype,
    ) && a.probeport == b.probeport && same_opt_text(&a.probereq, &b.probereq) && same_opt_text(
        &a.proberesp,
        &b.proberesp,
    ) && a.probe_timeout == b.probe_timeout && a.probe_retries == b.probe_retries
        && a.inactive_timeout == b.inactive_timeout && same_opt_text(&a.name, &b.name)
}

fn same_entry(a: &NativeListenerStateEntry, b: &NativeListenerStateEntry) -> (same: bool)
    ensures
        same == (a@ == b@),
{
    same_text(a.target_group.as_str(), b.target_group.as_str()) && same_spec(&a.spec, &b.spec)
        && same_targets(a.targets.as_slice(), b.targets.as_slice()) && same_texts(
        a.protocols.as_slice(),
        b.protocols.as_slice(),
    )
}

/// Whether two lists hold the same listeners.
pub fn same_entries(a: &[NativeListenerStateEntry], b: &[NativeListenerStateEntry]) -> (same: bool)
    ensures
        same == (entry_views(a@) == entry_views(b@)),
{
    let ghost va = entry_views(a@);
    let ghost vb = entry_views(b@);
    assert(va.len() == a@.len() && vb.len() == b@.len());
    if a.len() != b.len() {
        return false;
    }
    let mut i: usize = 0;
    while i < a.len()
        invariant
            i <= a.len(),
            a.len() == b.len(),
            va == entry_views(a@),
            vb == entry_views(b@),
            forall|j: int| 0 <= j < i ==> va[j] == vb[j],
        decreases a.len() - i,
    {
        assert(va[i as int] == a@[i as int]@ && vb[i as int] == b@[i as int]@);
        if !same_entry(&a[i], &b[i]) {
            return false;
        }
        i += 1;
    }
    assert(va =~= vb);
    true
}

fn same_health(a: &TargetHealthEntry, b: &TargetHealthEntry) -> (same: bool)
    ensures
        same == (a@ == b@),
{
    same_text(a.target_group.as_str(), b.target_group.as_str()) && same_text(
        a.host_name.as_str(),
        b.host_name.as_str(),
    ) && same_text(a.name.as_str(), b.name.as_str()) && same_opt_text(
        &a.description,
        &b.description,
    ) && a.inactive_retries == b.inactive_retries && same_opt_text(&a.probe_type, &b.probe_type)
        && same_opt_text(&a.probe_req, &b.probe_req) && same_opt_text(&a.probe_resp, &b.probe_resp)
        && a.probe_duration == b.probe_duration && a.probe_port == b.probe_port && same_opt_text(
        &a.min_delay,
        &b.min_delay,
    ) && same_opt_text(&a.avg_delay, &b.avg_delay) && same_opt_text(&a.max_delay, &b.max_delay)
        && same_opt_text(&a.current_state, &b.current_state) && a.sync == b.sync
}

/// Whether two lists hold the same health records.
pub fn same_healths(a: &[TargetHealthEntry], b: &[TargetHealthEntry]) -> (same: bool)
    ensures
        same == (health_views(a@) == health_views(b@)),
{
    let ghost va = health_views(a@);
    let ghost vb = health_views(b@);
    assert(va.len() == a@.len() && vb.len() == b@.len());
    if a.len() != b.len() {
        return false;
    }
    let mut i: usize = 0;
    while i < a.len()
        invariant
            i <= a.len(),
            a.len() == b.len(),
            va == health_views(a@),
            vb == health_views(b@),
            forall|j: int| 0 <= j < i ==> va[j] == vb[j],
        decreases a.len() - i,
    {
        assert(va[i as int] == a@[i as int]@ && vb[i as int] == b@[i as int]@);
        if !same_health(&a[i], &b[i]) {
            return false;
        }
        i += 1;
    }
    assert(va =~= vb);
    true
}

// ---------------------------------------------------------------------------
// Laws
// ---------------------------------------------------------------------------

/// No probe type, a blank one and `none` in any case name no probe; every other does.
pub proof fn law_none_is_no_probe(text: String)
    ensures
        !names_probe(None),
        trimmed(text@).len() == 0 ==> !names_probe(Some(text)),
        lower(trimmed(text@)) == "none"@ ==> !names_probe(Some(text)),
        trimmed(text@).len() > 0 && lower(trimmed(text@)) != "none"@ ==> names_probe(Some(text)),
{
}

} // verus!
