//! The probes of targets: which to run, when, and what their outcomes say of the
//! targets.
use super::api_model::{is_probe, names_probe};
use super::health::{health_identity, target_health_identity, HealthUpdate};
use crate::config::{BackendTarget, Config, Listener, Protocol, TargetGroup};
use crate::net::{ip_text, IpAddr};
use crate::order::{is_set_of, law_set_holds_each_once, set_of, set_seq};
use crate::table::Table;
use crate::text::{
    clone_opt_text, clone_texts, decimal, law_trimming_takes_the_ends, lower, lower_text, opt_text,
    same_opt_text, same_text, same_texts, strings, trim_text, trimmed,
};
use vstd::prelude::*;

verus! {

/// The period of a probe whose group sets none, in seconds.
pub const DEFAULT_PERIOD_SECS: u64 = 5;

/// How many failures in a row make a target unhealthy where its group does not
/// say.
pub const DEFAULT_RETRIES: u32 = 2;

#[derive(Clone, Copy, Debug, PartialEq, Eq, Structural)]
pub enum ProbeOutcome {
    Pass,
    Fail,
}

/// A probe of one target. It stands for every protocol and port that a listener
/// forwards to the target: `names` are the health records of these. The probe
/// itself goes to `port`.
#[derive(Clone, Debug)]
pub struct ProbeTarget {
    pub names: Vec<String>,
    pub address: IpAddr,
    pub port: u16,
    pub probe_type: String,
    pub probe_req: Option<String>,
    pub probe_resp: Option<String>,
    pub expected_status: Option<u16>,
    pub skip_tls_verify: bool,
    pub timeout_ms: u64,
    pub period_ms: u64,
    pub retries: u32,
}

/// A probe as plain values.
pub struct ProbeTargetView {
    pub names: Seq<Seq<char>>,
    pub address: IpAddr,
    pub port: u16,
    pub probe_type: Seq<char>,
    pub probe_req: Option<Seq<char>>,
    pub probe_resp: Option<Seq<char>>,
    pub expected_status: Option<u16>,
    pub skip_tls_verify: bool,
    pub timeout_ms: u64,
    pub period_ms: u64,
    pub retries: u32,
}

impl View for ProbeTarget {
    type V = ProbeTargetView;

    open spec fn view(&self) -> ProbeTargetView {
        ProbeTargetView {
            names: strings(self.names@),
            address: self.address,
            port: self.port,
            probe_type: self.probe_type@,
            probe_req: opt_text(self.probe_req),
            probe_resp: opt_text(self.probe_resp),
            expected_status: self.expected_status,
            skip_tls_verify: self.skip_tls_verify,
            timeout_ms: self.timeout_ms,
            period_ms: self.period_ms,
            retries: self.retries,
        }
    }
}

/// Probes as plain values.
pub open spec fn probe_target_views(targets: Seq<ProbeTarget>) -> Seq<ProbeTargetView> {
    targets.map_values(|target: ProbeTarget| target@)
}

/// A copy of a probe.
pub fn clone_probe_target(target: &ProbeTarget) -> (copy: ProbeTarget)
    ensures
        copy@ == target@,
{
    ProbeTarget {
        names: clone_texts(target.names.as_slice()),
        address: target.address,
        port: target.port,
        probe_type: target.probe_type.clone(),
        probe_req: clone_opt_text(&target.probe_req),
        probe_resp: clone_opt_text(&target.probe_resp),
        expected_status: target.expected_status,
        skip_tls_verify: target.skip_tls_verify,
        timeout_ms: target.timeout_ms,
        period_ms: target.period_ms,
        retries: target.retries,
    }
}

/// Whether two probes are the same.
pub fn same_probe_target(a: &ProbeTarget, b: &ProbeTarget) -> (same: bool)
    ensures
        same == (a@ == b@),
{
    same_texts(a.names.as_slice(), b.names.as_slice()) && a.address == b.address && a.port == b.port
        && same_text(a.probe_type.as_str(), b.probe_type.as_str()) && same_opt_text(
        &a.probe_req,
        &b.probe_req,
    ) && same_opt_text(&a.probe_resp, &b.probe_resp) && a.expected_status == b.expected_status
        && a.skip_tls_verify == b.skip_tls_verify && a.timeout_ms == b.timeout_ms && a.period_ms
        == b.period_ms && a.retries == b.retries
}

// ---------------------------------------------------------------------------
// Which probes there are
// ---------------------------------------------------------------------------

/// Whether an address can be probed: it is neither unspecified nor of this node.
pub open spec fn probeable(ip: IpAddr) -> bool {
    match ip {
        IpAddr::V4(v4) => v4 != 0 && v4 / 0x100_0000 != 127,
        IpAddr::V6(v6) => v6 > 1,
    }
}

/// Whether an address can be probed.
pub fn is_probeable(ip: IpAddr) -> (b: bool)
    ensures
        b == probeable(ip),
{
    match ip {
        IpAddr::V4(v4) => v4 != 0 && v4 / 0x100_0000 != 127,
        IpAddr::V6(v6) => v6 > 1,
    }
}

/// The kind of probe that a group asks for.
pub open spec fn probe_kind(group: TargetGroup) -> Seq<char> {
    match group.probe_type {
        Some(kind) => lower(trimmed(kind@)),
        None => lower(trimmed(""@)),
    }
}

/// Whether a kind of probe can be run.
pub open spec fn executable(kind: Seq<char>) -> bool {
    kind == "ping"@ || kind == "tcp"@ || kind == "udp"@ || kind == "http"@ || kind == "https"@
}

/// The first listener that forwards to a group.
pub open spec fn first_listener(listeners: Seq<Listener>, group: Seq<char>) -> Option<Listener>
    decreases listeners.len(),
{
    if listeners.len() == 0 {
        None
    } else if listeners[0].target_group@ == group {
        Some(listeners[0])
    } else {
        first_listener(listeners.skip(1), group)
    }
}

/// Whether a group is to be probed.
pub open spec fn monitored(cfg: Config, group: TargetGroup) -> bool {
    &&& first_listener(cfg.listeners@, group.name@) is Some
    &&& group.monitor
    &&& names_probe(group.probe_type)
}

/// The port that a group is probed on; a ping needs none.
pub open spec fn probe_port(cfg: Config, group: TargetGroup) -> u16 {
    if probe_kind(group) == "ping"@ {
        0
    } else {
        match (group.probe_port, first_listener(cfg.listeners@, group.name@)) {
            (Some(port), _) => port,
            (None, Some(listener)) => listener.target_port,
            (None, None) => 0,
        }
    }
}

/// The period of a group's probes in seconds.
pub open spec fn period_secs(group: TargetGroup) -> u64 {
    match group.period_secs {
        None => DEFAULT_PERIOD_SECS,
        Some(secs) => if secs == 0 {
            1
        } else {
            secs as u64
        },
    }
}

/// How long a probe waits: its period, three seconds at most.
pub open spec fn timeout_ms(group: TargetGroup) -> u64 {
    if period_secs(group) < 3 {
        (period_secs(group) * 1000) as u64
    } else {
        3000
    }
}

/// How many failures in a row make a target of a group unhealthy.
pub open spec fn retries(group: TargetGroup) -> u32 {
    match group.retries {
        None => DEFAULT_RETRIES,
        Some(count) => if count == 0 {
            1
        } else {
            count
        },
    }
}

/// A protocol and a port as one number, ordered by the protocol's name first.
pub open spec fn identity_code(protocol: Protocol, port: u16) -> u32 {
    match protocol {
        Protocol::Tcp => port as u32,
        Protocol::Udp => (0x1_0000 + port) as u32,
    }
}

/// The protocol of a code.
pub open spec fn code_protocol(code: u32) -> Protocol {
    if code < 0x1_0000 {
        Protocol::Tcp
    } else {
        Protocol::Udp
    }
}

/// The port of a code.
pub open spec fn code_port(code: u32) -> u16 {
    (code % 0x1_0000) as u16
}

/// The protocols and ports at which a listener forwards.
pub open spec fn listener_codes(listener: Listener) -> Seq<u32> {
    listener.protocols@.map_values(
        |protocol: Protocol| identity_code(protocol, listener.target_port),
    )
}

/// The protocols and ports at which listeners forward to a group.
pub open spec fn group_codes(listeners: Seq<Listener>, group: Seq<char>) -> Seq<u32>
    decreases listeners.len(),
{
    if listeners.len() == 0 {
        Seq::empty()
    } else if listeners.last().target_group@ == group {
        group_codes(listeners.drop_last(), group) + listener_codes(listeners.last())
    } else {
        group_codes(listeners.drop_last(), group)
    }
}

/// The names of a target's health records.
pub open spec fn record_names(group: Seq<char>, address: IpAddr, codes: Seq<u32>) -> Seq<Seq<char>> {
    codes.map_values(
        |code: u32|
            health_identity(group, address, code_protocol(code).name(), code_port(code)),
    )
}

/// The probe of one target, where it can be probed.
pub open spec fn probe_of(cfg: Config, group: TargetGroup, target: BackendTarget) -> Option<
    ProbeTargetView,
> {
    let codes = set_seq(group_codes(cfg.listeners@, group.name@));
    if !probeable(target.address) || !probeable(target.probe_address) || codes.len() == 0 {
        None
    } else {
        Some(
            ProbeTargetView {
                names: record_names(group.name@, target.address, codes),
                address: target.probe_address,
                port: probe_port(cfg, group),
                probe_type: probe_kind(group),
                probe_req: opt_text(group.probe_req),
                probe_resp: opt_text(group.probe_resp),
                expected_status: group.probe_status,
                skip_tls_verify: group.probe_skip_tls_verify,
                timeout_ms: timeout_ms(group),
                period_ms: (period_secs(group) * 1000) as u64,
                retries: retries(group),
            },
        )
    }
}

/// The probes of the targets of a group.
pub open spec fn group_probes(cfg: Config, group: TargetGroup, targets: Seq<BackendTarget>) -> Seq<
    ProbeTargetView,
>
    decreases targets.len(),
{
    if targets.len() == 0 {
        Seq::empty()
    } else {
        let before = group_probes(cfg, group, targets.drop_last());
        match probe_of(cfg, group, targets.last()) {
            Some(probe) => before.push(probe),
            None => before,
        }
    }
}

/// The probes of groups.
pub open spec fn all_probes(cfg: Config, groups: Seq<TargetGroup>) -> Seq<ProbeTargetView>
    decreases groups.len(),
{
    if groups.len() == 0 {
        Seq::empty()
    } else {
        let before = all_probes(cfg, groups.drop_last());
        let group = groups.last();
        if monitored(cfg, group) && executable(probe_kind(group)) {
            before + group_probes(cfg, group, group.targets@)
        } else {
            before
        }
    }
}

fn find_listener(listeners: &[Listener], group: &str) -> (at: Option<usize>)
    ensures
        match at {
            Some(i) => i < listeners.len() && first_listener(listeners@, group@) == Some(
                listeners@[i as int],
            ),
            None => first_listener(listeners@, group@) is None,
        },
{
    let mut i: usize = 0;
    assert(listeners@.skip(0) =~= listeners@);
    while i < listeners.len()
        invariant
            i <= listeners.len(),
            first_listener(listeners@, group@) == first_listener(
                listeners@.skip(i as int),
                group@,
            ),
        decreases listeners.len() - i,
    {
        assert(listeners@.skip(i as int).skip(1) =~= listeners@.skip(i + 1));
        if same_text(listeners[i].target_group.as_str(), group) {
            return Some(i);
        }
        i += 1;
    }
    None
}

fn push_codes(codes: &mut Vec<u32>, listener: &Listener)
    ensures
        final(codes)@ == old(codes)@ + listener_codes(*listener),
{
    let ghost start = codes@;
    let ghost all = listener_codes(*listener);
    let mut i: usize = 0;
    assert(start + all.take(0) =~= start);
    while i < listener.protocols.len()
        invariant
            i <= listener.protocols.len(),
            all == listener_codes(*listener),
            codes@ == start + all.take(i as int),
        decreases listener.protocols.len() - i,
    {
        let code: u32 = match listener.protocols[i] {
            Protocol::Tcp => listener.target_port as u32,
            Protocol::Udp => 0x1_0000 + listener.target_port as u32,
        };
        assert(code == all[i as int]);
        codes.push(code);
        i += 1;
        assert(codes@ =~= start + all.take(i as int));
    }
    assert(all.take(all.len() as int) =~= all);
}

/// The protocols and ports at which listeners forward to a group, each once.
pub fn listener_identities(listeners: &[Listener], group: &str) -> (codes: Vec<u32>)
    ensures
        codes@ == set_seq(group_codes(listeners@, group@)),
        is_set_of(codes@, group_codes(listeners@, group@)),
{
    let mut codes: Vec<u32> = Vec::new();
    let mut i: usize = 0;
    while i < listeners.len()
        invariant
            i <= listeners.len(),
            codes@ == group_codes(listeners@.take(i as int), group@),
        decreases listeners.len() - i,
    {
        assert(listeners@.take(i + 1).drop_last() =~= listeners@.take(i as int));
        assert(listeners@.take(i + 1).last() == listeners@[i as int]);
        if same_text(listeners[i].target_group.as_str(), group) {
            push_codes(&mut codes, &listeners[i]);
        }
        i += 1;
    }
    assert(listeners@.take(listeners@.len() as int) =~= listeners@);
    set_of(codes.as_slice())
}

fn name_records(group: &str, address: IpAddr, codes: &[u32]) -> (names: Vec<String>)
    ensures
        strings(names@) == record_names(group@, address, codes@),
{
    let mut names: Vec<String> = Vec::new();
    let ghost all = record_names(group@, address, codes@);
    let mut i: usize = 0;
    assert(strings(names@) =~= all.take(0));
    while i < codes.len()
        invariant
            i <= codes.len(),
            all == record_names(group@, address, codes@),
            strings(names@) == all.take(i as int),
        decreases codes.len() - i,
    {
        let code: u32 = codes[i];
        let protocol = if code < 0x1_0000 {
            Protocol::Tcp
        } else {
            Protocol::Udp
        };
        let port: u16 = (code % 0x1_0000) as u16;
        let name = target_health_identity(group, address, protocol.as_str(), port);
        let ghost view = name@;
        let ghost before = names@;
        names.push(name);
        assert(strings(names@) =~= strings(before).push(view));
        assert(view == all[i as int]);
        assert(all.take(i + 1) =~= all.take(i as int).push(view));
        i += 1;
    }
    assert(all.take(all.len() as int) =~= all);
    names
}

fn normalized_probe_type(group: &TargetGroup) -> (kind: String)
    ensures
        kind@ == probe_kind(*group),
{
    let kept = match &group.probe_type {
        Some(kind) => trim_text(kind.as_str()),
        None => trim_text(""),
    };
    lower_text(kept.as_str())
}

fn is_executable(kind: &str) -> (b: bool)
    ensures
        b == executable(kind@),
{
    same_text(kind, "ping") || same_text(kind, "tcp") || same_text(kind, "udp") || same_text(
        kind,
        "http",
    ) || same_text(kind, "https")
}

fn choose_port(cfg: &Config, group: &TargetGroup, kind: &str) -> (port: u16)
    requires
        kind@ == probe_kind(*group),
    ensures
        port == probe_port(*cfg, *group),
{
    if same_text(kind, "ping") {
        return 0;
    }
    match group.probe_port {
        Some(port) => port,
        None => match find_listener(cfg.listeners.as_slice(), group.name.as_str()) {
            Some(at) => cfg.listeners[at].target_port,
            None => 0,
        },
    }
}

fn choose_period(group: &TargetGroup) -> (secs: u64)
    ensures
        secs == period_secs(*group),
        1 <= secs <= u32::MAX,
{
    match group.period_secs {
        None => DEFAULT_PERIOD_SECS,
        Some(secs) => if secs == 0 {
            1
        } else {
            secs as u64
        },
    }
}

fn push_group_probes(out: &mut Vec<ProbeTarget>, cfg: &Config, group: &TargetGroup)
    ensures
        probe_target_views(final(out)@) == probe_target_views(old(out)@) + group_probes(
            *cfg,
            *group,
            group.targets@,
        ),
{
    let kind = normalized_probe_type(group);
    let port = choose_port(cfg, group, kind.as_str());
    let period: u64 = choose_period(group);
    let timeout: u64 = if period < 3 {
        period * 1000
    } else {
        3000
    };
    let count: u32 = match group.retries {
        None => DEFAULT_RETRIES,
        Some(count) => if count == 0 {
            1
        } else {
            count
        },
    };
    let codes = listener_identities(cfg.listeners.as_slice(), group.name.as_str());
    let ghost start = probe_target_views(out@);
    let mut i: usize = 0;
    assert(start + group_probes(*cfg, *group, group.targets@.take(0)) =~= start);
    while i < group.targets.len()
        invariant
            i <= group.targets.len(),
            kind@ == probe_kind(*group),
            port == probe_port(*cfg, *group),
            period == period_secs(*group),
            1 <= period <= u32::MAX,
            timeout == timeout_ms(*group),
            count == retries(*group),
            codes@ == set_seq(group_codes(cfg.listeners@, group.name@)),
            probe_target_views(out@) == start + group_probes(
                *cfg,
                *group,
                group.targets@.take(i as int),
            ),
        decreases group.targets.len() - i,
    {
        let target = &group.targets[i];
        let ghost done = group_probes(*cfg, *group, group.targets@.take(i as int));
        assert(group.targets@.take(i + 1).drop_last() =~= group.targets@.take(i as int));
        assert(group.targets@.take(i + 1).last() == *target);
        if is_probeable(target.address) && is_probeable(target.probe_address) && codes.len() > 0 {
            let probe = ProbeTarget {
                names: name_records(group.name.as_str(), target.address, codes.as_slice()),
                address: target.probe_address,
                port,
                probe_type: kind.clone(),
                probe_req: clone_opt_text(&group.probe_req),
                probe_resp: clone_opt_text(&group.probe_resp),
                expected_status: group.probe_status,
                skip_tls_verify: group.probe_skip_tls_verify,
                timeout_ms: timeout,
                period_ms: period * 1000,
                retries: count,
            };
            let ghost view = probe@;
            let ghost before = out@;
            out.push(probe);
            assert(probe_of(*cfg, *group, *target) == Some(view));
            assert(probe_target_views(out@) =~= probe_target_views(before).push(view));
            assert((start + done).push(view) =~= start + done.push(view));
        }
        i += 1;
    }
    assert(group.targets@.take(group.targets@.len() as int) =~= group.targets@);
}

fn is_monitored(cfg: &Config, group: &TargetGroup) -> (b: bool)
    ensures
        b == monitored(*cfg, *group),
{
    find_listener(cfg.listeners.as_slice(), group.name.as_str()).is_some() && group.monitor
        && is_probe(&group.probe_type)
}

/// The probes that a configuration asks for: one per target of each monitored
/// group that a listener forwards to.
pub fn scheduled_targets(cfg: &Config) -> (targets: Vec<ProbeTarget>)
    ensures
        probe_target_views(targets@) == all_probes(*cfg, cfg.target_groups@),
{
    let mut out: Vec<ProbeTarget> = Vec::new();
    let mut i: usize = 0;
    assert(probe_target_views(out@) =~= Seq::<ProbeTargetView>::empty());
    while i < cfg.target_groups.len()
        invariant
            i <= cfg.target_groups.len(),
            probe_target_views(out@) == all_probes(*cfg, cfg.target_groups@.take(i as int)),
        decreases cfg.target_groups.len() - i,
    {
        let group = &cfg.target_groups[i];
        assert(cfg.target_groups@.take(i + 1).drop_last() =~= cfg.target_groups@.take(i as int));
        assert(cfg.target_groups@.take(i + 1).last() == *group);
        let kind = normalized_probe_type(group);
        if is_monitored(cfg, group) && is_executable(kind.as_str()) {
            push_group_probes(&mut out, cfg, group);
        }
        i += 1;
    }
    assert(cfg.target_groups@.take(cfg.target_groups@.len() as int) =~= cfg.target_groups@);
    out
}

// ---------------------------------------------------------------------------
// When a probe is due
// ---------------------------------------------------------------------------

/// The key of a probe: the first of its names.
pub open spec fn first_name(names: Seq<Seq<char>>) -> Seq<char> {
    if names.len() > 0 {
        names[0]
    } else {
        Seq::empty()
    }
}

/// The key of a probe: the first of its names.
pub fn names_key(names: &[String]) -> (key: String)
    ensures
        key@ == first_name(strings(names@)),
{
    assert(strings(names@).len() == names@.len());
    if names.len() > 0 {
        assert(strings(names@)[0] == names@[0]@);
        names[0].clone()
    } else {
        let key = String::new();
        assert(key@ =~= Seq::<char>::empty());
        key
    }
}

/// A probe that ran, and when it is due again. Times are milliseconds of a clock
/// that never goes back.
#[derive(Clone, Debug)]
pub struct Scheduled {
    pub target: ProbeTarget,
    pub due_ms: u64,
}

/// What the probe worker remembers between rounds: the probes that ran, and how
/// often each failed in a row.
#[derive(Debug)]
pub struct ProbeState {
    pub schedule: Table<Scheduled>,
    pub failures: Table<u32>,
}

/// The keys of probes.
pub open spec fn keys_of(targets: Seq<ProbeTargetView>) -> Seq<Seq<char>> {
    targets.map_values(|target: ProbeTargetView| first_name(target.names))
}

/// Whether a probe differs from what ran under its key.
pub open spec fn is_changed(
    schedule: Map<Seq<char>, Scheduled>,
    target: ProbeTargetView,
) -> bool {
    let key = first_name(target.names);
    schedule.contains_key(key) && schedule[key].target@ != target
}

/// Whether a probe is due: it never ran, it changed, or its time has come.
pub open spec fn is_due(
    schedule: Map<Seq<char>, Scheduled>,
    target: ProbeTargetView,
    now_ms: u64,
) -> bool {
    let key = first_name(target.names);
    !schedule.contains_key(key) || schedule[key].target@ != target || now_ms
        >= schedule[key].due_ms
}

/// Whether a probe is due.
pub fn probe_is_due(schedule: &Table<Scheduled>, target: &ProbeTarget, now_ms: u64) -> (due: bool)
    ensures
        due == is_due(schedule@, target@, now_ms),
{
    let key = names_key(target.names.as_slice());
    match schedule.get(key.as_str()) {
        None => true,
        Some(previous) => !same_probe_target(&previous.target, target) || now_ms
            >= previous.due_ms,
    }
}

fn list_keys(targets: &[ProbeTarget]) -> (keys: Vec<String>)
    ensures
        strings(keys@) == keys_of(probe_target_views(targets@)),
{
    let mut keys: Vec<String> = Vec::new();
    let ghost all = keys_of(probe_target_views(targets@));
    let mut i: usize = 0;
    assert(strings(keys@) =~= all.take(0));
    while i < targets.len()
        invariant
            i <= targets.len(),
            all == keys_of(probe_target_views(targets@)),
            strings(keys@) == all.take(i as int),
        decreases targets.len() - i,
    {
        let key = names_key(targets[i].names.as_slice());
        let ghost view = key@;
        let ghost before = keys@;
        keys.push(key);
        assert(strings(keys@) =~= strings(before).push(view));
        assert(view == all[i as int]);
        assert(all.take(i + 1) =~= all.take(i as int).push(view));
        i += 1;
    }
    assert(all.take(all.len() as int) =~= all);
    keys
}

impl ProbeState {
    /// A worker that remembers nothing.
    pub fn new() -> (state: Self)
        ensures
            state.schedule@ == Map::<Seq<char>, Scheduled>::empty(),
            state.failures@ == Map::<Seq<char>, u32>::empty(),
    {
        ProbeState { schedule: Table::new(), failures: Table::new() }
    }

    /// Begins a round: what is remembered of probes that are gone is dropped.
    pub fn begin_round(&mut self, targets: &[ProbeTarget])
        ensures
            ({
                let keys = keys_of(probe_target_views(targets@)).to_set();
                &&& final(self).schedule@ == old(self).schedule@.restrict(keys)
                &&& final(self).failures@ == old(self).failures@.restrict(keys)
            }),
    {
        let keys = list_keys(targets);
        self.schedule.retain(keys.as_slice());
        self.failures.retain(keys.as_slice());
    }

    /// Says whether to run a probe now. The failures of a probe that changed no
    /// longer count.
    pub fn begin_probe(&mut self, target: &ProbeTarget, now_ms: u64) -> (run: bool)
        ensures
            run == is_due(old(self).schedule@, target@, now_ms),
            final(self).schedule == old(self).schedule,
            final(self).failures@ == if is_changed(old(self).schedule@, target@) {
                old(self).failures@.remove(first_name(target@.names))
            } else {
                old(self).failures@
            },
    {
        if !probe_is_due(&self.schedule, target, now_ms) {
            return false;
        }
        let key = names_key(target.names.as_slice());
        let changed = match self.schedule.get(key.as_str()) {
            Some(previous) => !same_probe_target(&previous.target, target),
            None => false,
        };
        if changed {
            self.failures.remove(key.as_str());
        }
        true
    }

    /// Notes that a probe has run; it is due again a period later.
    pub fn end_probe(&mut self, target: &ProbeTarget, now_ms: u64)
        ensures
            final(self).failures == old(self).failures,
            ({
                let key = first_name(target@.names);
                &&& final(self).schedule@.dom() == old(self).schedule@.dom().insert(key)
                &&& final(self).schedule@[key].target@ == target@
                &&& final(self).schedule@[key].due_ms == due_after(now_ms, target.period_ms)
                &&& forall|other: Seq<char>|
                    other != key && old(self).schedule@.contains_key(other)
                        ==> #[trigger] final(self).schedule@[other] == old(self).schedule@[other]
            }),
    {
        let key = names_key(target.names.as_slice());
        let due_ms: u64 = if now_ms <= u64::MAX - target.period_ms {
            now_ms + target.period_ms
        } else {
            u64::MAX
        };
        self.schedule.insert(key.as_str(), Scheduled { target: clone_probe_target(target), due_ms });
    }
}

/// When a probe is due again.
pub open spec fn due_after(now_ms: u64, period_ms: u64) -> u64 {
    if now_ms + period_ms <= u64::MAX {
        (now_ms + period_ms) as u64
    } else {
        u64::MAX
    }
}

// ---------------------------------------------------------------------------
// What the outcomes say
// ---------------------------------------------------------------------------

/// The outcome of a probe.
#[derive(Clone, Debug)]
pub struct ProbeResult {
    pub target: ProbeTarget,
    pub outcome: ProbeOutcome,
}

/// What the outcomes of probes come to: how often each probe failed in a row,
/// and the verdicts.
pub struct Judgement {
    pub failures: Map<Seq<char>, u32>,
    pub updates: Seq<(Seq<char>, bool)>,
}

/// How often a probe failed in a row, counting one more outcome.
pub open spec fn failures_after(
    failures: Map<Seq<char>, u32>,
    key: Seq<char>,
    outcome: ProbeOutcome,
) -> u32 {
    match outcome {
        ProbeOutcome::Pass => 0,
        ProbeOutcome::Fail => if !failures.contains_key(key) {
            1
        } else if failures[key] == u32::MAX {
            u32::MAX
        } else {
            (failures[key] + 1) as u32
        },
    }
}

/// The verdicts of one outcome: a pass clears every name of the target at once,
/// a failure counts only when there were enough of them.
pub open spec fn verdicts(result: ProbeResult, failures: u32) -> Seq<(Seq<char>, bool)> {
    if result.outcome == ProbeOutcome::Pass || failures >= result.target.retries {
        result.target@.names.map_values(
            |name: Seq<char>| (name, result.outcome == ProbeOutcome::Pass),
        )
    } else {
        Seq::empty()
    }
}

/// What the outcomes of probes that are still asked for come to.
pub open spec fn judgement(
    failures: Map<Seq<char>, u32>,
    results: Seq<ProbeResult>,
    targets: Seq<ProbeTargetView>,
) -> Judgement
    decreases results.len(),
{
    if results.len() == 0 {
        Judgement { failures, updates: Seq::empty() }
    } else {
        let before = judgement(failures, results.drop_last(), targets);
        let result = results.last();
        if targets.contains(result.target@) {
            let key = first_name(result.target@.names);
            let count = failures_after(before.failures, key, result.outcome);
            Judgement {
                failures: before.failures.insert(key, count),
                updates: before.updates + verdicts(result, count),
            }
        } else {
            before
        }
    }
}

/// Verdicts as plain values.
pub open spec fn update_views(updates: Seq<HealthUpdate>) -> Seq<(Seq<char>, bool)> {
    updates.map_values(|update: HealthUpdate| (update.name@, update.healthy))
}

fn is_current(targets: &[ProbeTarget], target: &ProbeTarget) -> (b: bool)
    ensures
        b == probe_target_views(targets@).contains(target@),
{
    let ghost views = probe_target_views(targets@);
    let mut i: usize = 0;
    while i < targets.len()
        invariant
            i <= targets.len(),
            views == probe_target_views(targets@),
            forall|j: int| 0 <= j < i ==> views[j] != target@,
        decreases targets.len() - i,
    {
        assert(views[i as int] == targets@[i as int]@);
        if same_probe_target(&targets[i], target) {
            return true;
        }
        i += 1;
    }
    false
}

fn push_verdicts(updates: &mut Vec<HealthUpdate>, result: &ProbeResult, count: u32)
    ensures
        update_views(final(updates)@) == update_views(old(updates)@) + verdicts(*result, count),
{
    let ghost start = update_views(updates@);
    let healthy = result.outcome == ProbeOutcome::Pass;
    if !healthy && count < result.target.retries {
        assert(start + Seq::<(Seq<char>, bool)>::empty() =~= start);
        return ;
    }
    let ghost all = verdicts(*result, count);
    let mut i: usize = 0;
    assert(start + all.take(0) =~= start);
    while i < result.target.names.len()
        invariant
            i <= result.target.names.len(),
            healthy == (result.outcome == ProbeOutcome::Pass),
            all == result.target@.names.map_values(|name: Seq<char>| (name, healthy)),
            update_views(updates@) == start + all.take(i as int),
        decreases result.target.names.len() - i,
    {
        let update = HealthUpdate { name: result.target.names[i].clone(), healthy };
        assert(result.target@.names[i as int] == result.target.names@[i as int]@);
        let ghost view = (update.name@, update.healthy);
        let ghost before = updates@;
        updates.push(update);
        assert(view == all[i as int]);
        assert(update_views(updates@) =~= update_views(before).push(view));
        assert((start + all.take(i as int)).push(view) =~= start + all.take(i + 1));
        i += 1;
    }
    assert(all.take(all.len() as int) =~= all);
}

impl ProbeState {
    /// Counts the outcomes of a round and gives the verdicts. An outcome of a
    /// probe that is no longer among `current` is dropped.
    pub fn apply_results(&mut self, results: &[ProbeResult], current: &[ProbeTarget]) -> (updates:
        Vec<HealthUpdate>)
        ensures
            ({
                let all = judgement(
                    old(self).failures@,
                    results@,
                    probe_target_views(current@),
                );
                &&& final(self).failures@ == all.failures
                &&& update_views(updates@) == all.updates
            }),
            final(self).schedule == old(self).schedule,
    {
        let ghost start = self.failures@;
        let ghost targets = probe_target_views(current@);
        let ghost schedule = self.schedule;
        let mut updates: Vec<HealthUpdate> = Vec::new();
        let mut i: usize = 0;
        assert(update_views(updates@) =~= Seq::<(Seq<char>, bool)>::empty());
        while i < results.len()
            invariant
                i <= results.len(),
                targets == probe_target_views(current@),
                self.schedule == schedule,
                ({
                    let done = judgement(start, results@.take(i as int), targets);
                    &&& self.failures@ == done.failures
                    &&& update_views(updates@) == done.updates
                }),
            decreases results.len() - i,
        {
            assert(results@.take(i + 1).drop_last() =~= results@.take(i as int));
            assert(results@.take(i + 1).last() == results@[i as int]);
            let result = &results[i];
            if is_current(current, &result.target) {
                let key = names_key(result.target.names.as_slice());
                let before: u32 = match self.failures.get(key.as_str()) {
                    Some(count) => *count,
                    None => 0,
                };
                let count: u32 = match result.outcome {
                    ProbeOutcome::Pass => 0,
                    ProbeOutcome::Fail => if before == u32::MAX {
                        u32::MAX
                    } else {
                        before + 1
                    },
                };
                self.failures.insert(key.as_str(), count);
                push_verdicts(&mut updates, result, count);
            }
            i += 1;
        }
        assert(results@.take(results@.len() as int) =~= results@);
        updates
    }
}

// ---------------------------------------------------------------------------
// Laws
// ---------------------------------------------------------------------------

/// A probe that just ran is not due again before its period is over; once it
/// changes, it is due at once.
pub proof fn law_probe_keeps_its_period(
    schedule: Map<Seq<char>, Scheduled>,
    target: ProbeTargetView,
    ran_ms: u64,
    now_ms: u64,
)
    requires
        schedule.contains_key(first_name(target.names)),
        schedule[first_name(target.names)].due_ms == due_after(ran_ms, target.period_ms),
        ran_ms + target.period_ms <= u64::MAX,
    ensures
        schedule[first_name(target.names)].target@ == target ==> (is_due(schedule, target, now_ms)
            <==> now_ms >= ran_ms + target.period_ms),
        schedule[first_name(target.names)].target@ != target ==> is_due(schedule, target, now_ms),
{
}

/// A target turns unhealthy only after as many failures in a row as its group
/// asks for; a single pass makes it healthy again.
pub proof fn law_failures_must_repeat(result: ProbeResult, failures: u32)
    ensures
        result.outcome == ProbeOutcome::Fail && failures < result.target.retries ==> verdicts(
            result,
            failures,
        ).len() == 0,
        result.outcome == ProbeOutcome::Pass ==> verdicts(result, failures).len()
            == result.target@.names.len(),
        forall|i: int|
            0 <= i < verdicts(result, failures).len() ==> (#[trigger] verdicts(
                result,
                failures,
            )[i]).0 == result.target@.names[i] && verdicts(result, failures)[i].1 == (result.outcome
                == ProbeOutcome::Pass),
{
}

/// The port of a probe has no part in the names of the health records.
pub proof fn law_probe_port_is_no_identity(
    cfg: Config,
    group: TargetGroup,
    other: TargetGroup,
    target: BackendTarget,
)
    requires
        group.name@ == other.name@,
    ensures
        probe_of(cfg, group, target) matches Some(a) ==> probe_of(
            cfg,
            other,
            target,
        ) matches Some(b) && a.names == b.names,
{
}

proof fn lemma_first_listener(listeners: Seq<Listener>, group: Seq<char>, l: int)
    requires
        0 <= l < listeners.len(),
        listeners[l].target_group@ == group,
    ensures
        match first_listener(listeners, group) {
            None => false,
            Some(first) => (forall|m: int|
                0 <= m < l ==> (#[trigger] listeners[m]).target_group@ != group) ==> first
                == listeners[l],
        },
    decreases listeners.len(),
{
    if listeners[0].target_group@ != group {
        let rest = listeners.skip(1);
        assert(rest[l - 1] == listeners[l]);
        lemma_first_listener(rest, group, l - 1);
        if forall|m: int| 0 <= m < l ==> (#[trigger] listeners[m]).target_group@ != group {
            assert forall|m: int| 0 <= m < l - 1 implies (#[trigger] rest[m]).target_group@
                != group by {
                assert(rest[m] == listeners[m + 1]);
            }
        }
    }
}

proof fn lemma_code_is_listed(listeners: Seq<Listener>, group: Seq<char>, l: int, p: int)
    requires
        0 <= l < listeners.len(),
        listeners[l].target_group@ == group,
        0 <= p < listeners[l].protocols@.len(),
    ensures
        group_codes(listeners, group).contains(
            identity_code(listeners[l].protocols@[p], listeners[l].target_port),
        ),
    decreases listeners.len(),
{
    let front = listeners.drop_last();
    let before = group_codes(front, group);
    let all = group_codes(listeners, group);
    let code = identity_code(listeners[l].protocols@[p], listeners[l].target_port);
    if l < front.len() {
        assert(front[l] == listeners[l]);
        lemma_code_is_listed(front, group, l, p);
        let k = choose|k: int| 0 <= k < before.len() && before[k] == code;
        assert(all[k] == code);
    } else {
        assert(all[before.len() + p] == code);
    }
}

/// Where a code comes from.
proof fn lemma_code_from(listeners: Seq<Listener>, group: Seq<char>, code: u32) -> (at: (int, int))
    requires
        group_codes(listeners, group).contains(code),
    ensures
        0 <= at.0 < listeners.len(),
        listeners[at.0].target_group@ == group,
        0 <= at.1 < listeners[at.0].protocols@.len(),
        code == identity_code(listeners[at.0].protocols@[at.1], listeners[at.0].target_port),
    decreases listeners.len(),
{
    let front = listeners.drop_last();
    let before = group_codes(front, group);
    let all = group_codes(listeners, group);
    let k = choose|k: int| 0 <= k < all.len() && all[k] == code;
    if k < before.len() {
        assert(before[k] == code);
        lemma_code_from(front, group, code)
    } else {
        (listeners.len() - 1, k - before.len())
    }
}

/// The name of a record, with the name of the protocol as it is.
proof fn lemma_record_name(group: Seq<char>, address: IpAddr, protocol: Protocol, port: u16)
    ensures
        health_identity(group, address, protocol.name(), port) == group + ":"@ + ip_text(address)
            + "_"@ + protocol.name() + "_"@ + decimal(port as nat),
{
    reveal_strlit("tcp");
    reveal_strlit("udp");
    let name = protocol.name();
    law_trimming_takes_the_ends(name);
    assert(lower(name) =~= name);
}

proof fn lemma_group_probe_at(cfg: Config, group: TargetGroup, targets: Seq<BackendTarget>, t: int) -> (k:
    int)
    requires
        0 <= t < targets.len(),
        probe_of(cfg, group, targets[t]) is Some,
    ensures
        0 <= k < group_probes(cfg, group, targets).len(),
        group_probes(cfg, group, targets)[k] == probe_of(cfg, group, targets[t])->0,
    decreases targets.len(),
{
    let front = targets.drop_last();
    if t < front.len() {
        assert(front[t] == targets[t]);
        lemma_group_probe_at(cfg, group, front, t)
    } else {
        group_probes(cfg, group, front).len() as int
    }
}

proof fn lemma_group_probe_from(
    cfg: Config,
    group: TargetGroup,
    targets: Seq<BackendTarget>,
    k: int,
) -> (t: int)
    requires
        0 <= k < group_probes(cfg, group, targets).len(),
    ensures
        0 <= t < targets.len(),
        probe_of(cfg, group, targets[t]) == Some(group_probes(cfg, group, targets)[k]),
    decreases targets.len(),
{
    let front = targets.drop_last();
    if k < group_probes(cfg, group, front).len() {
        let t = lemma_group_probe_from(cfg, group, front, k);
        assert(front[t] == targets[t]);
        t
    } else {
        targets.len() - 1
    }
}

proof fn lemma_probe_at(cfg: Config, groups: Seq<TargetGroup>, g: int, m: int) -> (k: int)
    requires
        0 <= g < groups.len(),
        monitored(cfg, groups[g]),
        executable(probe_kind(groups[g])),
        0 <= m < group_probes(cfg, groups[g], groups[g].targets@).len(),
    ensures
        0 <= k < all_probes(cfg, groups).len(),
        all_probes(cfg, groups)[k] == group_probes(cfg, groups[g], groups[g].targets@)[m],
    decreases groups.len(),
{
    let front = groups.drop_last();
    if g < front.len() {
        assert(front[g] == groups[g]);
        lemma_probe_at(cfg, front, g, m)
    } else {
        all_probes(cfg, front).len() + m
    }
}

proof fn lemma_probe_from(cfg: Config, groups: Seq<TargetGroup>, k: int) -> (at: (int, int))
    requires
        0 <= k < all_probes(cfg, groups).len(),
    ensures
        0 <= at.0 < groups.len(),
        monitored(cfg, groups[at.0]),
        executable(probe_kind(groups[at.0])),
        0 <= at.1 < groups[at.0].targets@.len(),
        probe_of(cfg, groups[at.0], groups[at.0].targets@[at.1]) == Some(all_probes(cfg, groups)[k]),
    decreases groups.len(),
{
    let front = groups.drop_last();
    let before = all_probes(cfg, front);
    if k < before.len() {
        let at = lemma_probe_from(cfg, front, k);
        assert(front[at.0] == groups[at.0]);
        at
    } else {
        let group = groups.last();
        let t = lemma_group_probe_from(cfg, group, group.targets@, k - before.len());
        (groups.len() - 1, t)
    }
}

/// The kinds of probes differ and none of them stands for no probe.
proof fn lemma_kinds()
    ensures
        "ping"@ != "tcp"@,
        "ping"@ != "udp"@,
        "ping"@ != "http"@,
        "ping"@ != "https"@,
        "none"@ != "ping"@,
        "none"@ != "tcp"@,
        "none"@ != "udp"@,
        "none"@ != "http"@,
        "none"@ != "https"@,
        "ping"@.len() > 0,
        "tcp"@.len() > 0,
        "udp"@.len() > 0,
        "http"@.len() > 0,
        "https"@.len() > 0,
{
    reveal_strlit("none");
    reveal_strlit("ping");
    reveal_strlit("tcp");
    reveal_strlit("udp");
    reveal_strlit("http");
    reveal_strlit("https");
    assert("none"@[0] != "ping"@[0]);
    assert("none"@[0] != "http"@[0]);
    assert("ping"@[0] != "http"@[0]);
}

/// Every target of a monitored group is probed that a listener forwards to, where the group
/// asks for a ping, for TCP, UDP, HTTP or HTTPS, in capital letters or small, and neither
/// address of the target is unspecified or a loopback. The probe goes to the address for
/// probes, by the kind that the group asks for, at the port that the group names; where it
/// names none, at the port of the first listener of the group; a ping has no port. It has
/// the period of the group, five seconds where it sets none and a second at least, waits
/// that long but three seconds at most, and needs the failures that the group asks for, two
/// where it does not say and one at least. It stands for the health record of the target
/// under the protocol and port of the listener. It stands at the place given back.
pub proof fn law_every_kind_is_probed(
    cfg: Config,
    g: int,
    t: int,
    l: int,
    p: int,
    kind: Seq<char>,
) -> (k: int)
    requires
        0 <= g < cfg.target_groups@.len(),
        cfg.target_groups@[g].monitor,
        cfg.target_groups@[g].probe_type matches Some(text) && lower(trimmed(text@)) == kind,
        kind == "ping"@ || kind == "tcp"@ || kind == "udp"@ || kind == "http"@ || kind == "https"@,
        0 <= t < cfg.target_groups@[g].targets@.len(),
        match cfg.target_groups@[g].targets@[t].address {
            IpAddr::V4(v4) => v4 != 0 && !(0x7f00_0000 <= v4 <= 0x7fff_ffff),
            IpAddr::V6(v6) => v6 != 0 && v6 != 1,
        },
        match cfg.target_groups@[g].targets@[t].probe_address {
            IpAddr::V4(v4) => v4 != 0 && !(0x7f00_0000 <= v4 <= 0x7fff_ffff),
            IpAddr::V6(v6) => v6 != 0 && v6 != 1,
        },
        0 <= l < cfg.listeners@.len(),
        cfg.listeners@[l].target_group@ == cfg.target_groups@[g].name@,
        0 <= p < cfg.listeners@[l].protocols@.len(),
    ensures
        ({
            let group = cfg.target_groups@[g];
            let listener = cfg.listeners@[l];
            let probes = all_probes(cfg, cfg.target_groups@);
            &&& 0 <= k < probes.len()
            &&& probes[k].probe_type == kind
            &&& probes[k].address == group.targets@[t].probe_address
            &&& kind == "ping"@ ==> probes[k].port == 0
            &&& kind != "ping"@ ==> (group.probe_port matches Some(port) ==> probes[k].port == port)
            &&& kind != "ping"@ && group.probe_port is None && (forall|m: int|
                0 <= m < l ==> (#[trigger] cfg.listeners@[m]).target_group@ != group.name@)
                ==> probes[k].port == listener.target_port
            &&& probes[k].probe_req == opt_text(group.probe_req)
            &&& probes[k].probe_resp == opt_text(group.probe_resp)
            &&& probes[k].expected_status == group.probe_status
            &&& probes[k].skip_tls_verify == group.probe_skip_tls_verify
            &&& group.period_secs is None ==> probes[k].period_ms == 5000
            &&& group.period_secs == Some(0u32) ==> probes[k].period_ms == 1000
            &&& group.period_secs matches Some(secs) ==> secs > 0 ==> probes[k].period_ms == secs
                * 1000
            &&& probes[k].period_ms <= 3000 ==> probes[k].timeout_ms == probes[k].period_ms
            &&& probes[k].period_ms > 3000 ==> probes[k].timeout_ms == 3000
            &&& group.retries is None ==> probes[k].retries == 2
            &&& group.retries == Some(0u32) ==> probes[k].retries == 1
            &&& group.retries matches Some(count) ==> count > 0 ==> probes[k].retries == count
            &&& probes[k].names.contains(
                group.name@ + ":"@ + ip_text(group.targets@[t].address) + "_"@ + (match
                    listener.protocols@[p] {
                    Protocol::Tcp => "tcp"@,
                    Protocol::Udp => "udp"@,
                }) + "_"@ + decimal(listener.target_port as nat),
            )
        }),
{
    let group = cfg.target_groups@[g];
    let target = group.targets@[t];
    let listener = cfg.listeners@[l];
    lemma_kinds();
    assert(probe_kind(group) == kind);
    assert(trimmed(group.probe_type->0@).len() == kind.len());
    lemma_first_listener(cfg.listeners@, group.name@, l);
    let codes = group_codes(cfg.listeners@, group.name@);
    let set = set_seq(codes);
    let code = identity_code(listener.protocols@[p], listener.target_port);
    lemma_code_is_listed(cfg.listeners@, group.name@, l, p);
    law_set_holds_each_once(codes);
    assert(set.contains(code));
    let at = choose|at: int| 0 <= at < set.len() && set[at] == code;
    assert(probeable(target.address));
    assert(probeable(target.probe_address));
    let probe = probe_of(cfg, group, target)->0;
    lemma_record_name(group.name@, target.address, listener.protocols@[p], listener.target_port);
    assert(code_protocol(code) == listener.protocols@[p]);
    assert(code_port(code) == listener.target_port);
    assert(probe.names[at] == health_identity(
        group.name@,
        target.address,
        listener.protocols@[p].name(),
        listener.target_port,
    ));
    let m = lemma_group_probe_at(cfg, group, group.targets@, t);
    lemma_probe_at(cfg, cfg.target_groups@, g, m)
}

/// A probe is there only for a target of a monitored group that a listener forwards to, of
/// a kind that can be run, and at addresses that are neither unspecified nor loopbacks. The
/// group and the target stand at the places given back.
pub proof fn law_every_probe_is_asked_for(cfg: Config, k: int) -> (at: (int, int))
    requires
        0 <= k < all_probes(cfg, cfg.target_groups@).len(),
    ensures
        ({
            let probe = all_probes(cfg, cfg.target_groups@)[k];
            let group = cfg.target_groups@[at.0];
            let target = group.targets@[at.1];
            let kind = probe.probe_type;
            &&& 0 <= at.0 < cfg.target_groups@.len()
            &&& 0 <= at.1 < group.targets@.len()
            &&& group.monitor
            &&& group.probe_type matches Some(text) && lower(trimmed(text@)) == kind
            &&& kind == "ping"@ || kind == "tcp"@ || kind == "udp"@ || kind == "http"@ || kind
                == "https"@
            &&& probe.address == target.probe_address
            &&& match target.address {
                IpAddr::V4(v4) => v4 != 0 && !(0x7f00_0000 <= v4 <= 0x7fff_ffff),
                IpAddr::V6(v6) => v6 != 0 && v6 != 1,
            }
            &&& match target.probe_address {
                IpAddr::V4(v4) => v4 != 0 && !(0x7f00_0000 <= v4 <= 0x7fff_ffff),
                IpAddr::V6(v6) => v6 != 0 && v6 != 1,
            }
            &&& probe.names.len() > 0
        }),
{
    lemma_kinds();
    lemma_probe_from(cfg, cfg.target_groups@, k)
}

/// Every name of a probe is that of a health record of its target, under the protocol and
/// port of a listener that forwards to the group. The listener and the protocol stand at the
/// places given back.
pub proof fn law_probe_names_are_records(
    cfg: Config,
    group: TargetGroup,
    target: BackendTarget,
    n: int,
) -> (at: (int, int))
    requires
        probe_of(cfg, group, target) is Some,
        0 <= n < probe_of(cfg, group, target)->0.names.len(),
    ensures
        0 <= at.0 < cfg.listeners@.len(),
        cfg.listeners@[at.0].target_group@ == group.name@,
        0 <= at.1 < cfg.listeners@[at.0].protocols@.len(),
        probe_of(cfg, group, target)->0.names[n] == group.name@ + ":"@ + ip_text(target.address)
            + "_"@ + (match cfg.listeners@[at.0].protocols@[at.1] {
            Protocol::Tcp => "tcp"@,
            Protocol::Udp => "udp"@,
        }) + "_"@ + decimal(cfg.listeners@[at.0].target_port as nat),
{
    let codes = group_codes(cfg.listeners@, group.name@);
    let set = set_seq(codes);
    law_set_holds_each_once(codes);
    assert(set.contains(set[n]));
    let at = lemma_code_from(cfg.listeners@, group.name@, set[n]);
    let listener = cfg.listeners@[at.0];
    lemma_record_name(group.name@, target.address, listener.protocols@[at.1], listener.target_port);
    at
}

/// Failures in a row of a probe that is still asked for are counted, and nothing is said of
/// its target until there are as many as its group asks for; from there on every one of
/// them says of every record of the target that it is unhealthy, and so it is counted up to
/// what a counter holds.
pub proof fn law_repeated_failures_make_unhealthy(
    results: Seq<ProbeResult>,
    targets: Seq<ProbeTargetView>,
    target: ProbeTargetView,
)
    requires
        results.len() <= u32::MAX,
        targets.contains(target),
        forall|i: int|
            0 <= i < results.len() ==> (#[trigger] results[i]).outcome == ProbeOutcome::Fail
                && results[i].target@ == target,
    ensures
        ({
            let all = judgement(Map::empty(), results, targets);
            &&& results.len() > 0 ==> all.failures.contains_key(first_name(target.names))
                && all.failures[first_name(target.names)] == results.len()
            &&& results.len() == 0 ==> all.failures == Map::<Seq<char>, u32>::empty()
            &&& results.len() < target.retries ==> all.updates.len() == 0
            &&& results.len() > 0 && results.len() == target.retries ==> all.updates.len()
                == target.names.len() && forall|n: int|
                0 <= n < target.names.len() ==> #[trigger] all.updates[n] == (
                    target.names[n],
                    false,
                )
        }),
    decreases results.len(),
{
    if results.len() > 0 {
        let front = results.drop_last();
        assert(results[results.len() - 1] == results.last());
        assert forall|i: int| 0 <= i < front.len() implies (#[trigger] front[i]).outcome
            == ProbeOutcome::Fail && front[i].target@ == target by {
            assert(front[i] == results[i]);
        }
        law_repeated_failures_make_unhealthy(front, targets, target);
        let last = results.last();
        assert(last.target.retries == target.retries);
        let before = judgement(Map::empty(), front, targets);
        let count = failures_after(before.failures, first_name(target.names), ProbeOutcome::Fail);
        assert(count == results.len());
        if results.len() == target.retries {
            assert(before.updates =~= Seq::empty());
            assert(before.updates + verdicts(last, count) =~= verdicts(last, count));
        }
    }
}

/// A pass says of every record of the target that it is healthy, and failures are counted
/// from the start again. An outcome of a probe that is no longer asked for says nothing.
pub proof fn law_one_pass_makes_healthy(
    failures: Map<Seq<char>, u32>,
    results: Seq<ProbeResult>,
    result: ProbeResult,
    targets: Seq<ProbeTargetView>,
)
    ensures
        ({
            let before = judgement(failures, results, targets);
            let after = judgement(failures, results.push(result), targets);
            &&& !targets.contains(result.target@) ==> after == before
            &&& targets.contains(result.target@) && result.outcome == ProbeOutcome::Pass ==> {
                let names = result.target@.names;
                &&& after.failures == before.failures.insert(first_name(names), 0)
                &&& after.updates.len() == before.updates.len() + names.len()
                &&& after.updates.take(before.updates.len() as int) == before.updates
                &&& forall|n: int|
                    0 <= n < names.len() ==> after.updates[before.updates.len() + n] == (
                        #[trigger] names[n],
                        true,
                    )
            }
        }),
{
    let all = results.push(result);
    assert(all.drop_last() =~= results);
    assert(all.last() == result);
    let before = judgement(failures, results, targets);
    let after = judgement(failures, all, targets);
    if targets.contains(result.target@) {
        assert(after.updates.take(before.updates.len() as int) =~= before.updates);
    }
}

/// Targets are known by the first of their names; one whose settings differ from those that it
/// is probed with has changed, one that is not probed yet has not.
pub proof fn law_changed_targets_are_noticed(
    schedule: Map<Seq<char>, Scheduled>,
    targets: Seq<ProbeTargetView>,
    i: int,
)
    requires
        0 <= i < targets.len(),
    ensures
        keys_of(targets).len() == targets.len(),
        keys_of(targets)[i] == first_name(targets[i].names),
        !schedule.contains_key(first_name(targets[i].names)) ==> !is_changed(schedule, targets[i]),
        schedule.contains_key(first_name(targets[i].names)) ==> is_changed(schedule, targets[i])
            == (schedule[first_name(targets[i].names)].target@ != targets[i]),
{
}

} // verus!
