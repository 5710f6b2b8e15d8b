//! From the configuration to the listeners of the datapath.
use crate::config::{
    BackendTarget, Config, GatewayHaRuntimeConfig, Listener, Protocol, TargetGroup, VipProvider,
};
use crate::net::{ip_value, parse_ip, IpAddr};
use crate::text::{chars_of, same_text};
use vstd::prelude::*;

verus! {

#[derive(Clone, Copy, Debug, PartialEq, Eq, Structural)]
pub enum NativeProtocol {
    Tcp,
    Udp,
}

impl NativeProtocol {
    /// The number of the protocol in an IP header.
    pub fn ip_proto(self) -> (proto: u8)
        ensures
            proto == (match self {
                NativeProtocol::Tcp => 6u8,
                NativeProtocol::Udp => 17u8,
            }),
    {
        match self {
            NativeProtocol::Tcp => 6,
            NativeProtocol::Udp => 17,
        }
    }
}

/// The datapath's name for a protocol.
pub open spec fn native_protocol(protocol: Protocol) -> NativeProtocol {
    match protocol {
        Protocol::Tcp => NativeProtocol::Tcp,
        Protocol::Udp => NativeProtocol::Udp,
    }
}

/// What a listener is found by.
#[derive(Clone, Copy, Debug, PartialEq, Eq, Structural)]
pub struct NativeListenerKey {
    pub vip_ip: u32,
    pub vip_port: u16,
    pub protocol: NativeProtocol,
}

#[derive(Clone, Copy, Debug, PartialEq, Eq, Structural)]
pub enum NativeTargetState {
    Active,
    Inactive,
}

impl Default for NativeTargetState {
    fn default() -> (state: Self)
        ensures
            state == NativeTargetState::Active,
    {
        NativeTargetState::Active
    }
}

/// A target: where to, and the port that its listener forwards to.
#[derive(Clone, Copy, Debug, PartialEq, Eq, Structural)]
pub struct NativeTarget {
    pub address: u32,
    pub port: u16,
    pub weight: u32,
    pub state: NativeTargetState,
}

#[derive(Clone, Debug)]
pub struct NativeListener {
    pub name: String,
    pub target_group: String,
    pub key: NativeListenerKey,
    pub select: u32,
    pub inactive_timeout_secs: u32,
    pub dscp: u32,
    pub targets: Vec<NativeTarget>,
}

/// A listener as plain values.
pub struct NativeListenerView {
    pub name: Seq<char>,
    pub target_group: Seq<char>,
    pub key: NativeListenerKey,
    pub select: u32,
    pub inactive_timeout_secs: u32,
    pub dscp: u32,
    pub targets: Seq<NativeTarget>,
}

impl View for NativeListener {
    type V = NativeListenerView;

    open spec fn view(&self) -> NativeListenerView {
        NativeListenerView {
            name: self.name@,
            target_group: self.target_group@,
            key: self.key,
            select: self.select,
            inactive_timeout_secs: self.inactive_timeout_secs,
            dscp: self.dscp,
            targets: self.targets@,
        }
    }
}

/// Listeners as plain values.
pub open spec fn listener_views(listeners: Seq<NativeListener>) -> Seq<NativeListenerView> {
    listeners.map_values(|listener: NativeListener| listener@)
}

/// Why a configuration gives no listeners.
#[derive(Clone, Copy, Debug, PartialEq, Eq, Structural)]
pub enum ModelError {
    /// A listener names a group that is not there.
    MissingGroup,
    /// An address is 0.0.0.0.
    Unspecified,
    /// The datapath does not support IPv6.
    Ipv6(u128),
    /// The gateway has no usable IPv4 address.
    Gateway,
}

/// The inactivity timeout of a listener that sets none, in seconds.
pub const DEFAULT_INACTIVE_TIMEOUT: u32 = 240;

// ---------------------------------------------------------------------------
// Addresses
// ---------------------------------------------------------------------------

/// The IPv4 address that the datapath can use.
pub open spec fn usable_ipv4(ip: IpAddr) -> Result<u32, ModelError> {
    match ip {
        IpAddr::V4(v4) => if v4 != 0 {
            Ok(v4)
        } else {
            Err(ModelError::Unspecified)
        },
        IpAddr::V6(v6) => Err(ModelError::Ipv6(v6)),
    }
}

/// The IPv4 address that the datapath can use.
pub fn ipv4_addr(ip: IpAddr) -> (v4: Result<u32, ModelError>)
    ensures
        v4 == usable_ipv4(ip),
{
    match ip {
        IpAddr::V4(v4) => if v4 != 0 {
            Ok(v4)
        } else {
            Err(ModelError::Unspecified)
        },
        IpAddr::V6(v6) => Err(ModelError::Ipv6(v6)),
    }
}

/// `s` with `x` behind it, unless it is there already.
pub open spec fn with_unique(s: Seq<u32>, x: u32) -> Seq<u32> {
    if s.contains(x) {
        s
    } else {
        s.push(x)
    }
}

/// The gateway's address and the configured ones, each once.
pub open spec fn configured_vips(gateway: u32, configured: Seq<IpAddr>) -> Result<
    Seq<u32>,
    ModelError,
>
    decreases configured.len(),
{
    if configured.len() == 0 {
        Ok(seq![gateway])
    } else {
        match configured_vips(gateway, configured.drop_last()) {
            Err(error) => Err(error),
            Ok(vips) => match usable_ipv4(configured.last()) {
                Err(error) => Err(error),
                Ok(vip) => Ok(with_unique(vips, vip)),
            },
        }
    }
}

/// The gateway's address, the configured ones and the shared one, each once.
pub open spec fn merged_vips(gateway: u32, configured: Seq<IpAddr>, shared: Option<u32>) -> Result<
    Seq<u32>,
    ModelError,
> {
    match (configured_vips(gateway, configured), shared) {
        (Err(error), _) => Err(error),
        (Ok(vips), None) => Ok(vips),
        (Ok(vips), Some(vip)) => Ok(with_unique(vips, vip)),
    }
}

fn push_unique(list: &mut Vec<u32>, x: u32)
    ensures
        final(list)@ == with_unique(old(list)@, x),
{
    let mut i: usize = 0;
    while i < list.len()
        invariant
            i <= list.len(),
            list@ == old(list)@,
            forall|j: int| 0 <= j < i ==> list@[j] != x,
        decreases list.len() - i,
    {
        if list[i] == x {
            assert(list@[i as int] == x);
            return ;
        }
        i += 1;
    }
    list.push(x);
}

proof fn lemma_vips_stay_err(gateway: u32, configured: Seq<IpAddr>, n: int)
    requires
        0 <= n <= configured.len(),
        configured_vips(gateway, configured.take(n)) is Err,
    ensures
        configured_vips(gateway, configured) == configured_vips(gateway, configured.take(n)),
    decreases configured.len() - n,
{
    if n < configured.len() {
        assert(configured.take(n + 1).drop_last() =~= configured.take(n));
        lemma_vips_stay_err(gateway, configured, n + 1);
    } else {
        assert(configured.take(n) =~= configured);
    }
}

/// Merges the addresses that listeners answer on.
pub fn merge_vip_ips(gateway: u32, configured: &[IpAddr], shared: Option<u32>) -> (vips: Result<
    Vec<u32>,
    ModelError,
>)
    ensures
        match (vips, merged_vips(gateway, configured@, shared)) {
            (Ok(vips), Ok(list)) => vips@ == list,
            (Err(error), Err(fault)) => error == fault,
            _ => false,
        },
{
    let mut vips: Vec<u32> = Vec::new();
    vips.push(gateway);
    assert(vips@ =~= seq![gateway]);
    let mut i: usize = 0;
    while i < configured.len()
        invariant
            i <= configured.len(),
            configured_vips(gateway, configured@.take(i as int)) == Ok::<Seq<u32>, ModelError>(
                vips@,
            ),
        decreases configured.len() - i,
    {
        assert(configured@.take(i + 1).drop_last() =~= configured@.take(i as int));
        match ipv4_addr(configured[i]) {
            Ok(vip) => push_unique(&mut vips, vip),
            Err(error) => {
                proof {
                    lemma_vips_stay_err(gateway, configured@, i + 1);
                }
                return Err(error);
            },
        }
        i += 1;
    }
    assert(configured@.take(configured@.len() as int) =~= configured@);
    if let Some(vip) = shared {
        push_unique(&mut vips, vip);
    }
    Ok(vips)
}

/// The address that a gateway pair shares on the local network.
pub open spec fn shared_vip(ha: Option<GatewayHaRuntimeConfig>) -> Option<u32> {
    match ha {
        None => None,
        Some(ha) => if !ha.enabled || ha.vip.provider != VipProvider::L2 {
            None
        } else {
            match ha.vip.private_vip {
                None => None,
                Some(text) => match ip_value(text@) {
                    None => None,
                    Some(ip) => match usable_ipv4(ip) {
                        Ok(vip) => Some(vip),
                        Err(_) => None,
                    },
                },
            }
        },
    }
}

fn find_shared_vip(ha: &Option<GatewayHaRuntimeConfig>) -> (vip: Option<u32>)
    ensures
        vip == shared_vip(*ha),
{
    match ha {
        None => None,
        Some(ha) => {
            if !ha.enabled || ha.vip.provider != VipProvider::L2 {
                return None;
            }
            match &ha.vip.private_vip {
                None => None,
                Some(text) => {
                    let chars = chars_of(text.as_str());
                    match parse_ip(chars.as_slice()) {
                        None => None,
                        Some(ip) => match ipv4_addr(ip) {
                            Ok(vip) => Some(vip),
                            Err(_) => None,
                        },
                    }
                },
            }
        },
    }
}

/// The addresses that listeners answer on.
pub open spec fn effective_vips(cfg: Config, configured: Seq<IpAddr>) -> Result<
    Seq<u32>,
    ModelError,
> {
    match usable_ipv4(cfg.network.gateway_ip) {
        Err(_) => Err(ModelError::Gateway),
        Ok(gateway) => merged_vips(gateway, configured, shared_vip(cfg.ha)),
    }
}

/// The addresses that listeners answer on: the gateway's own, the configured
/// ones, and the one that a gateway pair shares, which a backup has too.
pub fn effective_vip_ips(cfg: &Config, configured: &[IpAddr]) -> (vips: Result<Vec<u32>, ModelError>)
    ensures
        match (vips, effective_vips(*cfg, configured@)) {
            (Ok(vips), Ok(list)) => vips@ == list,
            (Err(error), Err(fault)) => error == fault,
            _ => false,
        },
{
    match ipv4_addr(cfg.network.gateway_ip) {
        Err(_) => Err(ModelError::Gateway),
        Ok(gateway) => merge_vip_ips(gateway, configured, find_shared_vip(&cfg.ha)),
    }
}

// ---------------------------------------------------------------------------
// Listeners
// ---------------------------------------------------------------------------

/// The first group of a name.
pub open spec fn first_group(groups: Seq<TargetGroup>, name: Seq<char>) -> Option<TargetGroup>
    decreases groups.len(),
{
    if groups.len() == 0 {
        None
    } else if groups[0].name@ == name {
        Some(groups[0])
    } else {
        first_group(groups.skip(1), name)
    }
}

/// Finds the first group of a name.
pub fn find_group(groups: &[TargetGroup], name: &str) -> (at: Option<usize>)
    ensures
        match at {
            Some(i) => i < groups.len() && first_group(groups@, name@) == Some(groups@[i as int]),
            None => first_group(groups@, name@) is None,
        },
{
    let mut i: usize = 0;
    assert(groups@.skip(0) =~= groups@);
    while i < groups.len()
        invariant
            i <= groups.len(),
            first_group(groups@, name@) == first_group(groups@.skip(i as int), name@),
        decreases groups.len() - i,
    {
        assert(groups@.skip(i as int).skip(1) =~= groups@.skip(i + 1));
        if same_text(groups[i].name.as_str(), name) {
            return Some(i);
        }
        i += 1;
    }
    None
}

/// The targets of a group, with the port that a listener forwards to.
pub open spec fn group_targets(targets: Seq<BackendTarget>, port: u16) -> Result<
    Seq<NativeTarget>,
    ModelError,
>
    decreases targets.len(),
{
    if targets.len() == 0 {
        Ok(Seq::empty())
    } else {
        match group_targets(targets.drop_last(), port) {
            Err(error) => Err(error),
            Ok(list) => match usable_ipv4(targets.last().address) {
                Err(error) => Err(error),
                Ok(address) => Ok(
                    list.push(
                        NativeTarget {
                            address,
                            port,
                            weight: targets.last().weight,
                            state: NativeTargetState::Active,
                        },
                    ),
                ),
            },
        }
    }
}

/// A listener of the datapath at one address and protocol.
pub open spec fn native_listener(
    cfg: Config,
    listener: Listener,
    group: TargetGroup,
    targets: Seq<NativeTarget>,
    vip_ip: u32,
    protocol: Protocol,
) -> NativeListenerView {
    NativeListenerView {
        name: listener.name@,
        target_group: group.name@,
        key: NativeListenerKey {
            vip_ip,
            vip_port: listener.port,
            protocol: native_protocol(protocol),
        },
        select: listener.select,
        inactive_timeout_secs: match listener.inactive_timeout {
            Some(secs) => secs,
            None => DEFAULT_INACTIVE_TIMEOUT,
        },
        dscp: cfg.network.dscp,
        targets,
    }
}

/// A listener at one address, for each of its protocols.
pub open spec fn at_vip(
    cfg: Config,
    listener: Listener,
    group: TargetGroup,
    targets: Seq<NativeTarget>,
    vip_ip: u32,
) -> Seq<NativeListenerView> {
    listener.protocols@.map_values(
        |protocol: Protocol| native_listener(cfg, listener, group, targets, vip_ip, protocol),
    )
}

/// A listener at every address, for each of its protocols.
pub open spec fn at_vips(
    cfg: Config,
    listener: Listener,
    group: TargetGroup,
    targets: Seq<NativeTarget>,
    vips: Seq<u32>,
) -> Seq<NativeListenerView>
    decreases vips.len(),
{
    if vips.len() == 0 {
        Seq::empty()
    } else {
        at_vips(cfg, listener, group, targets, vips.drop_last()) + at_vip(
            cfg,
            listener,
            group,
            targets,
            vips.last(),
        )
    }
}

/// What one listener comes to. A group without targets gives no listener and is
/// no error: it may be waiting for a backend.
pub open spec fn expanded(cfg: Config, listener: Listener, group: TargetGroup) -> Result<
    Seq<NativeListenerView>,
    ModelError,
> {
    match group_targets(group.targets@, listener.target_port) {
        Err(error) => Err(error),
        Ok(targets) => if targets.len() == 0 {
            Ok(Seq::empty())
        } else {
            match effective_vips(cfg, listener.vip_ips@) {
                Err(error) => Err(error),
                Ok(vips) => Ok(at_vips(cfg, listener, group, targets, vips)),
            }
        },
    }
}

/// What listeners come to, in order.
pub open spec fn expanded_all(cfg: Config, listeners: Seq<Listener>) -> Result<
    Seq<NativeListenerView>,
    ModelError,
>
    decreases listeners.len(),
{
    if listeners.len() == 0 {
        Ok(Seq::empty())
    } else {
        match expanded_all(cfg, listeners.drop_last()) {
            Err(error) => Err(error),
            Ok(before) => match first_group(
                cfg.target_groups@,
                listeners.last().target_group@,
            ) {
                None => Err(ModelError::MissingGroup),
                Some(group) => match expanded(cfg, listeners.last(), group) {
                    Err(error) => Err(error),
                    Ok(list) => Ok(before + list),
                },
            },
        }
    }
}

proof fn lemma_targets_stay_err(targets: Seq<BackendTarget>, port: u16, n: int)
    requires
        0 <= n <= targets.len(),
        group_targets(targets.take(n), port) is Err,
    ensures
        group_targets(targets, port) == group_targets(targets.take(n), port),
    decreases targets.len() - n,
{
    if n < targets.len() {
        assert(targets.take(n + 1).drop_last() =~= targets.take(n));
        lemma_targets_stay_err(targets, port, n + 1);
    } else {
        assert(targets.take(n) =~= targets);
    }
}

proof fn lemma_expanded_stay_err(cfg: Config, listeners: Seq<Listener>, n: int)
    requires
        0 <= n <= listeners.len(),
        expanded_all(cfg, listeners.take(n)) is Err,
    ensures
        expanded_all(cfg, listeners) == expanded_all(cfg, listeners.take(n)),
    decreases listeners.len() - n,
{
    if n < listeners.len() {
        assert(listeners.take(n + 1).drop_last() =~= listeners.take(n));
        lemma_expanded_stay_err(cfg, listeners, n + 1);
    } else {
        assert(listeners.take(n) =~= listeners);
    }
}

fn convert_targets(targets: &[BackendTarget], port: u16) -> (list: Result<
    Vec<NativeTarget>,
    ModelError,
>)
    ensures
        match (list, group_targets(targets@, port)) {
            (Ok(list), Ok(views)) => list@ == views,
            (Err(error), Err(fault)) => error == fault,
            _ => false,
        },
{
    let mut list: Vec<NativeTarget> = Vec::new();
    let mut i: usize = 0;
    while i < targets.len()
        invariant
            i <= targets.len(),
            group_targets(targets@.take(i as int), port) == Ok::<Seq<NativeTarget>, ModelError>(
                list@,
            ),
        decreases targets.len() - i,
    {
        assert(targets@.take(i + 1).drop_last() =~= targets@.take(i as int));
        match ipv4_addr(targets[i].address) {
            Ok(address) => list.push(
                NativeTarget {
                    address,
                    port,
                    weight: targets[i].weight,
                    state: NativeTargetState::Active,
                },
            ),
            Err(error) => {
                proof {
                    lemma_targets_stay_err(targets@, port, i + 1);
                }
                return Err(error);
            },
        }
        i += 1;
    }
    assert(targets@.take(targets@.len() as int) =~= targets@);
    Ok(list)
}

fn copy_targets(targets: &[NativeTarget]) -> (copy: Vec<NativeTarget>)
    ensures
        copy@ == targets@,
{
    let mut copy: Vec<NativeTarget> = Vec::new();
    let mut i: usize = 0;
    while i < targets.len()
        invariant
            i <= targets.len(),
            copy@ == targets@.take(i as int),
        decreases targets.len() - i,
    {
        copy.push(targets[i]);
        i += 1;
        assert(copy@ =~= targets@.take(i as int));
    }
    assert(targets@.take(targets@.len() as int) =~= targets@);
    copy
}

fn push_at_vip(
    out: &mut Vec<NativeListener>,
    cfg: &Config,
    listener: &Listener,
    group: &TargetGroup,
    targets: &[NativeTarget],
    vip_ip: u32,
)
    ensures
        listener_views(final(out)@) == listener_views(old(out)@) + at_vip(
            *cfg,
            *listener,
            *group,
            targets@,
            vip_ip,
        ),
{
    let ghost before = listener_views(out@);
    let ghost all = at_vip(*cfg, *listener, *group, targets@, vip_ip);
    let mut i: usize = 0;
    assert(before + all.take(0) =~= before);
    while i < listener.protocols.len()
        invariant
            i <= listener.protocols.len(),
            all == at_vip(*cfg, *listener, *group, targets@, vip_ip),
            listener_views(out@) == before + all.take(i as int),
        decreases listener.protocols.len() - i,
    {
        let protocol = match listener.protocols[i] {
            Protocol::Tcp => NativeProtocol::Tcp,
            Protocol::Udp => NativeProtocol::Udp,
        };
        let inactive_timeout_secs: u32 = match listener.inactive_timeout {
            Some(secs) => secs,
            None => DEFAULT_INACTIVE_TIMEOUT,
        };
        let native = NativeListener {
            name: listener.name.clone(),
            target_group: group.name.clone(),
            key: NativeListenerKey { vip_ip, vip_port: listener.port, protocol },
            select: listener.select,
            inactive_timeout_secs,
            dscp: cfg.network.dscp,
            targets: copy_targets(targets),
        };
        let ghost view = native@;
        let ghost kept = out@;
        out.push(native);
        assert(view == all[i as int]);
        assert(listener_views(out@) =~= listener_views(kept).push(view));
        assert(all.take(i + 1) =~= all.take(i as int).push(view));
        assert((before + all.take(i as int)).push(view) =~= before + all.take(i + 1));
        i += 1;
    }
    assert(all.take(all.len() as int) =~= all);
}

fn push_expanded(
    out: &mut Vec<NativeListener>,
    cfg: &Config,
    listener: &Listener,
    group: &TargetGroup,
) -> (ok: Result<(), ModelError>)
    ensures
        match (ok, expanded(*cfg, *listener, *group)) {
            (Ok(()), Ok(list)) => listener_views(final(out)@) == listener_views(old(out)@) + list,
            (Err(error), Err(fault)) => error == fault,
            _ => false,
        },
{
    let targets = match convert_targets(group.targets.as_slice(), listener.target_port) {
        Ok(targets) => targets,
        Err(error) => {
            return Err(error);
        },
    };
    let ghost before = listener_views(out@);
    if targets.len() == 0 {
        assert(before + Seq::<NativeListenerView>::empty() =~= before);
        return Ok(());
    }
    let vips = match effective_vip_ips(cfg, listener.vip_ips.as_slice()) {
        Ok(vips) => vips,
        Err(error) => {
            return Err(error);
        },
    };
    let mut i: usize = 0;
    assert(before + at_vips(*cfg, *listener, *group, targets@, vips@.take(0)) =~= before);
    while i < vips.len()
        invariant
            i <= vips.len(),
            listener_views(out@) == before + at_vips(
                *cfg,
                *listener,
                *group,
                targets@,
                vips@.take(i as int),
            ),
        decreases vips.len() - i,
    {
        assert(vips@.take(i + 1).drop_last() =~= vips@.take(i as int));
        push_at_vip(out, cfg, listener, group, targets.as_slice(), vips[i]);
        assert(listener_views(out@) =~= before + at_vips(
            *cfg,
            *listener,
            *group,
            targets@,
            vips@.take(i + 1),
        ));
        i += 1;
    }
    assert(vips@.take(vips@.len() as int) =~= vips@);
    Ok(())
}

/// The listeners of the datapath: every configured listener at each of its
/// addresses and for each of its protocols.
pub fn listeners_from_config(cfg: &Config) -> (listeners: Result<Vec<NativeListener>, ModelError>)
    ensures
        match (listeners, expanded_all(*cfg, cfg.listeners@)) {
            (Ok(listeners), Ok(list)) => listener_views(listeners@) == list,
            (Err(error), Err(fault)) => error == fault,
            _ => false,
        },
{
    let mut out: Vec<NativeListener> = Vec::new();
    let mut i: usize = 0;
    assert(listener_views(out@) =~= Seq::<NativeListenerView>::empty());
    while i < cfg.listeners.len()
        invariant
            i <= cfg.listeners.len(),
            expanded_all(*cfg, cfg.listeners@.take(i as int)) == Ok::<
                Seq<NativeListenerView>,
                ModelError,
            >(listener_views(out@)),
        decreases cfg.listeners.len() - i,
    {
        let listener = &cfg.listeners[i];
        assert(cfg.listeners@.take(i + 1).drop_last() =~= cfg.listeners@.take(i as int));
        match find_group(cfg.target_groups.as_slice(), listener.target_group.as_str()) {
            None => {
                proof {
                    lemma_expanded_stay_err(*cfg, cfg.listeners@, i + 1);
                }
                return Err(ModelError::MissingGroup);
            },
            Some(at) => {
                if let Err(error) = push_expanded(&mut out, cfg, listener, &cfg.target_groups[at]) {
                    proof {
                        lemma_expanded_stay_err(*cfg, cfg.listeners@, i + 1);
                    }
                    return Err(error);
                }
            },
        }
        i += 1;
    }
    assert(cfg.listeners@.take(cfg.listeners@.len() as int) =~= cfg.listeners@);
    Ok(out)
}

// ---------------------------------------------------------------------------
// Laws
// ---------------------------------------------------------------------------

/// The addresses of a listener begin with the gateway's own and hold none twice.
pub proof fn law_vips_are_distinct(gateway: u32, configured: Seq<IpAddr>, shared: Option<u32>)
    ensures
        merged_vips(gateway, configured, shared) matches Ok(vips) ==> vips.len() > 0 && vips[0]
            == gateway && vips.no_duplicates(),
    decreases configured.len(),
{
    lemma_configured_distinct(gateway, configured);
}

proof fn lemma_configured_distinct(gateway: u32, configured: Seq<IpAddr>)
    ensures
        configured_vips(gateway, configured) matches Ok(vips) ==> vips.len() > 0 && vips[0]
            == gateway && vips.no_duplicates(),
    decreases configured.len(),
{
    if configured.len() > 0 {
        lemma_configured_distinct(gateway, configured.drop_last());
    }
}

/// A target keeps its configured address and weight; its port is the one that
/// the listener forwards to.
pub proof fn law_targets_keep_address_and_weight(targets: Seq<BackendTarget>, port: u16, i: int)
    requires
        group_targets(targets, port) is Ok,
        0 <= i < targets.len(),
    ensures
        ({
            let list = group_targets(targets, port)->Ok_0;
            &&& list.len() == targets.len()
            &&& targets[i].address == IpAddr::V4(list[i].address)
            &&& list[i].weight == targets[i].weight
            &&& list[i].port == port
        }),
    decreases targets.len(),
{
    lemma_group_targets_len(targets, port);
    if i < targets.len() - 1 {
        law_targets_keep_address_and_weight(targets.drop_last(), port, i);
        lemma_group_targets_len(targets.drop_last(), port);
    }
}

proof fn lemma_group_targets_len(targets: Seq<BackendTarget>, port: u16)
    ensures
        group_targets(targets, port) matches Ok(list) ==> list.len() == targets.len(),
    decreases targets.len(),
{
    if targets.len() > 0 {
        lemma_group_targets_len(targets.drop_last(), port);
    }
}

proof fn lemma_first_group(groups: Seq<TargetGroup>, name: Seq<char>, g: int)
    requires
        0 <= g < groups.len(),
        groups[g].name@ == name,
        forall|m: int| 0 <= m < g ==> (#[trigger] groups[m]).name@ != name,
    ensures
        first_group(groups, name) == Some(groups[g]),
    decreases groups.len(),
{
    if g > 0 {
        let rest = groups.skip(1);
        assert(groups[0].name@ != name);
        assert(rest[g - 1] == groups[g]);
        assert forall|m: int| 0 <= m < g - 1 implies (#[trigger] rest[m]).name@ != name by {
            assert(rest[m] == groups[m + 1]);
        }
        lemma_first_group(rest, name, g - 1);
    }
}

/// Where the first group of a name stands.
proof fn lemma_group_at(groups: Seq<TargetGroup>, name: Seq<char>) -> (g: int)
    requires
        first_group(groups, name) is Some,
    ensures
        0 <= g < groups.len(),
        first_group(groups, name) == Some(groups[g]),
        groups[g].name@ == name,
        forall|m: int| 0 <= m < g ==> (#[trigger] groups[m]).name@ != name,
    decreases groups.len(),
{
    if groups[0].name@ == name {
        0
    } else {
        let rest = groups.skip(1);
        let g = lemma_group_at(rest, name) + 1;
        assert forall|m: int| 0 <= m < g implies (#[trigger] groups[m]).name@ != name by {
            if m > 0 {
                assert(rest[m - 1] == groups[m]);
            }
        }
        g
    }
}

/// An address is one that a listener answers on if and only if it is the gateway's own, a
/// configured one or the shared one.
pub proof fn law_vips_are_those_asked_for(
    gateway: u32,
    configured: Seq<IpAddr>,
    shared: Option<u32>,
    vip: u32,
)
    ensures
        merged_vips(gateway, configured, shared) matches Ok(vips) ==> (vips.contains(vip) <==> vip
            == gateway || configured.contains(IpAddr::V4(vip)) || shared == Some(vip)),
        merged_vips(gateway, configured, shared) is Ok <==> forall|i: int|
            0 <= i < configured.len() ==> (match #[trigger] configured[i] {
                IpAddr::V4(v4) => v4 != 0,
                IpAddr::V6(_) => false,
            }),
{
    lemma_configured_members(gateway, configured, vip);
    if let (Ok(vips), Some(x)) = (configured_vips(gateway, configured), shared) {
        lemma_with_unique(vips, x, vip);
    }
}

proof fn lemma_with_unique(s: Seq<u32>, x: u32, y: u32)
    ensures
        with_unique(s, x).contains(y) <==> s.contains(y) || y == x,
{
    if !s.contains(x) {
        let t = s.push(x);
        assert(t[t.len() - 1] == x);
        if s.contains(y) {
            let i = choose|i: int| 0 <= i < s.len() && s[i] == y;
            assert(t[i] == y);
        }
        if t.contains(y) {
            let i = choose|i: int| 0 <= i < t.len() && t[i] == y;
            if i < s.len() {
                assert(s[i] == y);
            }
        }
    }
}

proof fn lemma_configured_members(gateway: u32, configured: Seq<IpAddr>, vip: u32)
    ensures
        configured_vips(gateway, configured) matches Ok(vips) ==> (vips.contains(vip) <==> vip
            == gateway || configured.contains(IpAddr::V4(vip))),
        configured_vips(gateway, configured) is Ok <==> forall|i: int|
            0 <= i < configured.len() ==> (match #[trigger] configured[i] {
                IpAddr::V4(v4) => v4 != 0,
                IpAddr::V6(_) => false,
            }),
    decreases configured.len(),
{
    if configured.len() == 0 {
        assert(seq![gateway][0] == gateway);
    } else {
        let front = configured.drop_last();
        let last = configured[configured.len() - 1];
        lemma_configured_members(gateway, front, vip);
        assert(forall|i: int| 0 <= i < front.len() ==> front[i] == #[trigger] configured[i]);
        if let (Ok(vips), Ok(x)) = (configured_vips(gateway, front), usable_ipv4(last)) {
            lemma_with_unique(vips, x, vip);
            if configured.contains(IpAddr::V4(vip)) && vip != x {
                let i = choose|i: int| 0 <= i < configured.len() && configured[i] == IpAddr::V4(vip);
                assert(front[i] == IpAddr::V4(vip));
            }
            if front.contains(IpAddr::V4(vip)) {
                let i = choose|i: int| 0 <= i < front.len() && front[i] == IpAddr::V4(vip);
                assert(configured[i] == IpAddr::V4(vip));
            }
        }
    }
}

/// Where a listener at an address and for a protocol stands.
proof fn lemma_at_vips(
    cfg: Config,
    listener: Listener,
    group: TargetGroup,
    targets: Seq<NativeTarget>,
    vips: Seq<u32>,
    v: int,
    p: int,
) -> (k: int)
    requires
        0 <= v < vips.len(),
        0 <= p < listener.protocols@.len(),
    ensures
        0 <= k < at_vips(cfg, listener, group, targets, vips).len(),
        at_vips(cfg, listener, group, targets, vips)[k] == native_listener(
            cfg,
            listener,
            group,
            targets,
            vips[v],
            listener.protocols@[p],
        ),
    decreases vips.len(),
{
    let front = at_vips(cfg, listener, group, targets, vips.drop_last());
    if v < vips.len() - 1 {
        lemma_at_vips(cfg, listener, group, targets, vips.drop_last(), v, p)
    } else {
        front.len() + p
    }
}

/// What a listener of the datapath at one of several addresses comes from.
proof fn lemma_from_vips(
    cfg: Config,
    listener: Listener,
    group: TargetGroup,
    targets: Seq<NativeTarget>,
    vips: Seq<u32>,
    k: int,
) -> (at: (int, int))
    requires
        0 <= k < at_vips(cfg, listener, group, targets, vips).len(),
    ensures
        0 <= at.0 < vips.len(),
        0 <= at.1 < listener.protocols@.len(),
        at_vips(cfg, listener, group, targets, vips)[k] == native_listener(
            cfg,
            listener,
            group,
            targets,
            vips[at.0],
            listener.protocols@[at.1],
        ),
    decreases vips.len(),
{
    let front = at_vips(cfg, listener, group, targets, vips.drop_last());
    if k < front.len() {
        lemma_from_vips(cfg, listener, group, targets, vips.drop_last(), k)
    } else {
        (vips.len() - 1, k - front.len())
    }
}

proof fn lemma_distinct_keys(
    cfg: Config,
    listener: Listener,
    group: TargetGroup,
    targets: Seq<NativeTarget>,
    vips: Seq<u32>,
    i: int,
    j: int,
)
    requires
        vips.no_duplicates(),
        listener.protocols@.no_duplicates(),
        0 <= i < j < at_vips(cfg, listener, group, targets, vips).len(),
    ensures
        at_vips(cfg, listener, group, targets, vips)[i].key != at_vips(
            cfg,
            listener,
            group,
            targets,
            vips,
        )[j].key,
    decreases vips.len(),
{
    let rest = vips.drop_last();
    let front = at_vips(cfg, listener, group, targets, rest);
    if j < front.len() {
        lemma_distinct_keys(cfg, listener, group, targets, rest, i, j);
    } else if i < front.len() {
        let at = lemma_from_vips(cfg, listener, group, targets, rest, i);
        assert(vips[at.0] != vips[vips.len() - 1]);
    } else {
        assert(listener.protocols@[i - front.len()] != listener.protocols@[j - front.len()]);
    }
}

/// What one listener comes to stands among what all come to.
proof fn lemma_expanded_part(cfg: Config, listeners: Seq<Listener>, l: int) -> (start: int)
    requires
        expanded_all(cfg, listeners) is Ok,
        0 <= l < listeners.len(),
    ensures
        first_group(cfg.target_groups@, listeners[l].target_group@) is Some,
        expanded(
            cfg,
            listeners[l],
            first_group(cfg.target_groups@, listeners[l].target_group@)->0,
        ) is Ok,
        ({
            let all = expanded_all(cfg, listeners)->Ok_0;
            let part = expanded(
                cfg,
                listeners[l],
                first_group(cfg.target_groups@, listeners[l].target_group@)->0,
            )->Ok_0;
            &&& 0 <= start <= start + part.len() <= all.len()
            &&& forall|k: int| 0 <= k < part.len() ==> #[trigger] part[k] == all[start + k]
        }),
    decreases listeners.len(),
{
    let front = listeners.drop_last();
    let before = expanded_all(cfg, front)->Ok_0;
    if l < front.len() {
        assert(front[l] == listeners[l]);
        lemma_expanded_part(cfg, front, l)
    } else {
        before.len() as int
    }
}

/// Which configured listener a listener of the datapath comes from.
proof fn lemma_from_expanded(cfg: Config, listeners: Seq<Listener>, k: int) -> (at: (int, int))
    requires
        expanded_all(cfg, listeners) is Ok,
        0 <= k < expanded_all(cfg, listeners)->Ok_0.len(),
    ensures
        0 <= at.0 < listeners.len(),
        first_group(cfg.target_groups@, listeners[at.0].target_group@) is Some,
        ({
            let group = first_group(cfg.target_groups@, listeners[at.0].target_group@)->0;
            match expanded(cfg, listeners[at.0], group) {
                Ok(part) => 0 <= at.1 < part.len() && part[at.1] == expanded_all(
                    cfg,
                    listeners,
                )->Ok_0[k],
                Err(_) => false,
            }
        }),
    decreases listeners.len(),
{
    let front = listeners.drop_last();
    let before = expanded_all(cfg, front)->Ok_0;
    if k < before.len() {
        let at = lemma_from_expanded(cfg, front, k);
        assert(front[at.0] == listeners[at.0]);
        at
    } else {
        (listeners.len() - 1, k - before.len())
    }
}

/// Whether the gateway, a listener or the pair asks for an address: the gateway's own, one
/// that the listener names, or the one that the pair shares on the local network.
pub open spec fn asks_for_vip(cfg: Config, listener: Listener, vip: u32) -> bool {
    ||| cfg.network.gateway_ip == IpAddr::V4(vip)
    ||| listener.vip_ips@.contains(IpAddr::V4(vip))
    ||| vip != 0 && (cfg.ha matches Some(ha) && ha.enabled && ha.vip.provider == VipProvider::L2
        && (ha.vip.private_vip matches Some(text) && ip_value(text@) == Some(IpAddr::V4(vip))))
}

/// Every configured listener whose group has targets answers on each address that is asked
/// for and by each of its protocols: on the address, the port of the listener, and TCP for
/// TCP, UDP for UDP. It forwards to the targets of the first group of the name, at the port
/// of the listener, with their weights. It stands at the place given back.
pub proof fn law_listeners_answer_everywhere(
    cfg: Config,
    listeners: Seq<Listener>,
    l: int,
    g: int,
    vip: u32,
    p: int,
) -> (k: int)
    requires
        expanded_all(cfg, listeners) is Ok,
        0 <= l < listeners.len(),
        0 <= g < cfg.target_groups@.len(),
        cfg.target_groups@[g].name@ == listeners[l].target_group@,
        forall|m: int|
            0 <= m < g ==> (#[trigger] cfg.target_groups@[m]).name@ != listeners[l].target_group@,
        cfg.target_groups@[g].targets@.len() > 0,
        asks_for_vip(cfg, listeners[l], vip),
        0 <= p < listeners[l].protocols@.len(),
    ensures
        ({
            let list = expanded_all(cfg, listeners)->Ok_0;
            let listener = listeners[l];
            let targets = cfg.target_groups@[g].targets@;
            &&& 0 <= k < list.len()
            &&& list[k].name == listener.name@
            &&& list[k].target_group == listener.target_group@
            &&& list[k].key.vip_ip == vip
            &&& list[k].key.vip_port == listener.port
            &&& listener.protocols@[p] == Protocol::Tcp ==> list[k].key.protocol
                == NativeProtocol::Tcp
            &&& listener.protocols@[p] == Protocol::Udp ==> list[k].key.protocol
                == NativeProtocol::Udp
            &&& list[k].select == listener.select
            &&& listener.inactive_timeout matches Some(secs) ==> list[k].inactive_timeout_secs
                == secs
            &&& listener.inactive_timeout is None ==> list[k].inactive_timeout_secs == 240
            &&& list[k].dscp == cfg.network.dscp
            &&& list[k].targets.len() == targets.len()
            &&& forall|t: int|
                0 <= t < targets.len() ==> {
                    &&& (#[trigger] targets[t]).address == IpAddr::V4(list[k].targets[t].address)
                    &&& list[k].targets[t].port == listener.target_port
                    &&& list[k].targets[t].weight == targets[t].weight
                    &&& list[k].targets[t].state == NativeTargetState::Active
                }
        }),
{
    let listener = listeners[l];
    let group = cfg.target_groups@[g];
    lemma_first_group(cfg.target_groups@, listener.target_group@, g);
    let start = lemma_expanded_part(cfg, listeners, l);
    let targets = group_targets(group.targets@, listener.target_port)->Ok_0;
    lemma_group_targets_len(group.targets@, listener.target_port);
    let vips = effective_vips(cfg, listener.vip_ips@)->Ok_0;
    let gateway = usable_ipv4(cfg.network.gateway_ip)->Ok_0;
    law_vips_are_those_asked_for(gateway, listener.vip_ips@, shared_vip(cfg.ha), vip);
    assert(vips.contains(vip));
    let v = choose|v: int| 0 <= v < vips.len() && vips[v] == vip;
    let k = lemma_at_vips(cfg, listener, group, targets, vips, v, p);
    let list = expanded_all(cfg, listeners)->Ok_0;
    let part = expanded(cfg, listener, group)->Ok_0;
    assert(part[k] == list[start + k]);
    assert forall|t: int| 0 <= t < group.targets@.len() implies {
        &&& (#[trigger] group.targets@[t]).address == IpAddr::V4(targets[t].address)
        &&& targets[t].port == listener.target_port
        &&& targets[t].weight == group.targets@[t].weight
        &&& targets[t].state == NativeTargetState::Active
    } by {
        law_targets_keep_address_and_weight(group.targets@, listener.target_port, t);
        lemma_targets_are_active(group.targets@, listener.target_port, t);
    }
    start + k
}

proof fn lemma_targets_are_active(targets: Seq<BackendTarget>, port: u16, i: int)
    requires
        group_targets(targets, port) is Ok,
        0 <= i < targets.len(),
    ensures
        group_targets(targets, port)->Ok_0.len() == targets.len(),
        group_targets(targets, port)->Ok_0[i].state == NativeTargetState::Active,
    decreases targets.len(),
{
    lemma_group_targets_len(targets, port);
    lemma_group_targets_len(targets.drop_last(), port);
    if i < targets.len() - 1 {
        lemma_targets_are_active(targets.drop_last(), port, i);
    }
}

/// A listener of the datapath is there only for a configured listener, an address that is
/// asked for and one of its protocols. The listener and the protocol stand at the places
/// given back.
pub proof fn law_every_listener_is_configured(cfg: Config, listeners: Seq<Listener>, k: int) -> (at: (
    int,
    int,
))
    requires
        expanded_all(cfg, listeners) is Ok,
        0 <= k < expanded_all(cfg, listeners)->Ok_0.len(),
    ensures
        ({
            let native = expanded_all(cfg, listeners)->Ok_0[k];
            let listener = listeners[at.0];
            &&& 0 <= at.0 < listeners.len()
            &&& 0 <= at.1 < listener.protocols@.len()
            &&& native.name == listener.name@
            &&& native.target_group == listener.target_group@
            &&& asks_for_vip(cfg, listener, native.key.vip_ip)
            &&& native.key.vip_port == listener.port
            &&& native.key.protocol == NativeProtocol::Tcp <==> listener.protocols@[at.1]
                == Protocol::Tcp
            &&& native.key.protocol == NativeProtocol::Udp <==> listener.protocols@[at.1]
                == Protocol::Udp
            &&& native.targets.len() > 0
        }),
{
    let at = lemma_from_expanded(cfg, listeners, k);
    let listener = listeners[at.0];
    let group = first_group(cfg.target_groups@, listener.target_group@)->0;
    let g = lemma_group_at(cfg.target_groups@, listener.target_group@);
    let targets = group_targets(group.targets@, listener.target_port)->Ok_0;
    let vips = effective_vips(cfg, listener.vip_ips@)->Ok_0;
    let from = lemma_from_vips(cfg, listener, group, targets, vips, at.1);
    let gateway = usable_ipv4(cfg.network.gateway_ip)->Ok_0;
    assert(vips.contains(vips[from.0]));
    law_vips_are_those_asked_for(
        gateway,
        listener.vip_ips@,
        shared_vip(cfg.ha),
        vips[from.0],
    );
    (at.0, from.1)
}

/// A listener that names each protocol once gives no key twice.
pub proof fn law_keys_of_a_listener_are_distinct(
    cfg: Config,
    listener: Listener,
    group: TargetGroup,
    i: int,
    j: int,
)
    requires
        listener.protocols@.no_duplicates(),
        expanded(cfg, listener, group) is Ok,
        0 <= i < expanded(cfg, listener, group)->Ok_0.len(),
        0 <= j < expanded(cfg, listener, group)->Ok_0.len(),
        i != j,
    ensures
        expanded(cfg, listener, group)->Ok_0[i].key != expanded(cfg, listener, group)->Ok_0[j].key,
{
    let targets = group_targets(group.targets@, listener.target_port)->Ok_0;
    let vips = effective_vips(cfg, listener.vip_ips@)->Ok_0;
    let gateway = usable_ipv4(cfg.network.gateway_ip)->Ok_0;
    law_vips_are_distinct(gateway, listener.vip_ips@, shared_vip(cfg.ha));
    if i < j {
        lemma_distinct_keys(cfg, listener, group, targets, vips, i, j);
    } else {
        lemma_distinct_keys(cfg, listener, group, targets, vips, j, i);
    }
}

proof fn lemma_targets_accepted(targets: Seq<BackendTarget>, port: u16)
    ensures
        group_targets(targets, port) is Ok <==> forall|t: int|
            0 <= t < targets.len() ==> (match (#[trigger] targets[t]).address {
                IpAddr::V4(v4) => v4 != 0,
                IpAddr::V6(_) => false,
            }),
    decreases targets.len(),
{
    if targets.len() > 0 {
        let front = targets.drop_last();
        lemma_targets_accepted(front, port);
        assert(forall|t: int| 0 <= t < front.len() ==> front[t] == #[trigger] targets[t]);
        assert(targets[targets.len() - 1] == targets.last());
    }
}

/// A listener is accepted if and only if every target of its group has an IPv4 address
/// other than 0.0.0.0 and, where there are targets, the gateway and every address that the
/// listener names have one too. A group without targets is waiting and gives nothing.
pub proof fn law_usable_listeners_are_accepted(cfg: Config, listener: Listener, group: TargetGroup)
    ensures
        expanded(cfg, listener, group) is Ok <==> {
            &&& forall|t: int|
                0 <= t < group.targets@.len() ==> (match (#[trigger] group.targets@[t]).address {
                    IpAddr::V4(v4) => v4 != 0,
                    IpAddr::V6(_) => false,
                })
            &&& group.targets@.len() > 0 ==> {
                &&& cfg.network.gateway_ip matches IpAddr::V4(v4) && v4 != 0
                &&& forall|i: int|
                    0 <= i < listener.vip_ips@.len() ==> (match #[trigger] listener.vip_ips@[i] {
                        IpAddr::V4(v4) => v4 != 0,
                        IpAddr::V6(_) => false,
                    })
            }
        },
        group.targets@.len() == 0 ==> expanded(cfg, listener, group) == Ok::<
            Seq<NativeListenerView>,
            ModelError,
        >(Seq::empty()),
{
    lemma_targets_accepted(group.targets@, listener.target_port);
    lemma_group_targets_len(group.targets@, listener.target_port);
    if let Ok(gateway) = usable_ipv4(cfg.network.gateway_ip) {
        law_vips_are_those_asked_for(gateway, listener.vip_ips@, shared_vip(cfg.ha), 0);
    }
    if group.targets@.len() == 0 {
        assert(group_targets(group.targets@, listener.target_port)->Ok_0 =~= Seq::empty());
    }
}

/// A configuration is accepted if and only if every listener names a group that is there
/// and is accepted with the first one of the name.
pub proof fn law_configuration_is_accepted(cfg: Config, listeners: Seq<Listener>)
    ensures
        expanded_all(cfg, listeners) is Ok <==> forall|l: int|
            0 <= l < listeners.len() ==> (match first_group(
                cfg.target_groups@,
                (#[trigger] listeners[l]).target_group@,
            ) {
                Some(group) => expanded(cfg, listeners[l], group) is Ok,
                None => false,
            }),
    decreases listeners.len(),
{
    if listeners.len() > 0 {
        let front = listeners.drop_last();
        law_configuration_is_accepted(cfg, front);
        assert(forall|l: int| 0 <= l < front.len() ==> front[l] == #[trigger] listeners[l]);
        assert(listeners[listeners.len() - 1] == listeners.last());
    }
}

} // verus!
