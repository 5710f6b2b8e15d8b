//! How a gateway is brought into the state that its configuration asks for.
use crate::config::{Config, Listener};
use crate::native::model::{expanded_all, listeners_from_config, ModelError, NativeListenerView};
use crate::net::IpAddr;
use crate::order::{is_set_of, set_of, set_seq};
use crate::role::vxlan::{tunnel, vxlan_spec, VxlanSpec, VxlanSpecView};
use crate::text::{clone_opt_text, opt_text};
use vstd::prelude::*;

verus! {

/// How long the BPF file system is waited for, in seconds.
pub const BPFFS_WAIT_SECS: u64 = 10;

/// What a caller may choose when a gateway is set up.
#[derive(Clone, Debug)]
pub struct ApplyOptions {
    pub object: Option<String>,
    pub native_prog_id: Option<u32>,
}

impl Default for ApplyOptions {
    fn default() -> (opts: Self)
        ensures
            opts.object is None,
            opts.native_prog_id is None,
    {
        ApplyOptions { object: None, native_prog_id: None }
    }
}

/// Whether the marker of packets outlives the process.
#[derive(Clone, Copy, Debug, PartialEq, Eq, Structural)]
pub enum DscpAttachMode {
    Persistent,
    Managed,
}

/// What becomes of the marker that the process holds.
#[derive(Clone, Copy, Debug, PartialEq, Eq, Structural)]
pub enum DscpUpdate {
    Keep,
    Replace,
    Clear,
}

/// What stopped the set-up.
#[derive(Clone, Copy, Debug, PartialEq, Eq, Structural)]
pub enum GatewayFault {
    NotRoot,
    Tuning,
    Vxlan,
    Peers,
    AcceptLocal,
    LoadState,
    ProxyConfig,
    ListenerState,
    Bpffs,
    Listeners(ModelError),
    NativeDatapath,
    DscpAttach,
    SaveState,
}

/// Whether an address is the unspecified one.
pub open spec fn unspecified(ip: IpAddr) -> bool {
    match ip {
        IpAddr::V4(ip) => ip == 0,
        IpAddr::V6(ip) => ip == 0,
    }
}

fn is_unspecified(ip: IpAddr) -> (b: bool)
    ensures
        b == unspecified(ip),
{
    match ip {
        IpAddr::V4(ip) => ip == 0,
        IpAddr::V6(ip) => ip == 0,
    }
}

/// The backends that a tunnel can reach.
pub open spec fn reachable(ips: Seq<IpAddr>) -> Seq<IpAddr> {
    ips.filter(|ip: IpAddr| !unspecified(ip))
}

fn backend_peers(ips: &[IpAddr]) -> (peers: Vec<IpAddr>)
    ensures
        peers@ == reachable(ips@),
{
    let mut peers: Vec<IpAddr> = Vec::new();
    let ghost keep = |ip: IpAddr| !unspecified(ip);
    let mut i: usize = 0;
    assert(ips@.take(0).filter(keep) =~= Seq::<IpAddr>::empty()) by {
        reveal(Seq::filter);
    }
    while i < ips.len()
        invariant
            i <= ips.len(),
            keep == (|ip: IpAddr| !unspecified(ip)),
            peers@ == ips@.take(i as int).filter(keep),
        decreases ips.len() - i,
    {
        assert(ips@.take(i + 1).drop_last() =~= ips@.take(i as int));
        assert(ips@.take(i + 1).last() == ips@[i as int]);
        proof {
            reveal(Seq::filter);
        }
        if !is_unspecified(ips[i]) {
            peers.push(ips[i]);
        }
        i += 1;
    }
    assert(ips@.take(ips@.len() as int) =~= ips@);
    peers
}

/// The ports of listeners, in their order.
pub open spec fn listener_ports(listeners: Seq<Listener>) -> Seq<u32> {
    listeners.map_values(|listener: Listener| listener.port as u32)
}

/// The ports whose packets are marked: those of the listeners, ascending, each once.
pub fn dscp_ports(listeners: &[Listener]) -> (ports: Vec<u32>)
    ensures
        ports@ == set_seq(listener_ports(listeners@)),
        is_set_of(ports@, listener_ports(listeners@)),
{
    let mut all: Vec<u32> = Vec::new();
    let mut i: usize = 0;
    while i < listeners.len()
        invariant
            i <= listeners.len(),
            all@ == listener_ports(listeners@.take(i as int)),
        decreases listeners.len() - i,
    {
        all.push(listeners[i].port as u32);
        assert(all@ =~= listener_ports(listeners@.take(i + 1)));
        i += 1;
    }
    assert(listeners@.take(listeners@.len() as int) =~= listeners@);
    set_of(all.as_slice())
}

/// What the proxy configuration asks of the datapath.
#[derive(Debug)]
pub struct ProxyPlan {
    pub ports: Vec<u32>,
    /// Whether there are listeners, or why they cannot be built.
    pub listeners: Result<bool, ModelError>,
}

/// Whether there are listeners, or why they cannot be built.
pub open spec fn wants_datapath(cfg: Config) -> Result<bool, ModelError> {
    match expanded_all(cfg, cfg.listeners@) {
        Ok(list) => Ok(list.len() > 0),
        Err(fault) => Err(fault),
    }
}

/// What the proxy configuration asks of the datapath.
pub fn proxy_plan(cfg: &Config) -> (plan: ProxyPlan)
    ensures
        plan.ports@ == set_seq(listener_ports(cfg.listeners@)),
        plan.listeners == wants_datapath(*cfg),
{
    let ports = dscp_ports(cfg.listeners.as_slice());
    let listeners = match listeners_from_config(cfg) {
        Ok(list) => Ok(list.len() > 0),
        Err(fault) => Err(fault),
    };
    ProxyPlan { ports, listeners }
}

/// Where the set-up stands: what is being done.
#[derive(Clone, Copy, Debug, PartialEq, Eq, Structural)]
pub enum ApplyStage {
    Root,
    Backends,
    Tuning,
    Vxlan,
    Peers,
    AcceptLocal,
    LoadState,
    ProxyConfig,
    ListenerState,
    Ifindex,
    Bpffs,
    NativeClear,
    NativeApply,
    DscpDetach,
    DscpAttach,
    DscpInspect,
    DscpSet,
    DscpAttachOwned,
    SaveState,
    Done,
    Failed(GatewayFault),
}

/// How far a set-up has come.
pub open spec fn progress(stage: ApplyStage) -> nat {
    match stage {
        ApplyStage::Root => 0,
        ApplyStage::Backends => 1,
        ApplyStage::Tuning => 2,
        ApplyStage::Vxlan => 3,
        ApplyStage::Peers => 4,
        ApplyStage::AcceptLocal => 5,
        ApplyStage::LoadState => 6,
        ApplyStage::ProxyConfig => 7,
        ApplyStage::ListenerState => 8,
        ApplyStage::Ifindex => 9,
        ApplyStage::Bpffs => 10,
        ApplyStage::NativeClear => 11,
        ApplyStage::NativeApply => 11,
        ApplyStage::DscpDetach => 12,
        ApplyStage::DscpAttach => 12,
        ApplyStage::DscpInspect => 12,
        ApplyStage::DscpSet => 13,
        ApplyStage::DscpAttachOwned => 14,
        ApplyStage::SaveState => 15,
        ApplyStage::Done => 16,
        ApplyStage::Failed(_) => 16,
    }
}

/// What came of a step.
#[derive(Debug)]
pub enum ApplyEvent {
    Passed,
    Refused,
    Backends(Vec<IpAddr>),
    Vxlan { created: bool },
    Proxy(ProxyPlan),
    Ifindex(Option<u32>),
    Inspected { attached: bool, maps_current: bool },
}

/// What came of a step, as plain values.
pub enum ApplyEventView {
    Passed,
    Refused,
    Backends(Seq<IpAddr>),
    Vxlan { created: bool },
    Proxy { ports: Seq<u32>, listeners: Result<bool, ModelError> },
    Ifindex(Option<u32>),
    Inspected { attached: bool, maps_current: bool },
}

impl View for ApplyEvent {
    type V = ApplyEventView;

    open spec fn view(&self) -> ApplyEventView {
        match *self {
            ApplyEvent::Passed => ApplyEventView::Passed,
            ApplyEvent::Refused => ApplyEventView::Refused,
            ApplyEvent::Backends(ips) => ApplyEventView::Backends(ips@),
            ApplyEvent::Vxlan { created } => ApplyEventView::Vxlan { created },
            ApplyEvent::Proxy(plan) => ApplyEventView::Proxy {
                ports: plan.ports@,
                listeners: plan.listeners,
            },
            ApplyEvent::Ifindex(index) => ApplyEventView::Ifindex(index),
            ApplyEvent::Inspected { attached, maps_current } => ApplyEventView::Inspected {
                attached,
                maps_current,
            },
        }
    }
}

/// A set-up in progress.
#[derive(Debug)]
pub struct GatewayApply {
    pub stage: ApplyStage,
    pub mode: DscpAttachMode,
    pub object: Option<String>,
    pub peers: Vec<IpAddr>,
    pub created_vxlan: bool,
    pub ports: Vec<u32>,
    pub listeners: Result<bool, ModelError>,
    pub ifindex: Option<u32>,
    pub update: DscpUpdate,
}

/// A set-up in progress, as plain values.
pub struct ApplyView {
    pub stage: ApplyStage,
    pub mode: DscpAttachMode,
    pub object: Option<Seq<char>>,
    pub peers: Seq<IpAddr>,
    pub created_vxlan: bool,
    pub ports: Seq<u32>,
    pub listeners: Result<bool, ModelError>,
    pub ifindex: Option<u32>,
    pub update: DscpUpdate,
}

impl View for GatewayApply {
    type V = ApplyView;

    open spec fn view(&self) -> ApplyView {
        ApplyView {
            stage: self.stage,
            mode: self.mode,
            object: opt_text(self.object),
            peers: self.peers@,
            created_vxlan: self.created_vxlan,
            ports: self.ports@,
            listeners: self.listeners,
            ifindex: self.ifindex,
            update: self.update,
        }
    }
}

/// A set-up that has done nothing yet.
pub open spec fn apply_start(opts: ApplyOptions, mode: DscpAttachMode) -> ApplyView {
    ApplyView {
        stage: ApplyStage::Root,
        mode,
        object: opt_text(opts.object),
        peers: Seq::empty(),
        created_vxlan: false,
        ports: Seq::empty(),
        listeners: Ok(false),
        ifindex: None,
        update: DscpUpdate::Keep,
    }
}

/// Starts to set a gateway up.
pub fn apply_inner(opts: &ApplyOptions, mode: DscpAttachMode) -> (apply: GatewayApply)
    ensures
        apply@ == apply_start(*opts, mode),
{
    GatewayApply {
        stage: ApplyStage::Root,
        mode,
        object: clone_opt_text(&opts.object),
        peers: Vec::new(),
        created_vxlan: false,
        ports: Vec::new(),
        listeners: Ok(false),
        ifindex: None,
        update: DscpUpdate::Keep,
    }
}

/// Starts to set a gateway up so that it stays as it is when the process ends.
pub fn apply(opts: &ApplyOptions) -> (apply: GatewayApply)
    ensures
        apply@ == apply_start(*opts, DscpAttachMode::Persistent),
{
    apply_inner(opts, DscpAttachMode::Persistent)
}

impl ApplyView {
    /// The same set-up at another stage.
    pub open spec fn at(self, stage: ApplyStage) -> ApplyView {
        ApplyView { stage, ..self }
    }

    /// The set-up behind a step that must pass.
    pub open spec fn must(
        self,
        event: ApplyEventView,
        next: ApplyStage,
        fault: GatewayFault,
    ) -> ApplyView {
        if event is Refused {
            self.at(ApplyStage::Failed(fault))
        } else {
            self.at(next)
        }
    }

    /// Where the marker is dealt with: it is taken off when there is no port, put on
    /// afresh when it is to stay, and looked at first when the process holds it.
    pub open spec fn marker_stage(self) -> ApplyStage {
        if self.ports.len() == 0 {
            ApplyStage::DscpDetach
        } else {
            match self.mode {
                DscpAttachMode::Persistent => ApplyStage::DscpAttach,
                DscpAttachMode::Managed => ApplyStage::DscpInspect,
            }
        }
    }

    /// The set-up behind a step.
    pub open spec fn next(self, event: ApplyEventView) -> ApplyView {
        match self.stage {
            ApplyStage::Root => self.must(event, ApplyStage::Backends, GatewayFault::NotRoot),
            ApplyStage::Backends => ApplyView {
                stage: ApplyStage::Tuning,
                peers: match event {
                    ApplyEventView::Backends(ips) => reachable(ips),
                    _ => Seq::empty(),
                },
                ..self
            },
            ApplyStage::Tuning => self.must(event, ApplyStage::Vxlan, GatewayFault::Tuning),
            ApplyStage::Vxlan => match event {
                ApplyEventView::Vxlan { created } => ApplyView {
                    stage: ApplyStage::Peers,
                    created_vxlan: created,
                    ..self
                },
                _ => self.at(ApplyStage::Failed(GatewayFault::Vxlan)),
            },
            ApplyStage::Peers => self.must(event, ApplyStage::AcceptLocal, GatewayFault::Peers),
            ApplyStage::AcceptLocal => self.must(
                event,
                ApplyStage::LoadState,
                GatewayFault::AcceptLocal,
            ),
            ApplyStage::LoadState => self.must(
                event,
                ApplyStage::ProxyConfig,
                GatewayFault::LoadState,
            ),
            ApplyStage::ProxyConfig => match event {
                ApplyEventView::Proxy { ports, listeners } => ApplyView {
                    stage: ApplyStage::ListenerState,
                    ports,
                    listeners,
                    ..self
                },
                _ => self.at(ApplyStage::Failed(GatewayFault::ProxyConfig)),
            },
            ApplyStage::ListenerState => self.must(
                event,
                ApplyStage::Ifindex,
                GatewayFault::ListenerState,
            ),
            ApplyStage::Ifindex => ApplyView {
                stage: ApplyStage::Bpffs,
                ifindex: match event {
                    ApplyEventView::Ifindex(index) => index,
                    _ => None,
                },
                ..self
            },
            ApplyStage::Bpffs => self.must(
                event,
                match self.listeners {
                    Ok(true) => ApplyStage::NativeApply,
                    Ok(false) => ApplyStage::NativeClear,
                    Err(fault) => ApplyStage::Failed(GatewayFault::Listeners(fault)),
                },
                GatewayFault::Bpffs,
            ),
            ApplyStage::NativeClear => self.at(self.marker_stage()),
            ApplyStage::NativeApply => self.must(
                event,
                self.marker_stage(),
                GatewayFault::NativeDatapath,
            ),
            ApplyStage::DscpDetach => ApplyView {
                stage: ApplyStage::SaveState,
                update: DscpUpdate::Clear,
                ..self
            },
            ApplyStage::DscpAttach => self.must(
                event,
                ApplyStage::SaveState,
                GatewayFault::DscpAttach,
            ),
            ApplyStage::DscpInspect => match event {
                ApplyEventView::Inspected { attached: true, maps_current: true } => self.at(
                    ApplyStage::DscpSet,
                ),
                _ => self.at(ApplyStage::DscpAttachOwned),
            },
            ApplyStage::DscpSet => if event is Refused {
                self.at(ApplyStage::DscpAttachOwned)
            } else {
                self.at(ApplyStage::SaveState)
            },
            ApplyStage::DscpAttachOwned => if event is Refused {
                self.at(ApplyStage::Failed(GatewayFault::DscpAttach))
            } else {
                ApplyView { stage: ApplyStage::SaveState, update: DscpUpdate::Replace, ..self }
            },
            ApplyStage::SaveState => self.must(event, ApplyStage::Done, GatewayFault::SaveState),
            ApplyStage::Done => self,
            ApplyStage::Failed(_) => self,
        }
    }

    /// Whether the set-up has not ended.
    pub open spec fn runs(self) -> bool {
        !(self.stage is Done) && !(self.stage is Failed)
    }

    /// What holds at every stage: peers are reachable, the datapath is set up with
    /// listeners and taken down without, and the marker goes on only for ports.
    pub open spec fn sound(self) -> bool {
        &&& forall|i: int| 0 <= i < self.peers.len() ==> !unspecified(#[trigger] self.peers[i])
        &&& self.stage is NativeApply ==> self.listeners == Ok::<bool, ModelError>(true)
        &&& self.stage is NativeClear ==> self.listeners == Ok::<bool, ModelError>(false)
        &&& progress(self.stage) > progress(ApplyStage::Bpffs) && !(self.stage is Failed)
            ==> self.listeners is Ok
        &&& self.stage is DscpDetach ==> self.ports.len() == 0
        &&& self.stage is DscpAttach ==> self.ports.len() > 0 && self.mode is Persistent
        &&& self.stage is DscpInspect ==> self.ports.len() > 0 && self.mode is Managed
        &&& self.stage is DscpSet ==> self.ports.len() > 0 && self.mode is Managed
        &&& self.stage is DscpAttachOwned ==> self.ports.len() > 0 && self.mode is Managed
        &&& (self.stage is SaveState || self.stage is Done) ==> {
            &&& self.update is Clear <==> self.ports.len() == 0
            &&& self.update is Replace ==> self.mode is Managed
        }
        &&& !(self.stage is SaveState) && self.runs() ==> self.update is Keep
    }
}

/// What is to be done next.
#[derive(Clone, Debug)]
pub enum ApplyAction {
    RequireRoot,
    ListBackends,
    TuneSysctls,
    EnsureVxlan(VxlanSpec),
    SyncPeers(Vec<IpAddr>),
    AcceptLocal,
    LoadState,
    LoadProxyConfig,
    ReconcileListeners,
    ReadIfindex,
    WaitForBpffs { secs: u64 },
    ClearNative,
    ApplyNative,
    DetachDscp,
    AttachDscp { ports: Vec<u32>, object: Option<String> },
    InspectDscp,
    SetDscp { ports: Vec<u32> },
    AttachOwnedDscp { ports: Vec<u32>, object: Option<String> },
    SaveState { created_vxlan: bool, ports: Vec<u32>, ifindex: Option<u32> },
    Finished(DscpUpdate),
    Failed(GatewayFault),
}

/// What is to be done next, as plain values.
pub enum ApplyActionView {
    RequireRoot,
    ListBackends,
    TuneSysctls,
    EnsureVxlan(VxlanSpecView),
    SyncPeers(Seq<IpAddr>),
    AcceptLocal,
    LoadState,
    LoadProxyConfig,
    ReconcileListeners,
    ReadIfindex,
    WaitForBpffs { secs: u64 },
    ClearNative,
    ApplyNative,
    DetachDscp,
    AttachDscp { ports: Seq<u32>, object: Option<Seq<char>> },
    InspectDscp,
    SetDscp { ports: Seq<u32> },
    AttachOwnedDscp { ports: Seq<u32>, object: Option<Seq<char>> },
    SaveState { created_vxlan: bool, ports: Seq<u32>, ifindex: Option<u32> },
    Finished(DscpUpdate),
    Failed(GatewayFault),
}

impl View for ApplyAction {
    type V = ApplyActionView;

    open spec fn view(&self) -> ApplyActionView {
        match *self {
            ApplyAction::RequireRoot => ApplyActionView::RequireRoot,
            ApplyAction::ListBackends => ApplyActionView::ListBackends,
            ApplyAction::TuneSysctls => ApplyActionView::TuneSysctls,
            ApplyAction::EnsureVxlan(spec) => ApplyActionView::EnsureVxlan(spec@),
            ApplyAction::SyncPeers(peers) => ApplyActionView::SyncPeers(peers@),
            ApplyAction::AcceptLocal => ApplyActionView::AcceptLocal,
            ApplyAction::LoadState => ApplyActionView::LoadState,
            ApplyAction::LoadProxyConfig => ApplyActionView::LoadProxyConfig,
            ApplyAction::ReconcileListeners => ApplyActionView::ReconcileListeners,
            ApplyAction::ReadIfindex => ApplyActionView::ReadIfindex,
            ApplyAction::WaitForBpffs { secs } => ApplyActionView::WaitForBpffs { secs },
            ApplyAction::ClearNative => ApplyActionView::ClearNative,
            ApplyAction::ApplyNative => ApplyActionView::ApplyNative,
            ApplyAction::DetachDscp => ApplyActionView::DetachDscp,
            ApplyAction::AttachDscp { ports, object } => ApplyActionView::AttachDscp {
                ports: ports@,
                object: opt_text(object),
            },
            ApplyAction::InspectDscp => ApplyActionView::InspectDscp,
            ApplyAction::SetDscp { ports } => ApplyActionView::SetDscp { ports: ports@ },
            ApplyAction::AttachOwnedDscp { ports, object } => ApplyActionView::AttachOwnedDscp {
                ports: ports@,
                object: opt_text(object),
            },
            ApplyAction::SaveState { created_vxlan, ports, ifindex } => ApplyActionView::SaveState {
                created_vxlan,
                ports: ports@,
                ifindex,
            },
            ApplyAction::Finished(update) => ApplyActionView::Finished(update),
            ApplyAction::Failed(fault) => ApplyActionView::Failed(fault),
        }
    }
}

/// What a set-up asks for at its stage.
pub open spec fn wanted(apply: ApplyView, cfg: Config) -> ApplyActionView {
    match apply.stage {
        ApplyStage::Root => ApplyActionView::RequireRoot,
        ApplyStage::Backends => ApplyActionView::ListBackends,
        ApplyStage::Tuning => ApplyActionView::TuneSysctls,
        ApplyStage::Vxlan => ApplyActionView::EnsureVxlan(
            tunnel(cfg, None, cfg.gateway_overlay_ip@),
        ),
        ApplyStage::Peers => ApplyActionView::SyncPeers(apply.peers),
        ApplyStage::AcceptLocal => ApplyActionView::AcceptLocal,
        ApplyStage::LoadState => ApplyActionView::LoadState,
        ApplyStage::ProxyConfig => ApplyActionView::LoadProxyConfig,
        ApplyStage::ListenerState => ApplyActionView::ReconcileListeners,
        ApplyStage::Ifindex => ApplyActionView::ReadIfindex,
        ApplyStage::Bpffs => ApplyActionView::WaitForBpffs { secs: BPFFS_WAIT_SECS },
        ApplyStage::NativeClear => ApplyActionView::ClearNative,
        ApplyStage::NativeApply => ApplyActionView::ApplyNative,
        ApplyStage::DscpDetach => ApplyActionView::DetachDscp,
        ApplyStage::DscpAttach => ApplyActionView::AttachDscp {
            ports: apply.ports,
            object: apply.object,
        },
        ApplyStage::DscpInspect => ApplyActionView::InspectDscp,
        ApplyStage::DscpSet => ApplyActionView::SetDscp { ports: apply.ports },
        ApplyStage::DscpAttachOwned => ApplyActionView::AttachOwnedDscp {
            ports: apply.ports,
            object: apply.object,
        },
        ApplyStage::SaveState => ApplyActionView::SaveState {
            created_vxlan: apply.created_vxlan,
            ports: apply.ports,
            ifindex: apply.ifindex,
        },
        ApplyStage::Done => ApplyActionView::Finished(apply.update),
        ApplyStage::Failed(fault) => ApplyActionView::Failed(fault),
    }
}

fn copy_ports(ports: &[u32]) -> (copy: Vec<u32>)
    ensures
        copy@ == ports@,
{
    let mut copy: Vec<u32> = Vec::new();
    let mut i: usize = 0;
    while i < ports.len()
        invariant
            i <= ports.len(),
            copy@ == ports@.take(i as int),
        decreases ports.len() - i,
    {
        copy.push(ports[i]);
        assert(copy@ =~= ports@.take(i + 1));
        i += 1;
    }
    assert(ports@.take(ports@.len() as int) =~= ports@);
    copy
}

fn copy_ips(ips: &[IpAddr]) -> (copy: Vec<IpAddr>)
    ensures
        copy@ == ips@,
{
    let mut copy: Vec<IpAddr> = Vec::new();
    let mut i: usize = 0;
    while i < ips.len()
        invariant
            i <= ips.len(),
            copy@ == ips@.take(i as int),
        decreases ips.len() - i,
    {
        copy.push(ips[i]);
        assert(copy@ =~= ips@.take(i + 1));
        i += 1;
    }
    assert(ips@.take(ips@.len() as int) =~= ips@);
    copy
}

impl GatewayApply {
    /// What is to be done next.
    pub fn action(&self, cfg: &Config) -> (action: ApplyAction)
        ensures
            action@ == wanted(self@, *cfg),
    {
        match self.stage {
            ApplyStage::Root => ApplyAction::RequireRoot,
            ApplyStage::Backends => ApplyAction::ListBackends,
            ApplyStage::Tuning => ApplyAction::TuneSysctls,
            ApplyStage::Vxlan => ApplyAction::EnsureVxlan(
                vxlan_spec(cfg, None, cfg.gateway_overlay_ip.as_str()),
            ),
            ApplyStage::Peers => ApplyAction::SyncPeers(copy_ips(self.peers.as_slice())),
            ApplyStage::AcceptLocal => ApplyAction::AcceptLocal,
            ApplyStage::LoadState => ApplyAction::LoadState,
            ApplyStage::ProxyConfig => ApplyAction::LoadProxyConfig,
            ApplyStage::ListenerState => ApplyAction::ReconcileListeners,
            ApplyStage::Ifindex => ApplyAction::ReadIfindex,
            ApplyStage::Bpffs => ApplyAction::WaitForBpffs { secs: BPFFS_WAIT_SECS },
            ApplyStage::NativeClear => ApplyAction::ClearNative,
            ApplyStage::NativeApply => ApplyAction::ApplyNative,
            ApplyStage::DscpDetach => ApplyAction::DetachDscp,
            ApplyStage::DscpAttach => ApplyAction::AttachDscp {
                ports: copy_ports(self.ports.as_slice()),
                object: clone_opt_text(&self.object),
            },
            ApplyStage::DscpInspect => ApplyAction::InspectDscp,
            ApplyStage::DscpSet => ApplyAction::SetDscp {
                ports: copy_ports(self.ports.as_slice()),
            },
            ApplyStage::DscpAttachOwned => ApplyAction::AttachOwnedDscp {
                ports: copy_ports(self.ports.as_slice()),
                object: clone_opt_text(&self.object),
            },
            ApplyStage::SaveState => ApplyAction::SaveState {
                created_vxlan: self.created_vxlan,
                ports: copy_ports(self.ports.as_slice()),
                ifindex: self.ifindex,
            },
            ApplyStage::Done => ApplyAction::Finished(self.update),
            ApplyStage::Failed(fault) => ApplyAction::Failed(fault),
        }
    }

    fn must(&mut self, refused: bool, next: ApplyStage, fault: GatewayFault)
        ensures
            final(self)@ == (if refused {
                old(self)@.at(ApplyStage::Failed(fault))
            } else {
                old(self)@.at(next)
            }),
    {
        self.stage = if refused {
            ApplyStage::Failed(fault)
        } else {
            next
        };
    }

    fn marker_stage(&self) -> (stage: ApplyStage)
        ensures
            stage == self@.marker_stage(),
    {
        if self.ports.len() == 0 {
            ApplyStage::DscpDetach
        } else {
            match self.mode {
                DscpAttachMode::Persistent => ApplyStage::DscpAttach,
                DscpAttachMode::Managed => ApplyStage::DscpInspect,
            }
        }
    }

    /// Takes in what came of a step. The datapath and the marker are taken off as far
    /// as they can be; backends that cannot be listed are none.
    pub fn advance(&mut self, event: ApplyEvent)
        ensures
            final(self)@ == old(self)@.next(event@),
    {
        let refused = matches!(event, ApplyEvent::Refused);
        match self.stage {
            ApplyStage::Root => self.must(refused, ApplyStage::Backends, GatewayFault::NotRoot),
            ApplyStage::Backends => {
                self.peers = match event {
                    ApplyEvent::Backends(ips) => backend_peers(ips.as_slice()),
                    _ => Vec::new(),
                };
                self.stage = ApplyStage::Tuning;
            },
            ApplyStage::Tuning => self.must(refused, ApplyStage::Vxlan, GatewayFault::Tuning),
            ApplyStage::Vxlan => match event {
                ApplyEvent::Vxlan { created } => {
                    self.created_vxlan = created;
                    self.stage = ApplyStage::Peers;
                },
                _ => {
                    self.stage = ApplyStage::Failed(GatewayFault::Vxlan);
                },
            },
            ApplyStage::Peers => self.must(refused, ApplyStage::AcceptLocal, GatewayFault::Peers),
            ApplyStage::AcceptLocal => self.must(
                refused,
                ApplyStage::LoadState,
                GatewayFault::AcceptLocal,
            ),
            ApplyStage::LoadState => self.must(
                refused,
                ApplyStage::ProxyConfig,
                GatewayFault::LoadState,
            ),
            ApplyStage::ProxyConfig => match event {
                ApplyEvent::Proxy(plan) => {
                    self.ports = plan.ports;
                    self.listeners = plan.listeners;
                    self.stage = ApplyStage::ListenerState;
                },
                _ => {
                    self.stage = ApplyStage::Failed(GatewayFault::ProxyConfig);
                },
            },
            ApplyStage::ListenerState => self.must(
                refused,
                ApplyStage::Ifindex,
                GatewayFault::ListenerState,
            ),
            ApplyStage::Ifindex => {
                self.ifindex = match event {
                    ApplyEvent::Ifindex(index) => index,
                    _ => None,
                };
                self.stage = ApplyStage::Bpffs;
            },
            ApplyStage::Bpffs => {
                let next = match self.listeners {
                    Ok(true) => ApplyStage::NativeApply,
                    Ok(false) => ApplyStage::NativeClear,
                    Err(fault) => ApplyStage::Failed(GatewayFault::Listeners(fault)),
                };
                self.must(refused, next, GatewayFault::Bpffs)
            },
            ApplyStage::NativeClear => {
                self.stage = self.marker_stage();
            },
            ApplyStage::NativeApply => {
                let next = self.marker_stage();
                self.must(refused, next, GatewayFault::NativeDatapath)
            },
            ApplyStage::DscpDetach => {
                self.update = DscpUpdate::Clear;
                self.stage = ApplyStage::SaveState;
            },
            ApplyStage::DscpAttach => self.must(
                refused,
                ApplyStage::SaveState,
                GatewayFault::DscpAttach,
            ),
            ApplyStage::DscpInspect => match event {
                ApplyEvent::Inspected { attached: true, maps_current: true } => {
                    self.stage = ApplyStage::DscpSet;
                },
                _ => {
                    self.stage = ApplyStage::DscpAttachOwned;
                },
            },
            ApplyStage::DscpSet => {
                self.stage = if refused {
                    ApplyStage::DscpAttachOwned
                } else {
                    ApplyStage::SaveState
                };
            },
            ApplyStage::DscpAttachOwned => if refused {
                self.stage = ApplyStage::Failed(GatewayFault::DscpAttach);
            } else {
                self.update = DscpUpdate::Replace;
                self.stage = ApplyStage::SaveState;
            },
            ApplyStage::SaveState => self.must(refused, ApplyStage::Done, GatewayFault::SaveState),
            ApplyStage::Done => {},
            ApplyStage::Failed(_) => {},
        }
    }
}

/// What a caller may choose when a gateway is taken down.
#[derive(Clone, Copy, Debug, PartialEq, Eq, Structural)]
pub struct CleanupOptions {
    pub rules: bool,
    pub datapath: bool,
}

/// A step of taking a gateway down. None of them has to pass but the first.
#[derive(Clone, Copy, Debug, PartialEq, Eq, Structural)]
pub enum CleanupAction {
    RequireRoot,
    DeleteIngressFilter,
    DetachDscp,
    RefuseLocal,
    ClearNative,
    DeleteListeners,
}

/// The steps of taking a gateway down.
pub open spec fn cleanup_steps(opts: CleanupOptions) -> Seq<CleanupAction> {
    seq![
        CleanupAction::RequireRoot,
        CleanupAction::DeleteIngressFilter,
        CleanupAction::DetachDscp,
        CleanupAction::RefuseLocal,
    ] + (if opts.datapath {
        seq![CleanupAction::ClearNative]
    } else {
        Seq::empty()
    }) + (if opts.rules {
        seq![CleanupAction::DeleteListeners]
    } else {
        Seq::empty()
    })
}

/// The steps of taking a gateway down.
pub fn cleanup(opts: &CleanupOptions) -> (steps: Vec<CleanupAction>)
    ensures
        steps@ == cleanup_steps(*opts),
{
    let mut steps: Vec<CleanupAction> = Vec::new();
    steps.push(CleanupAction::RequireRoot);
    steps.push(CleanupAction::DeleteIngressFilter);
    steps.push(CleanupAction::DetachDscp);
    steps.push(CleanupAction::RefuseLocal);
    if opts.datapath {
        steps.push(CleanupAction::ClearNative);
    }
    if opts.rules {
        steps.push(CleanupAction::DeleteListeners);
    }
    assert(steps@ =~= cleanup_steps(*opts));
    steps
}

// ---------------------------------------------------------------------------
// Laws
// ---------------------------------------------------------------------------

/// A set-up starts sound.
pub proof fn law_setup_starts_sound(opts: ApplyOptions, mode: DscpAttachMode)
    ensures
        apply_start(opts, mode).sound(),
{
}

/// Whatever comes of a step, the set-up stays sound: the marker is put on only for
/// ports, the datapath only for listeners, and what is handed back says which.
pub proof fn law_setup_stays_sound(apply: ApplyView, event: ApplyEventView)
    requires
        apply.sound(),
    ensures
        apply.next(event).sound(),
{
    if apply.stage is Backends {
        if let ApplyEventView::Backends(ips) = event {
            let keep = |ip: IpAddr| !unspecified(ip);
            assert forall|i: int| 0 <= i < reachable(ips).len() implies !unspecified(
                #[trigger] reachable(ips)[i],
            ) by {
                ips.lemma_filter_pred(keep, i);
            }
        }
    }
}

/// A set-up that has failed, or is done, stays so.
pub proof fn law_setup_ends(apply: ApplyView, event: ApplyEventView)
    requires
        !apply.runs(),
    ensures
        apply.next(event) == apply,
{
}

/// Every step of a set-up leads on, so it ends after at most sixteen.
pub proof fn law_setup_leads_on(apply: ApplyView, event: ApplyEventView)
    requires
        apply.runs(),
    ensures
        progress(apply.next(event).stage) > progress(apply.stage),
{
}

/// A set-up whose steps all pass checks that it may, lists the backends, tunes the host, sets
/// the tunnel up and tells it the backends that can be reached, reads its state and its
/// configuration, and sets the datapath up where there are listeners.
pub proof fn law_setup_runs_in_order(
    opts: ApplyOptions,
    mode: DscpAttachMode,
    cfg: Config,
    ips: Seq<IpAddr>,
    created: bool,
    ports: Seq<u32>,
    index: Option<u32>,
)
    requires
        ports.len() > 0,
    ensures
        ({
            let passed = ApplyEventView::Passed;
            let listed = apply_start(opts, mode).next(passed).next(ApplyEventView::Backends(ips));
            let tuned = listed.next(passed);
            let linked = tuned.next(ApplyEventView::Vxlan { created });
            let loaded = linked.next(passed).next(passed).next(passed);
            let planned = loaded.next(ApplyEventView::Proxy { ports, listeners: Ok(true) });
            let waits = planned.next(passed).next(ApplyEventView::Ifindex(index));
            let native = waits.next(passed);
            &&& wanted(apply_start(opts, mode), cfg) == ApplyActionView::RequireRoot
            &&& wanted(apply_start(opts, mode).next(passed), cfg) == ApplyActionView::ListBackends
            &&& wanted(listed, cfg) == ApplyActionView::TuneSysctls
            &&& wanted(tuned, cfg) matches ApplyActionView::EnsureVxlan(spec) && spec.dev
                == cfg.network.vxlan_dev@ && spec.vni == cfg.network.vni && spec.remote is None
                && spec.local_addr == cfg.gateway_overlay_ip@
            &&& wanted(linked, cfg) matches ApplyActionView::SyncPeers(peers) && peers
                == reachable(ips)
            &&& wanted(linked.next(passed), cfg) == ApplyActionView::AcceptLocal
            &&& wanted(linked.next(passed).next(passed), cfg) == ApplyActionView::LoadState
            &&& wanted(loaded, cfg) == ApplyActionView::LoadProxyConfig
            &&& wanted(planned, cfg) == ApplyActionView::ReconcileListeners
            &&& wanted(planned.next(passed), cfg) == ApplyActionView::ReadIfindex
            &&& wanted(waits, cfg) == (ApplyActionView::WaitForBpffs { secs: 10 })
            &&& wanted(native, cfg) == ApplyActionView::ApplyNative
            &&& mode is Persistent ==> wanted(native.next(passed), cfg) == (
            ApplyActionView::AttachDscp { ports, object: opt_text(opts.object) })
            &&& mode is Persistent ==> wanted(native.next(passed).next(passed), cfg) == (
            ApplyActionView::SaveState { created_vxlan: created, ports, ifindex: index })
            &&& mode is Persistent ==> wanted(
                native.next(passed).next(passed).next(passed),
                cfg,
            ) == ApplyActionView::Finished(DscpUpdate::Keep)
            &&& mode is Managed ==> wanted(native.next(passed), cfg)
                == ApplyActionView::InspectDscp
        }),
{
}

/// Without listeners the datapath is taken down; listeners that cannot be built end the
/// set-up. Without ports the marker is taken off.
pub proof fn law_unused_parts_are_taken_down(
    apply: ApplyView,
    fault: ModelError,
    event: ApplyEventView,
)
    ensures
        apply.stage == ApplyStage::Bpffs && apply.listeners == Ok::<bool, ModelError>(false)
            ==> apply.next(ApplyEventView::Passed).stage == ApplyStage::NativeClear,
        apply.stage == ApplyStage::Bpffs && apply.listeners == Err::<bool, ModelError>(fault)
            ==> apply.next(ApplyEventView::Passed).stage == ApplyStage::Failed(
            GatewayFault::Listeners(fault),
        ),
        apply.stage == ApplyStage::NativeClear && apply.ports.len() == 0 ==> apply.next(
            event,
        ).stage == ApplyStage::DscpDetach,
        apply.stage == ApplyStage::DscpDetach ==> apply.next(event).stage == ApplyStage::SaveState
            && apply.next(event).update == DscpUpdate::Clear,
{
}

/// A marker that the process holds is kept where it is attached to the maps of now and takes
/// the ports; otherwise it is put on afresh and replaces the one that is held.
pub proof fn law_held_marker_is_reused(apply: ApplyView, attached: bool, maps_current: bool)
    requires
        apply.stage == ApplyStage::DscpInspect,
    ensures
        ({
            let seen = apply.next(ApplyEventView::Inspected { attached, maps_current });
            let kept = seen.next(ApplyEventView::Passed);
            let afresh = apply.at(ApplyStage::DscpAttachOwned).next(ApplyEventView::Passed);
            &&& attached && maps_current ==> seen.stage == ApplyStage::DscpSet && kept.stage
                == ApplyStage::SaveState && kept.update == apply.update
            &&& !attached || !maps_current ==> seen.stage == ApplyStage::DscpAttachOwned
            &&& attached && maps_current ==> seen.next(ApplyEventView::Refused).stage
                == ApplyStage::DscpAttachOwned
            &&& afresh.stage == ApplyStage::SaveState
            &&& afresh.update == DscpUpdate::Replace
            &&& apply.at(ApplyStage::DscpAttachOwned).next(ApplyEventView::Refused).stage
                == ApplyStage::Failed(GatewayFault::DscpAttach)
        }),
{
}

/// A step that has to pass ends the set-up where it does not, and the fault says which it
/// was; backends that cannot be listed are none.
pub proof fn law_refusals_are_named(apply: ApplyView)
    ensures
        ({
            let next = apply.next(ApplyEventView::Refused).stage;
            &&& apply.stage == ApplyStage::Root ==> next == ApplyStage::Failed(
                GatewayFault::NotRoot,
            )
            &&& apply.stage == ApplyStage::Tuning ==> next == ApplyStage::Failed(
                GatewayFault::Tuning,
            )
            &&& apply.stage == ApplyStage::Vxlan ==> next == ApplyStage::Failed(GatewayFault::Vxlan)
            &&& apply.stage == ApplyStage::Peers ==> next == ApplyStage::Failed(GatewayFault::Peers)
            &&& apply.stage == ApplyStage::AcceptLocal ==> next == ApplyStage::Failed(
                GatewayFault::AcceptLocal,
            )
            &&& apply.stage == ApplyStage::LoadState ==> next == ApplyStage::Failed(
                GatewayFault::LoadState,
            )
            &&& apply.stage == ApplyStage::ProxyConfig ==> next == ApplyStage::Failed(
                GatewayFault::ProxyConfig,
            )
            &&& apply.stage == ApplyStage::ListenerState ==> next == ApplyStage::Failed(
                GatewayFault::ListenerState,
            )
            &&& apply.stage == ApplyStage::Bpffs ==> next == ApplyStage::Failed(GatewayFault::Bpffs)
            &&& apply.stage == ApplyStage::NativeApply ==> next == ApplyStage::Failed(
                GatewayFault::NativeDatapath,
            )
            &&& apply.stage == ApplyStage::DscpAttach ==> next == ApplyStage::Failed(
                GatewayFault::DscpAttach,
            )
            &&& apply.stage == ApplyStage::SaveState ==> next == ApplyStage::Failed(
                GatewayFault::SaveState,
            )
            &&& apply.stage == ApplyStage::Backends ==> next == ApplyStage::Tuning && apply.next(
                ApplyEventView::Refused,
            ).peers.len() == 0
        }),
{
}

/// A backend is told to the tunnel if and only if its address is not the unspecified one.
pub proof fn law_specified_backends_are_reached(ips: Seq<IpAddr>, ip: IpAddr)
    ensures
        reachable(ips).contains(ip) <==> ips.contains(ip) && ip != IpAddr::V4(0) && ip
            != IpAddr::V6(0),
{
    lemma_reachable(ips, ip);
}

proof fn lemma_reachable(ips: Seq<IpAddr>, ip: IpAddr)
    ensures
        reachable(ips).contains(ip) <==> ips.contains(ip) && !unspecified(ip),
    decreases ips.len(),
{
    reveal(Seq::filter);
    if ips.len() > 0 {
        let front = ips.drop_last();
        lemma_reachable(front, ip);
        let kept = reachable(front);
        assert(ips[ips.len() - 1] == ips.last());
        if front.contains(ip) {
            let i = choose|i: int| 0 <= i < front.len() && front[i] == ip;
            assert(ips[i] == ip);
        }
        if ips.contains(ip) && ip != ips.last() {
            let i = choose|i: int| 0 <= i < ips.len() && ips[i] == ip;
            assert(front[i] == ip);
        }
        if !unspecified(ips.last()) {
            assert(reachable(ips) == kept.push(ips.last()));
            assert(reachable(ips)[kept.len() as int] == ips.last());
            if kept.contains(ip) {
                let i = choose|i: int| 0 <= i < kept.len() && kept[i] == ip;
                assert(reachable(ips)[i] == ip);
            }
            if reachable(ips).contains(ip) && ip != ips.last() {
                let i = choose|i: int| 0 <= i < reachable(ips).len() && reachable(ips)[i] == ip;
                assert(kept[i] == ip);
            }
        }
    }
}

/// The packets of every listener are marked, and no others.
pub proof fn law_marked_ports_are_those_of_listeners(listeners: Seq<Listener>, i: int)
    requires
        0 <= i < listeners.len(),
    ensures
        listener_ports(listeners).len() == listeners.len(),
        listener_ports(listeners)[i] == listeners[i].port,
{
}

/// Taking a gateway down asks for the right to, deletes the filter, takes the marker off and
/// refuses local sources; the datapath and the listeners go only where that is asked for.
pub proof fn law_cleanup_spares_what_is_kept(opts: CleanupOptions)
    ensures
        ({
            let steps = cleanup_steps(opts);
            &&& steps[0] == CleanupAction::RequireRoot
            &&& steps[1] == CleanupAction::DeleteIngressFilter
            &&& steps[2] == CleanupAction::DetachDscp
            &&& steps[3] == CleanupAction::RefuseLocal
            &&& opts.datapath ==> steps[4] == CleanupAction::ClearNative
            &&& opts.rules ==> steps.last() == CleanupAction::DeleteListeners
            &&& steps.len() == 4 + (if opts.datapath {
                1int
            } else {
                0
            }) + (if opts.rules {
                1int
            } else {
                0
            })
        }),
{
}

/// The datapath is set up where the configuration comes to any listeners, and the fault of one
/// that cannot be built is told.
pub proof fn law_listeners_want_a_datapath(
    cfg: Config,
    list: Seq<NativeListenerView>,
    fault: ModelError,
)
    ensures
        expanded_all(cfg, cfg.listeners@) == Ok::<Seq<NativeListenerView>, ModelError>(list)
            ==> wants_datapath(cfg) == Ok::<bool, ModelError>(list.len() > 0),
        expanded_all(cfg, cfg.listeners@) == Err::<Seq<NativeListenerView>, ModelError>(fault)
            ==> wants_datapath(cfg) == Err::<bool, ModelError>(fault),
{
}

} // verus!
