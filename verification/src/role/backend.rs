//! How a backend is brought into the state that its configuration asks for.
use crate::config::{ActiveSource, BackendNode, Config, GatewayNode};
use crate::net::IpAddr;
use crate::role::mirror::{multipoint, multipoint_return_vxlan};
use crate::role::vxlan::{tunnel, vxlan_spec, VxlanSpec, VxlanSpecView};
use crate::text::strings;
use vstd::prelude::*;

verus! {

/// A step on the host.
#[derive(Clone, Debug)]
pub enum BackendAction {
    ValidateReturnPaths,
    RequireRoot,
    TuneSysctls,
    EnsureVxlan(VxlanSpec),
    EnsureMultipoint { spec: VxlanSpec, addrs: Vec<String>, peers: Vec<IpAddr> },
    EnsureRouteTables,
    ApplyReturnPath,
    ApplyManagedReturnPath { reuse: bool },
    EnsurePolicyRouting,
    SetRemote(VxlanSpec),
    BringUp { mtu: u32 },
    EnsureLocalAddrs(Vec<String>),
    SyncPeers(Vec<IpAddr>),
    HealReturnPath,
    CleanupReturnPath,
    DeleteLink,
    RemoveMetrics,
}

/// A step on the host, as plain values.
pub enum BackendStep {
    ValidateReturnPaths,
    RequireRoot,
    TuneSysctls,
    EnsureVxlan(VxlanSpecView),
    EnsureMultipoint { spec: VxlanSpecView, addrs: Seq<Seq<char>>, peers: Seq<IpAddr> },
    EnsureRouteTables,
    ApplyReturnPath,
    ApplyManagedReturnPath { reuse: bool },
    EnsurePolicyRouting,
    SetRemote(VxlanSpecView),
    BringUp { mtu: u32 },
    EnsureLocalAddrs(Seq<Seq<char>>),
    SyncPeers(Seq<IpAddr>),
    HealReturnPath,
    CleanupReturnPath,
    DeleteLink,
    RemoveMetrics,
}

impl View for BackendAction {
    type V = BackendStep;

    open spec fn view(&self) -> BackendStep {
        match *self {
            BackendAction::ValidateReturnPaths => BackendStep::ValidateReturnPaths,
            BackendAction::RequireRoot => BackendStep::RequireRoot,
            BackendAction::TuneSysctls => BackendStep::TuneSysctls,
            BackendAction::EnsureVxlan(spec) => BackendStep::EnsureVxlan(spec@),
            BackendAction::EnsureMultipoint { spec, addrs, peers } => BackendStep::EnsureMultipoint {
                spec: spec@,
                addrs: strings(addrs@),
                peers: peers@,
            },
            BackendAction::EnsureRouteTables => BackendStep::EnsureRouteTables,
            BackendAction::ApplyReturnPath => BackendStep::ApplyReturnPath,
            BackendAction::ApplyManagedReturnPath { reuse } => BackendStep::ApplyManagedReturnPath {
                reuse,
            },
            BackendAction::EnsurePolicyRouting => BackendStep::EnsurePolicyRouting,
            BackendAction::SetRemote(spec) => BackendStep::SetRemote(spec@),
            BackendAction::BringUp { mtu } => BackendStep::BringUp { mtu },
            BackendAction::EnsureLocalAddrs(addrs) => BackendStep::EnsureLocalAddrs(
                strings(addrs@),
            ),
            BackendAction::SyncPeers(peers) => BackendStep::SyncPeers(peers@),
            BackendAction::HealReturnPath => BackendStep::HealReturnPath,
            BackendAction::CleanupReturnPath => BackendStep::CleanupReturnPath,
            BackendAction::DeleteLink => BackendStep::DeleteLink,
            BackendAction::RemoveMetrics => BackendStep::RemoveMetrics,
        }
    }
}

/// Steps as plain values.
pub open spec fn steps(actions: Seq<BackendAction>) -> Seq<BackendStep> {
    actions.map_values(|action: BackendAction| action@)
}

/// Why a plan ends early.
#[derive(Clone, Copy, Debug, PartialEq, Eq, Structural)]
pub enum BackendFault {
    NoControlPlane,
    NoActiveGateway,
    NoLocalBackend,
    LinkMissing,
}

/// Steps to take in order, up to the first that fails, and what is wrong behind them.
#[derive(Clone, Debug)]
pub struct BackendPlan {
    pub actions: Vec<BackendAction>,
    pub fault: Option<BackendFault>,
}

/// A plan as plain values.
pub struct BackendPlanView {
    pub actions: Seq<BackendStep>,
    pub fault: Option<BackendFault>,
}

impl View for BackendPlan {
    type V = BackendPlanView;

    open spec fn view(&self) -> BackendPlanView {
        BackendPlanView { actions: steps(self.actions@), fault: self.fault }
    }
}

/// What a node knows besides its configuration: the active gateway, its own entry
/// among the backends, and the backends.
#[derive(Clone, Debug)]
pub struct Surroundings {
    pub active: Option<GatewayNode>,
    pub local: Option<BackendNode>,
    pub nodes: Vec<BackendNode>,
}

/// The gateway that a backend goes by: the first control plane where those say who is
/// active, the active gateway otherwise.
pub open spec fn reference(cfg: Config, around: Surroundings) -> Result<
    GatewayNode,
    BackendFault,
> {
    if cfg.active_source is Xds {
        if cfg.gateway_nodes@.len() > 0 {
            Ok(cfg.gateway_nodes@[0])
        } else {
            Err(BackendFault::NoControlPlane)
        }
    } else {
        match around.active {
            Some(gateway) => Ok(gateway),
            None => Err(BackendFault::NoActiveGateway),
        }
    }
}

/// The underlay address of the gateway that a backend goes by.
pub fn backend_gateway_reference(cfg: &Config, around: &Surroundings) -> (underlay: Result<
    IpAddr,
    BackendFault,
>)
    ensures
        match (underlay, reference(*cfg, *around)) {
            (Ok(ip), Ok(gateway)) => ip == gateway.underlay_ip,
            (Err(fault), Err(expected)) => fault == expected,
            _ => false,
        },
{
    if matches!(cfg.active_source, ActiveSource::Xds) {
        if cfg.gateway_nodes.len() > 0 {
            Ok(cfg.gateway_nodes[0].underlay_ip)
        } else {
            Err(BackendFault::NoControlPlane)
        }
    } else {
        match &around.active {
            Some(gateway) => Ok(gateway.underlay_ip),
            None => Err(BackendFault::NoActiveGateway),
        }
    }
}

/// The tunnel of a backend toward a remote: to one gateway, or to several with an own
/// address in the network of each.
pub open spec fn tunnel_step(
    cfg: Config,
    local: BackendNode,
    nodes: Seq<BackendNode>,
    remote: IpAddr,
) -> BackendStep {
    match multipoint(cfg, Some(local), nodes) {
        Some((addrs, peers)) => BackendStep::EnsureMultipoint {
            spec: tunnel(cfg, Some(remote), addrs[0]),
            addrs,
            peers,
        },
        None => BackendStep::EnsureVxlan(tunnel(cfg, Some(remote), local.overlay_ip@)),
    }
}

/// The return path: set up to last, or held by the process.
pub open spec fn return_step(managed: bool, reuse: bool) -> BackendStep {
    if managed {
        BackendStep::ApplyManagedReturnPath { reuse }
    } else {
        BackendStep::ApplyReturnPath
    }
}

/// The plan of setting a backend up.
pub open spec fn setup_plan(
    cfg: Config,
    around: Surroundings,
    managed: bool,
    reuse: bool,
) -> BackendPlanView {
    let opening = seq![BackendStep::ValidateReturnPaths, BackendStep::RequireRoot];
    match reference(cfg, around) {
        Err(fault) => BackendPlanView { actions: opening, fault: Some(fault) },
        Ok(gateway) => match around.local {
            None => BackendPlanView {
                actions: opening,
                fault: Some(BackendFault::NoLocalBackend),
            },
            Some(local) => BackendPlanView {
                actions: opening + seq![
                    BackendStep::TuneSysctls,
                    tunnel_step(cfg, local, around.nodes@, gateway.underlay_ip),
                    BackendStep::EnsureRouteTables,
                    return_step(managed, reuse),
                    BackendStep::EnsurePolicyRouting,
                ],
                fault: None,
            },
        },
    }
}

fn push(actions: &mut Vec<BackendAction>, action: BackendAction)
    ensures
        steps(final(actions)@) == steps(old(actions)@).push(action@),
{
    let ghost before = actions@;
    let ghost view = action@;
    actions.push(action);
    assert(steps(actions@) =~= steps(before).push(view));
}

fn tunnel_action(
    cfg: &Config,
    around: &Surroundings,
    local: &BackendNode,
    remote: IpAddr,
) -> (action: BackendAction)
    requires
        around.local == Some(*local),
    ensures
        action@ == tunnel_step(*cfg, *local, around.nodes@, remote),
{
    match multipoint_return_vxlan(cfg, &around.local, around.nodes.as_slice()) {
        Some((addrs, peers)) => {
            let spec = vxlan_spec(cfg, Some(remote), addrs[0].as_str());
            assert(strings(addrs@)[0] == addrs@[0]@);
            BackendAction::EnsureMultipoint { spec, addrs, peers }
        },
        None => BackendAction::EnsureVxlan(
            vxlan_spec(cfg, Some(remote), local.overlay_ip.as_str()),
        ),
    }
}

/// The plan of setting a backend up.
fn apply_with(cfg: &Config, around: &Surroundings, managed: bool, reuse: bool) -> (plan: BackendPlan)
    ensures
        plan@ == setup_plan(*cfg, *around, managed, reuse),
{
    let mut actions: Vec<BackendAction> = Vec::new();
    assert(steps(actions@) =~= Seq::<BackendStep>::empty());
    push(&mut actions, BackendAction::ValidateReturnPaths);
    push(&mut actions, BackendAction::RequireRoot);
    assert(steps(actions@) =~= seq![BackendStep::ValidateReturnPaths, BackendStep::RequireRoot]);
    let remote = match backend_gateway_reference(cfg, around) {
        Ok(remote) => remote,
        Err(fault) => {
            return BackendPlan { actions, fault: Some(fault) };
        },
    };
    let local = match &around.local {
        Some(local) => local,
        None => {
            return BackendPlan { actions, fault: Some(BackendFault::NoLocalBackend) };
        },
    };
    push(&mut actions, BackendAction::TuneSysctls);
    push(&mut actions, tunnel_action(cfg, around, local, remote));
    push(&mut actions, BackendAction::EnsureRouteTables);
    push(
        &mut actions,
        if managed {
            BackendAction::ApplyManagedReturnPath { reuse }
        } else {
            BackendAction::ApplyReturnPath
        },
    );
    push(&mut actions, BackendAction::EnsurePolicyRouting);
    let plan = BackendPlan { actions, fault: None };
    assert(plan@.actions =~= setup_plan(*cfg, *around, managed, reuse).actions);
    plan
}

/// The plan of setting a backend up so that it stays as it is when the process ends.
pub fn apply(cfg: &Config, around: &Surroundings) -> (plan: BackendPlan)
    ensures
        plan@ == setup_plan(*cfg, *around, false, false),
{
    apply_with(cfg, around, false, false)
}

/// The plan of setting a backend up, with a return path that the process holds.
pub fn apply_managed(cfg: &Config, around: &Surroundings) -> (plan: BackendPlan)
    ensures
        plan@ == setup_plan(*cfg, *around, true, false),
{
    apply_managed_reusing(cfg, around, false)
}

/// The plan of setting a backend up, with a return path that the process holds. With
/// `reuse`, one that it holds already is kept where it still fits.
pub fn apply_managed_reusing(cfg: &Config, around: &Surroundings, reuse: bool) -> (plan: BackendPlan)
    ensures
        plan@ == setup_plan(*cfg, *around, true, reuse),
{
    apply_with(cfg, around, true, reuse)
}

/// The plan of turning to another gateway.
pub open spec fn switch_plan(cfg: Config, around: Surroundings, remote: IpAddr) -> BackendPlanView {
    match around.local {
        None => BackendPlanView {
            actions: Seq::empty(),
            fault: Some(BackendFault::NoLocalBackend),
        },
        Some(local) => BackendPlanView {
            actions: seq![
                BackendStep::SetRemote(tunnel(cfg, Some(remote), local.overlay_ip@)),
                BackendStep::EnsurePolicyRouting,
            ],
            fault: None,
        },
    }
}

/// The plan of turning to another gateway. The rules of the return path do not depend
/// on the gateway and stay.
pub fn switch_active(cfg: &Config, around: &Surroundings, remote: IpAddr) -> (plan: BackendPlan)
    ensures
        plan@ == switch_plan(*cfg, *around, remote),
{
    let mut actions: Vec<BackendAction> = Vec::new();
    assert(steps(actions@) =~= Seq::<BackendStep>::empty());
    match &around.local {
        None => BackendPlan { actions, fault: Some(BackendFault::NoLocalBackend) },
        Some(local) => {
            push(
                &mut actions,
                BackendAction::SetRemote(
                    vxlan_spec(cfg, Some(remote), local.overlay_ip.as_str()),
                ),
            );
            push(&mut actions, BackendAction::EnsurePolicyRouting);
            let plan = BackendPlan { actions, fault: None };
            assert(plan@.actions =~= switch_plan(*cfg, *around, remote).actions);
            plan
        },
    }
}

/// The steps that bring the tunnel back up.
pub open spec fn up_steps(cfg: Config, link_up: bool) -> Seq<BackendStep> {
    if link_up {
        Seq::empty()
    } else {
        seq![BackendStep::BringUp { mtu: cfg.network.vxlan_mtu }]
    }
}

/// The plan of healing a backend that drifted.
pub open spec fn heal_plan(
    cfg: Config,
    around: Surroundings,
    active: IpAddr,
    link_present: bool,
    link_up: bool,
) -> BackendPlanView {
    if !link_present {
        BackendPlanView { actions: Seq::empty(), fault: Some(BackendFault::LinkMissing) }
    } else {
        match (multipoint(cfg, around.local, around.nodes@), around.local) {
            (Some((addrs, peers)), _) => BackendPlanView {
                actions: up_steps(cfg, link_up) + seq![
                    BackendStep::EnsureLocalAddrs(addrs),
                    BackendStep::SyncPeers(peers),
                    BackendStep::HealReturnPath,
                ],
                fault: None,
            },
            (None, Some(local)) => BackendPlanView {
                actions: up_steps(cfg, link_up) + seq![
                    BackendStep::EnsureVxlan(tunnel(cfg, Some(active), local.overlay_ip@)),
                    BackendStep::HealReturnPath,
                ],
                fault: None,
            },
            (None, None) => BackendPlanView {
                actions: up_steps(cfg, link_up),
                fault: Some(BackendFault::NoLocalBackend),
            },
        }
    }
}

/// The plan of healing a backend that drifted.
pub fn heal(
    cfg: &Config,
    around: &Surroundings,
    active: IpAddr,
    link_present: bool,
    link_up: bool,
) -> (plan: BackendPlan)
    ensures
        plan@ == heal_plan(*cfg, *around, active, link_present, link_up),
{
    let mut actions: Vec<BackendAction> = Vec::new();
    assert(steps(actions@) =~= Seq::<BackendStep>::empty());
    if !link_present {
        return BackendPlan { actions, fault: Some(BackendFault::LinkMissing) };
    }
    if !link_up {
        push(&mut actions, BackendAction::BringUp { mtu: cfg.network.vxlan_mtu });
    }
    assert(steps(actions@) =~= up_steps(*cfg, link_up));
    match multipoint_return_vxlan(cfg, &around.local, around.nodes.as_slice()) {
        Some((addrs, peers)) => {
            push(&mut actions, BackendAction::EnsureLocalAddrs(addrs));
            push(&mut actions, BackendAction::SyncPeers(peers));
        },
        None => match &around.local {
            Some(local) => {
                push(
                    &mut actions,
                    BackendAction::EnsureVxlan(
                        vxlan_spec(cfg, Some(active), local.overlay_ip.as_str()),
                    ),
                );
            },
            None => {
                return BackendPlan { actions, fault: Some(BackendFault::NoLocalBackend) };
            },
        },
    }
    push(&mut actions, BackendAction::HealReturnPath);
    let plan = BackendPlan { actions, fault: None };
    assert(plan@.actions =~= heal_plan(*cfg, *around, active, link_present, link_up).actions);
    plan
}

/// The steps of taking a backend down.
pub fn cleanup(link_present: bool) -> (actions: Vec<BackendAction>)
    ensures
        steps(actions@) == (if link_present {
            seq![
                BackendStep::RequireRoot,
                BackendStep::CleanupReturnPath,
                BackendStep::DeleteLink,
                BackendStep::RemoveMetrics,
            ]
        } else {
            seq![
                BackendStep::RequireRoot,
                BackendStep::CleanupReturnPath,
                BackendStep::RemoveMetrics,
            ]
        }),
{
    let mut actions: Vec<BackendAction> = Vec::new();
    assert(steps(actions@) =~= Seq::<BackendStep>::empty());
    push(&mut actions, BackendAction::RequireRoot);
    push(&mut actions, BackendAction::CleanupReturnPath);
    if link_present {
        push(&mut actions, BackendAction::DeleteLink);
    }
    push(&mut actions, BackendAction::RemoveMetrics);
    actions
}

// ---------------------------------------------------------------------------
// Laws
// ---------------------------------------------------------------------------

/// Nothing on the host is touched before the return paths are found valid and the
/// process may do it.
pub proof fn law_setup_is_guarded(cfg: Config, around: Surroundings, managed: bool, reuse: bool)
    ensures
        setup_plan(cfg, around, managed, reuse).actions.len() >= 2,
        setup_plan(cfg, around, managed, reuse).actions[0] == BackendStep::ValidateReturnPaths,
        setup_plan(cfg, around, managed, reuse).actions[1] == BackendStep::RequireRoot,
        setup_plan(cfg, around, managed, reuse).fault is Some
            ==> setup_plan(cfg, around, managed, reuse).actions.len() == 2,
{
}

/// Where the control planes say who is active, the election does not matter: the plan
/// is the same whichever gateway is active.
pub proof fn law_election_is_not_consulted(
    cfg: Config,
    around: Surroundings,
    active: Option<GatewayNode>,
    managed: bool,
    reuse: bool,
)
    requires
        cfg.active_source is Xds,
    ensures
        setup_plan(cfg, (Surroundings { active, ..around }), managed, reuse) == setup_plan(
            cfg,
            around,
            managed,
            reuse,
        ),
{
}

/// A backend goes by the first control plane where those say who is active, and by the
/// active gateway otherwise.
pub proof fn law_reference_is_chosen(cfg: Config, around: Surroundings)
    ensures
        cfg.active_source is Xds && cfg.gateway_nodes@.len() > 0 ==> reference(cfg, around) == Ok::<
            GatewayNode,
            BackendFault,
        >(cfg.gateway_nodes@[0]),
        cfg.active_source is Xds && cfg.gateway_nodes@.len() == 0 ==> reference(cfg, around)
            == Err::<GatewayNode, BackendFault>(BackendFault::NoControlPlane),
        !(cfg.active_source is Xds) ==> (around.active matches Some(gateway) ==> reference(
            cfg,
            around,
        ) == Ok::<GatewayNode, BackendFault>(gateway)),
        !(cfg.active_source is Xds) && around.active is None ==> reference(cfg, around) == Err::<
            GatewayNode,
            BackendFault,
        >(BackendFault::NoActiveGateway),
{
}

/// A backend of one gateway is set up with a tunnel to its gateway from its own overlay
/// address, with the route tables, the return path and the policy routing behind it.
pub proof fn law_backend_is_set_up(
    cfg: Config,
    around: Surroundings,
    local: BackendNode,
    gateway: GatewayNode,
    managed: bool,
    reuse: bool,
)
    requires
        reference(cfg, around) == Ok::<GatewayNode, BackendFault>(gateway),
        around.local == Some(local),
        multipoint(cfg, Some(local), around.nodes@) is None,
    ensures
        ({
            let plan = setup_plan(cfg, around, managed, reuse);
            &&& plan.fault is None
            &&& plan.actions.len() == 7
            &&& plan.actions[0] == BackendStep::ValidateReturnPaths
            &&& plan.actions[1] == BackendStep::RequireRoot
            &&& plan.actions[2] == BackendStep::TuneSysctls
            &&& plan.actions[3] matches BackendStep::EnsureVxlan(spec) && spec.remote == Some(
                gateway.underlay_ip,
            ) && spec.local_addr == local.overlay_ip@ && spec.dev == cfg.network.vxlan_dev@
            &&& plan.actions[4] == BackendStep::EnsureRouteTables
            &&& managed ==> plan.actions[5] == (BackendStep::ApplyManagedReturnPath { reuse })
            &&& !managed ==> plan.actions[5] == BackendStep::ApplyReturnPath
            &&& plan.actions[6] == BackendStep::EnsurePolicyRouting
        }),
{
}

/// A backend of several gateways has an address in the network of each, a tunnel without one
/// remote of its own choosing, and all of them as peers.
pub proof fn law_backend_of_many_is_set_up(
    cfg: Config,
    around: Surroundings,
    local: BackendNode,
    gateway: GatewayNode,
    addrs: Seq<Seq<char>>,
    peers: Seq<IpAddr>,
)
    requires
        reference(cfg, around) == Ok::<GatewayNode, BackendFault>(gateway),
        around.local == Some(local),
        multipoint(cfg, Some(local), around.nodes@) == Some((addrs, peers)),
    ensures
        setup_plan(cfg, around, false, false).actions.len() == 7,
        setup_plan(
            cfg,
            around,
            false,
            false,
        ).actions[3] matches BackendStep::EnsureMultipoint { spec, addrs: own, peers: all } && own
            == addrs && all == peers && spec.local_addr == addrs[0] && spec.remote == Some(
            gateway.underlay_ip,
        ),
        heal_plan(cfg, around, gateway.underlay_ip, true, true).actions == seq![
            BackendStep::EnsureLocalAddrs(addrs),
            BackendStep::SyncPeers(peers),
            BackendStep::HealReturnPath,
        ],
{
    assert(heal_plan(cfg, around, gateway.underlay_ip, true, true).actions =~= seq![
        BackendStep::EnsureLocalAddrs(addrs),
        BackendStep::SyncPeers(peers),
        BackendStep::HealReturnPath,
    ]);
}

/// A backend that turns to another gateway points its tunnel to it and renews the policy
/// routing.
pub proof fn law_switch_turns_the_tunnel(
    cfg: Config,
    around: Surroundings,
    local: BackendNode,
    remote: IpAddr,
)
    requires
        around.local == Some(local),
    ensures
        ({
            let plan = switch_plan(cfg, around, remote);
            &&& plan.fault is None
            &&& plan.actions.len() == 2
            &&& plan.actions[0] matches BackendStep::SetRemote(spec) && spec.remote == Some(remote)
                && spec.local_addr == local.overlay_ip@ && spec.dev == cfg.network.vxlan_dev@
            &&& plan.actions[1] == BackendStep::EnsurePolicyRouting
        }),
{
}

/// A backend that drifted brings its tunnel up where it is down, points it to the active
/// gateway and heals the return path; without a tunnel it cannot be healed.
pub proof fn law_drift_is_healed(
    cfg: Config,
    around: Surroundings,
    local: BackendNode,
    active: IpAddr,
)
    requires
        around.local == Some(local),
        multipoint(cfg, Some(local), around.nodes@) is None,
    ensures
        ({
            let up = heal_plan(cfg, around, active, true, true);
            let down = heal_plan(cfg, around, active, true, false);
            let gone = heal_plan(cfg, around, active, false, false);
            &&& up.actions.len() == 2
            &&& up.actions[0] matches BackendStep::EnsureVxlan(spec) && spec.remote == Some(active)
                && spec.local_addr == local.overlay_ip@
            &&& up.actions[1] == BackendStep::HealReturnPath
            &&& down.actions.len() == 3
            &&& down.actions[0] == (BackendStep::BringUp { mtu: cfg.network.vxlan_mtu })
            &&& down.actions[1] == up.actions[0]
            &&& down.actions[2] == BackendStep::HealReturnPath
            &&& up.fault is None
            &&& down.fault is None
            &&& gone.actions.len() == 0
            &&& gone.fault == Some(BackendFault::LinkMissing)
        }),
{
}

/// A backend that is not among the backends gets no plan.
pub proof fn law_strangers_get_no_plan(cfg: Config, around: Surroundings, remote: IpAddr)
    requires
        around.local is None,
        reference(cfg, around) is Ok,
    ensures
        setup_plan(cfg, around, false, false).fault == Some(BackendFault::NoLocalBackend),
        setup_plan(cfg, around, false, false).actions.len() == 2,
        switch_plan(cfg, around, remote).fault == Some(BackendFault::NoLocalBackend),
        switch_plan(cfg, around, remote).actions.len() == 0,
{
}

} // verus!
