//! Which gateway of a pair is active, and what follows from it for this node.
use crate::config::{
    GatewayHaPeer, GatewayHaRuntimeConfig, GatewayNode, VipBindDevice, VipConfig, VipProvider,
};
use super::store::DirtyFlag;
use crate::net::{format_ip, ip_text, ip_value, parse_ip, IpAddr};
use crate::text::{
    chars_of, clone_opt_text, lower, lower_text, opt_text, same_text, trim_text, trimmed,
};
use vstd::prelude::*;

verus! {

// ---------------------------------------------------------------------------
// State
// ---------------------------------------------------------------------------

/// The role of this gateway.
#[derive(Clone, Copy, Debug, PartialEq, Eq, Structural)]
pub enum HaRole {
    Master,
    Backup,
}

impl HaRole {
    /// The name of a role.
    pub open spec fn name(self) -> Seq<char> {
        match self {
            HaRole::Master => "MASTER"@,
            HaRole::Backup => "BACKUP"@,
        }
    }

    /// The name of a role.
    pub fn as_str(self) -> (name: &'static str)
        ensures
            name@ == self.name(),
    {
        match self {
            HaRole::Master => "MASTER",
            HaRole::Backup => "BACKUP",
        }
    }
}

/// What the API shows of the pair.
#[derive(Clone, Debug)]
pub struct NativeHaState {
    pub node: String,
    pub active_gateway: Option<String>,
    pub active_revision: Option<i64>,
    pub state: String,
    pub enabled: bool,
    pub peer_count: usize,
}

/// This node, and the gateway that is active as far as it is known.
#[derive(Clone, Debug)]
pub struct LocalGateway {
    pub node_name: String,
    pub underlay_ip: IpAddr,
    pub underlay_dev: String,
    /// The overlay address of a peer that does not name its own.
    pub overlay_ip: String,
    pub active: Option<GatewayNode>,
    pub active_revision: Option<i64>,
}

impl LocalGateway {
    /// Whether a gateway is this node.
    pub open spec fn is_self(self, gateway: GatewayNode) -> bool {
        gateway.name@ == self.node_name@ || gateway.underlay_ip == self.underlay_ip
    }

    /// Whether this node is the active gateway.
    pub open spec fn is_active(self) -> bool {
        self.active matches Some(gateway) && self.is_self(gateway)
    }

    /// Whether a gateway is this node.
    pub fn names_self(&self, gateway: &GatewayNode) -> (b: bool)
        ensures
            b == self.is_self(*gateway),
    {
        same_text(gateway.name.as_str(), self.node_name.as_str()) || gateway.underlay_ip
            == self.underlay_ip
    }

    /// Whether this node is the active gateway.
    pub fn local_gateway_is_active(&self) -> (b: bool)
        ensures
            b == self.is_active(),
    {
        match &self.active {
            Some(gateway) => self.names_self(gateway),
            None => false,
        }
    }

    /// The role of this node.
    pub open spec fn role(self) -> HaRole {
        if self.is_active() {
            HaRole::Master
        } else {
            HaRole::Backup
        }
    }
}

/// The name of the state that the API shows.
pub open spec fn state_name(node: LocalGateway, ha: GatewayHaRuntimeConfig) -> Seq<char> {
    if !ha.enabled {
        "disabled"@
    } else {
        node.role().name()
    }
}

/// What the API shows of the pair.
pub fn state(node: &LocalGateway, ha: &GatewayHaRuntimeConfig) -> (state: NativeHaState)
    ensures
        state.node@ == node.node_name@,
        opt_text(state.active_gateway) == (match node.active {
            Some(gateway) => Some(gateway.name@),
            None => None,
        }),
        state.active_revision == node.active_revision,
        state.state@ == state_name(*node, *ha),
        state.enabled == ha.enabled,
        state.peer_count == ha.peers@.len(),
{
    let name = if !ha.enabled {
        "disabled"
    } else if node.local_gateway_is_active() {
        "MASTER"
    } else {
        "BACKUP"
    };
    let active_gateway = match &node.active {
        Some(gateway) => Some(gateway.name.clone()),
        None => None,
    };
    NativeHaState {
        node: node.node_name.clone(),
        active_gateway,
        active_revision: node.active_revision,
        state: String::from_str(name),
        enabled: ha.enabled,
        peer_count: ha.peers.len(),
    }
}

/// What is written down of the pair, and whether the proxy state is to be brought in line.
#[derive(Clone, Debug)]
pub struct GatewayRecord {
    pub active: Option<String>,
    pub flag: DirtyFlag,
}

impl GatewayRecord {
    /// Writes down which gateway is active. That alone changes nothing about the proxy
    /// state: a change of it that waits to be taken up still waits, and none is made.
    pub fn write_active_gateway(&mut self, gateway: &str)
        ensures
            opt_text(final(self).active) == Some(gateway@),
            final(self).flag == old(self).flag,
    {
        self.active = Some(String::from_str(gateway));
    }
}

// ---------------------------------------------------------------------------
// What is done to the host
// ---------------------------------------------------------------------------

/// What a hook program is run for.
#[derive(Clone, Copy, Debug, PartialEq, Eq, Structural)]
pub enum HookAction {
    Promote,
    Demote,
    Verify,
}

impl HookAction {
    /// The name that a hook program is told.
    pub fn as_str(self) -> (name: &'static str)
        ensures
            name@ == (match self {
                HookAction::Promote => "promote"@,
                HookAction::Demote => "demote"@,
                HookAction::Verify => "verify"@,
            }),
    {
        match self {
            HookAction::Promote => "promote",
            HookAction::Demote => "demote",
            HookAction::Verify => "verify",
        }
    }
}

/// One thing to do to the host.
#[derive(Clone, Debug)]
pub enum HostAction {
    /// Put the shared address on a device.
    Bind { vip: IpAddr, device: String },
    /// Tell the neighbours of a device where the shared address is.
    Announce { vip: IpAddr },
    /// Take the shared address off a device.
    Release { vip: IpAddr, device: String },
    /// Run a hook program.
    RunHook { program: String, action: HookAction, role: HaRole, vip: String },
    /// Write down which gateway is active.
    Commit { gateway: String },
}

/// One thing to do to the host, as plain values.
pub enum HostActionView {
    Bind { vip: IpAddr, device: Seq<char> },
    Announce { vip: IpAddr },
    Release { vip: IpAddr, device: Seq<char> },
    RunHook { program: Seq<char>, action: HookAction, role: HaRole, vip: Seq<char> },
    Commit { gateway: Seq<char> },
}

impl View for HostAction {
    type V = HostActionView;

    open spec fn view(&self) -> HostActionView {
        match *self {
            HostAction::Bind { vip, device } => HostActionView::Bind { vip, device: device@ },
            HostAction::Announce { vip } => HostActionView::Announce { vip },
            HostAction::Release { vip, device } => HostActionView::Release { vip, device: device@ },
            HostAction::RunHook { program, action, role, vip } => HostActionView::RunHook {
                program: program@,
                action,
                role,
                vip: vip@,
            },
            HostAction::Commit { gateway } => HostActionView::Commit { gateway: gateway@ },
        }
    }
}

/// Things to do, as plain values.
pub open spec fn action_views(actions: Seq<HostAction>) -> Seq<HostActionView> {
    actions.map_values(|action: HostAction| action@)
}

/// Why nothing is done, or no more.
#[derive(Clone, Copy, Debug, PartialEq, Eq, Structural)]
pub enum HaFault {
    /// The shared address is none.
    BadVip,
    /// A hook state is none that is known.
    UnknownState,
    /// The gateway to switch to is not known.
    UnknownGateway,
    /// The gateway to switch to is not a peer.
    NotPeer,
    /// A step failed.
    StepFailed,
    /// A step failed, and so did putting things back.
    RestoreFailed,
}

/// Things to do in order, up to the first that fails; where all went well, the
/// fault is reported.
#[derive(Clone, Debug)]
pub struct HostPlan {
    pub actions: Vec<HostAction>,
    pub fault: Option<HaFault>,
}

/// Things to do, as plain values.
pub struct HostPlanView {
    pub actions: Seq<HostActionView>,
    pub fault: Option<HaFault>,
}

impl View for HostPlan {
    type V = HostPlanView;

    open spec fn view(&self) -> HostPlanView {
        HostPlanView { actions: action_views(self.actions@), fault: self.fault }
    }
}

/// Nothing to do.
pub open spec fn idle() -> HostPlanView {
    HostPlanView { actions: Seq::empty(), fault: None }
}

fn no_actions(fault: Option<HaFault>) -> (plan: HostPlan)
    ensures
        plan@ == (HostPlanView { actions: Seq::empty(), fault }),
{
    let plan = HostPlan { actions: Vec::new(), fault };
    assert(action_views(plan.actions@) =~= Seq::<HostActionView>::empty());
    plan
}

fn one_action(action: HostAction) -> (plan: HostPlan)
    ensures
        plan@ == (HostPlanView { actions: seq![action@], fault: None }),
{
    let mut actions: Vec<HostAction> = Vec::new();
    actions.push(action);
    assert(action_views(actions@) =~= seq![action@]);
    HostPlan { actions, fault: None }
}

fn two_actions(first: HostAction, second: HostAction) -> (plan: HostPlan)
    ensures
        plan@ == (HostPlanView { actions: seq![first@, second@], fault: None }),
{
    let mut actions: Vec<HostAction> = Vec::new();
    actions.push(first);
    actions.push(second);
    assert(action_views(actions@) =~= seq![first@, second@]);
    HostPlan { actions, fault: None }
}

/// The device of the shared address.
pub open spec fn device_name(node: LocalGateway, vip: VipConfig) -> Seq<char> {
    match vip.bind_device {
        VipBindDevice::Underlay => node.underlay_dev@,
        VipBindDevice::Loopback => "lo"@,
    }
}

/// The device of the shared address.
pub fn vip_device(node: &LocalGateway, vip: &VipConfig) -> (device: String)
    ensures
        device@ == device_name(*node, *vip),
{
    match vip.bind_device {
        VipBindDevice::Underlay => node.underlay_dev.clone(),
        VipBindDevice::Loopback => String::from_str("lo"),
    }
}

// ---------------------------------------------------------------------------
// Hook programs
// ---------------------------------------------------------------------------

/// The role and address that hook programs were last run for.
#[derive(Clone, Debug)]
pub struct HookState {
    pub role: HaRole,
    pub vip: String,
}

/// The role and address that hook programs were last run for, as plain values.
pub open spec fn hook_view(last: Option<HookState>) -> Option<(HaRole, Seq<char>)> {
    match last {
        Some(last) => Some((last.role, last.vip@)),
        None => None,
    }
}

/// The address that hook programs are told.
pub open spec fn hook_vip(vip: VipConfig, given: Option<Seq<char>>) -> Seq<char> {
    match given {
        Some(text) => text,
        None => match vip.private_vip {
            Some(text) => text@,
            None => Seq::empty(),
        },
    }
}

/// Runs the program of a role, then the one that verifies.
pub open spec fn hook_runs(vip: VipConfig, role: HaRole, address: Seq<char>) -> HostPlanView {
    let (program, action) = match role {
        HaRole::Master => (vip.promote_hook@, HookAction::Promote),
        HaRole::Backup => (vip.demote_hook@, HookAction::Demote),
    };
    HostPlanView {
        actions: seq![
            HostActionView::RunHook { program, action, role, vip: address },
            HostActionView::RunHook {
                program: vip.verify_hook@,
                action: HookAction::Verify,
                role,
                vip: address,
            },
        ],
        fault: None,
    }
}

/// What to do about hook programs: they run where the role or the address changed,
/// or where it is asked for.
pub open spec fn hook_plan(
    vip: VipConfig,
    last: Option<(HaRole, Seq<char>)>,
    role: HaRole,
    given: Option<Seq<char>>,
    force: bool,
) -> HostPlanView {
    let address = hook_vip(vip, given);
    if !force && last == Some((role, address)) {
        idle()
    } else {
        hook_runs(vip, role, address)
    }
}

fn choose_hook_vip(vip: &VipConfig, given: &Option<String>) -> (address: String)
    ensures
        address@ == hook_vip(*vip, opt_text(*given)),
{
    match given {
        Some(text) => text.clone(),
        None => match &vip.private_vip {
            Some(text) => text.clone(),
            None => {
                let empty = String::new();
                assert(empty@ =~= Seq::<char>::empty());
                empty
            },
        },
    }
}

fn same_hook_state(last: &Option<HookState>, role: HaRole, address: &str) -> (b: bool)
    ensures
        b == (hook_view(*last) == Some((role, address@))),
{
    match last {
        Some(last) => last.role == role && same_text(last.vip.as_str(), address),
        None => false,
    }
}

/// What to do about hook programs.
pub fn apply_managed_hook_state(
    vip: &VipConfig,
    last: &Option<HookState>,
    role: HaRole,
    given: &Option<String>,
    force: bool,
) -> (plan: HostPlan)
    ensures
        plan@ == hook_plan(*vip, hook_view(*last), role, opt_text(*given), force),
{
    let address = choose_hook_vip(vip, given);
    if !force && same_hook_state(last, role, address.as_str()) {
        return no_actions(None);
    }
    let (program, action) = match role {
        HaRole::Master => (vip.promote_hook.clone(), HookAction::Promote),
        HaRole::Backup => (vip.demote_hook.clone(), HookAction::Demote),
    };
    two_actions(
        HostAction::RunHook { program, action, role, vip: address.clone() },
        HostAction::RunHook {
            program: vip.verify_hook.clone(),
            action: HookAction::Verify,
            role,
            vip: address,
        },
    )
}

/// What is remembered once the programs of a plan ran well.
pub fn hook_state_after(vip: &VipConfig, role: HaRole, given: &Option<String>) -> (state: HookState)
    ensures
        hook_view(Some(state)) == Some((role, hook_vip(*vip, opt_text(*given)))),
{
    HookState { role, vip: choose_hook_vip(vip, given) }
}

// ---------------------------------------------------------------------------
// The shared address on this node
// ---------------------------------------------------------------------------

/// The shared address, where one is set.
pub open spec fn shared_address(vip: VipConfig) -> Result<Option<IpAddr>, HaFault> {
    match vip.private_vip {
        None => Ok(None),
        Some(text) => match ip_value(text@) {
            Some(ip) => Ok(Some(ip)),
            None => Err(HaFault::BadVip),
        },
    }
}

fn parse_shared_address(vip: &VipConfig) -> (address: Result<Option<IpAddr>, HaFault>)
    ensures
        address == shared_address(*vip),
{
    match &vip.private_vip {
        None => Ok(None),
        Some(text) => {
            let chars = chars_of(text.as_str());
            match parse_ip(chars.as_slice()) {
                Some(ip) => Ok(Some(ip)),
                None => Err(HaFault::BadVip),
            }
        },
    }
}

/// Puts the shared address where it belongs: an address that is there already is
/// not announced again.
pub open spec fn vip_plan(
    node: LocalGateway,
    vip: VipConfig,
    address: IpAddr,
    wanted: bool,
    bound: bool,
) -> HostPlanView {
    let device = device_name(node, vip);
    if wanted && !bound {
        HostPlanView {
            actions: seq![
                HostActionView::Bind { vip: address, device },
                HostActionView::Announce { vip: address },
            ],
            fault: None,
        }
    } else if !wanted && bound {
        HostPlanView {
            actions: seq![HostActionView::Release { vip: address, device }],
            fault: None,
        }
    } else {
        idle()
    }
}

fn plan_vip(node: &LocalGateway, vip: &VipConfig, address: IpAddr, wanted: bool, bound: bool) -> (plan:
    HostPlan)
    ensures
        plan@ == vip_plan(*node, *vip, address, wanted, bound),
{
    if wanted && !bound {
        two_actions(
            HostAction::Bind { vip: address, device: vip_device(node, vip) },
            HostAction::Announce { vip: address },
        )
    } else if !wanted && bound {
        one_action(HostAction::Release { vip: address, device: vip_device(node, vip) })
    } else {
        no_actions(None)
    }
}

/// Brings the shared address in line with the gateway that is active. `bound` says
/// whether the address is on its device.
pub open spec fn reconcile_plan(
    node: LocalGateway,
    ha: GatewayHaRuntimeConfig,
    last: Option<(HaRole, Seq<char>)>,
    force: bool,
    bound: bool,
) -> HostPlanView {
    if ha.enabled && ha.vip.provider == VipProvider::Hook {
        hook_plan(ha.vip, last, node.role(), None, force)
    } else {
        match shared_address(ha.vip) {
            Err(fault) => HostPlanView { actions: Seq::empty(), fault: Some(fault) },
            Ok(None) => idle(),
            Ok(Some(address)) => vip_plan(
                node,
                ha.vip,
                address,
                ha.enabled && ha.vip.provider == VipProvider::L2 && node.is_active(),
                bound,
            ),
        }
    }
}

fn reconcile_vip_inner(
    node: &LocalGateway,
    ha: &GatewayHaRuntimeConfig,
    last: &Option<HookState>,
    force: bool,
    bound: bool,
) -> (plan: HostPlan)
    ensures
        plan@ == reconcile_plan(*node, *ha, hook_view(*last), force, bound),
{
    if ha.enabled && ha.vip.provider == VipProvider::Hook {
        let role = if node.local_gateway_is_active() {
            HaRole::Master
        } else {
            HaRole::Backup
        };
        return apply_managed_hook_state(&ha.vip, last, role, &None, force);
    }
    match parse_shared_address(&ha.vip) {
        Err(fault) => no_actions(Some(fault)),
        Ok(None) => no_actions(None),
        Ok(Some(address)) => {
            let wanted = ha.enabled && ha.vip.provider == VipProvider::L2
                && node.local_gateway_is_active();
            plan_vip(node, &ha.vip, address, wanted, bound)
        },
    }
}

/// Brings the shared address in line with the gateway that is active. Something
/// changes exactly where the plan is not empty.
pub fn reconcile_vip(
    node: &LocalGateway,
    ha: &GatewayHaRuntimeConfig,
    last: &Option<HookState>,
    bound: bool,
) -> (plan: HostPlan)
    ensures
        plan@ == reconcile_plan(*node, *ha, hook_view(*last), false, bound),
{
    reconcile_vip_inner(node, ha, last, false, bound)
}

/// Brings the shared address in line with the gateway that was just made active:
/// hook programs run even where the role is the same.
pub fn reconcile_vip_after_activation(
    node: &LocalGateway,
    ha: &GatewayHaRuntimeConfig,
    last: &Option<HookState>,
    bound: bool,
) -> (plan: HostPlan)
    ensures
        plan@ == reconcile_plan(*node, *ha, hook_view(*last), true, bound),
{
    reconcile_vip_inner(node, ha, last, true, bound)
}

/// Gives up the shared address.
pub open spec fn release_plan(
    node: LocalGateway,
    ha: GatewayHaRuntimeConfig,
    bound: bool,
) -> HostPlanView {
    if !ha.enabled {
        idle()
    } else if ha.vip.provider == VipProvider::Hook {
        hook_runs(ha.vip, HaRole::Backup, hook_vip(ha.vip, None))
    } else if ha.vip.provider != VipProvider::L2 {
        idle()
    } else {
        match shared_address(ha.vip) {
            Err(fault) => HostPlanView { actions: Seq::empty(), fault: Some(fault) },
            Ok(None) => idle(),
            Ok(Some(address)) => vip_plan(node, ha.vip, address, false, bound),
        }
    }
}

/// Gives up the shared address.
pub fn release_local_vip(node: &LocalGateway, ha: &GatewayHaRuntimeConfig, bound: bool) -> (plan:
    HostPlan)
    ensures
        plan@ == release_plan(*node, *ha, bound),
{
    if !ha.enabled {
        return no_actions(None);
    }
    if ha.vip.provider == VipProvider::Hook {
        return apply_managed_hook_state(&ha.vip, &None, HaRole::Backup, &None, true);
    }
    if ha.vip.provider != VipProvider::L2 {
        return no_actions(None);
    }
    match parse_shared_address(&ha.vip) {
        Err(fault) => no_actions(Some(fault)),
        Ok(None) => no_actions(None),
        Ok(Some(address)) => plan_vip(node, &ha.vip, address, false, bound),
    }
}

/// What taking a role came to.
#[derive(Clone, Copy, Debug, PartialEq, Eq, Structural)]
pub struct LocalHaRoleResult {
    pub garp_announced: bool,
    pub vip_bound: bool,
}

/// What this node does to take a role.
pub open spec fn role_plan(
    node: LocalGateway,
    ha: GatewayHaRuntimeConfig,
    last: Option<(HaRole, Seq<char>)>,
    active: bool,
    force: bool,
    bound: bool,
) -> HostPlanView {
    if !ha.enabled {
        idle()
    } else if ha.vip.provider == VipProvider::Hook {
        hook_plan(
            ha.vip,
            last,
            if active {
                HaRole::Master
            } else {
                HaRole::Backup
            },
            None,
            force,
        )
    } else if ha.vip.provider != VipProvider::L2 {
        idle()
    } else {
        match shared_address(ha.vip) {
            Err(fault) => HostPlanView { actions: Seq::empty(), fault: Some(fault) },
            Ok(None) => idle(),
            Ok(Some(address)) => vip_plan(node, ha.vip, address, active, bound),
        }
    }
}

/// What taking a role comes to, if all goes well.
pub open spec fn role_result(ha: GatewayHaRuntimeConfig, active: bool, bound: bool) -> LocalHaRoleResult {
    let managed = ha.enabled && ha.vip.provider == VipProvider::L2 && shared_address(
        ha.vip,
    ) matches Ok(Some(_));
    LocalHaRoleResult {
        garp_announced: managed && active && !bound,
        vip_bound: managed && active,
    }
}

/// What this node does to take a role, and what it comes to if all goes well.
pub fn apply_local_ha_role(
    node: &LocalGateway,
    ha: &GatewayHaRuntimeConfig,
    last: &Option<HookState>,
    active: bool,
    force: bool,
    bound: bool,
) -> (plan: (HostPlan, LocalHaRoleResult))
    ensures
        plan.0@ == role_plan(*node, *ha, hook_view(*last), active, force, bound),
        plan.1 == role_result(*ha, active, bound),
{
    let none = LocalHaRoleResult { garp_announced: false, vip_bound: false };
    if !ha.enabled {
        return (no_actions(None), none);
    }
    if ha.vip.provider == VipProvider::Hook {
        let role = if active {
            HaRole::Master
        } else {
            HaRole::Backup
        };
        return (apply_managed_hook_state(&ha.vip, last, role, &None, force), none);
    }
    if ha.vip.provider != VipProvider::L2 {
        return (no_actions(None), none);
    }
    match parse_shared_address(&ha.vip) {
        Err(fault) => (no_actions(Some(fault)), none),
        Ok(None) => (no_actions(None), none),
        Ok(Some(address)) => (
            plan_vip(node, &ha.vip, address, active, bound),
            LocalHaRoleResult { garp_announced: active && !bound, vip_bound: active },
        ),
    }
}

// ---------------------------------------------------------------------------
// Events from outside
// ---------------------------------------------------------------------------

/// A role that another program decided on.
#[derive(Clone, Debug)]
pub struct KaHookEvent {
    pub instance: String,
    pub state: String,
    pub vip: String,
}

/// The address of an event, where it names one.
pub open spec fn event_vip(event: KaHookEvent) -> Option<Seq<char>> {
    if trimmed(event.vip@).len() == 0 {
        None
    } else {
        Some(trimmed(event.vip@))
    }
}

/// What follows from an event. A gateway that becomes active binds the address as
/// well as announcing it.
pub open spec fn event_plan(
    node: LocalGateway,
    ha: GatewayHaRuntimeConfig,
    event: KaHookEvent,
) -> HostPlanView {
    let state = lower(trimmed(event.state@));
    let device = device_name(node, ha.vip);
    let commit = HostActionView::Commit { gateway: node.node_name@ };
    if state == "master"@ {
        if ha.vip.provider == VipProvider::Hook {
            HostPlanView {
                actions: seq![commit] + hook_runs(
                    ha.vip,
                    HaRole::Master,
                    hook_vip(ha.vip, event_vip(event)),
                ).actions,
                fault: None,
            }
        } else if event_vip(event) is None {
            HostPlanView { actions: seq![commit], fault: None }
        } else {
            match ip_value(event.vip@) {
                None => HostPlanView { actions: seq![commit], fault: Some(HaFault::BadVip) },
                Some(vip) => HostPlanView {
                    actions: seq![
                        commit,
                        HostActionView::Bind { vip, device },
                        HostActionView::Announce { vip },
                    ],
                    fault: None,
                },
            }
        }
    } else if state == "backup"@ || state == "stop"@ {
        if ha.vip.provider == VipProvider::Hook {
            hook_runs(ha.vip, HaRole::Backup, hook_vip(ha.vip, event_vip(event)))
        } else if event_vip(event) is None {
            idle()
        } else {
            match ip_value(event.vip@) {
                None => HostPlanView { actions: Seq::empty(), fault: Some(HaFault::BadVip) },
                Some(vip) => HostPlanView {
                    actions: seq![HostActionView::Release { vip, device }],
                    fault: None,
                },
            }
        }
    } else {
        HostPlanView { actions: Seq::empty(), fault: Some(HaFault::UnknownState) }
    }
}

fn non_empty(text: &str) -> (out: Option<String>)
    ensures
        opt_text(out) == if trimmed(text@).len() == 0 {
            None
        } else {
            Some(trimmed(text@))
        },
{
    let kept = trim_text(text);
    if kept.as_str().is_empty() {
        None
    } else {
        Some(kept)
    }
}

fn plan_master_event(node: &LocalGateway, ha: &GatewayHaRuntimeConfig, event: &KaHookEvent) -> (plan:
    HostPlan)
    requires
        lower(trimmed(event.state@)) == "master"@,
    ensures
        plan@ == event_plan(*node, *ha, *event),
{
    let given = non_empty(event.vip.as_str());
    let ghost commit = HostActionView::Commit { gateway: node.node_name@ };
    let mut actions: Vec<HostAction> = Vec::new();
    actions.push(HostAction::Commit { gateway: node.node_name.clone() });
    assert(action_views(actions@) =~= seq![commit]);
    if ha.vip.provider == VipProvider::Hook {
        let mut hooks = apply_managed_hook_state(&ha.vip, &None, HaRole::Master, &given, true);
        let ghost more = action_views(hooks.actions@);
        assert(hooks.actions@.len() == 2) by {
            assert(more.len() == hooks.actions@.len());
        }
        let second = hooks.actions.remove(1);
        let first = hooks.actions.remove(0);
        assert(more[0] == first@ && more[1] == second@);
        actions.push(first);
        actions.push(second);
        assert(action_views(actions@) =~= seq![commit] + more);
        return HostPlan { actions, fault: None };
    }
    if given.is_none() {
        return HostPlan { actions, fault: None };
    }
    let chars = chars_of(event.vip.as_str());
    match parse_ip(chars.as_slice()) {
        None => HostPlan { actions, fault: Some(HaFault::BadVip) },
        Some(vip) => {
            let device = vip_device(node, &ha.vip);
            actions.push(HostAction::Bind { vip, device });
            actions.push(HostAction::Announce { vip });
            assert(action_views(actions@) =~= seq![
                commit,
                HostActionView::Bind { vip, device: device@ },
                HostActionView::Announce { vip },
            ]);
            HostPlan { actions, fault: None }
        },
    }
}

/// What follows from an event.
pub fn handle_ka_hook_event(
    node: &LocalGateway,
    ha: &GatewayHaRuntimeConfig,
    event: &KaHookEvent,
) -> (plan: HostPlan)
    ensures
        plan@ == event_plan(*node, *ha, *event),
{
    let kept = trim_text(event.state.as_str());
    let state = lower_text(kept.as_str());
    if same_text(state.as_str(), "master") {
        return plan_master_event(node, ha, event);
    }
    if !same_text(state.as_str(), "backup") && !same_text(state.as_str(), "stop") {
        return no_actions(Some(HaFault::UnknownState));
    }
    let given = non_empty(event.vip.as_str());
    if ha.vip.provider == VipProvider::Hook {
        return apply_managed_hook_state(&ha.vip, &None, HaRole::Backup, &given, true);
    }
    if given.is_none() {
        return no_actions(None);
    }
    let chars = chars_of(event.vip.as_str());
    match parse_ip(chars.as_slice()) {
        None => no_actions(Some(HaFault::BadVip)),
        Some(vip) => one_action(HostAction::Release { vip, device: vip_device(node, &ha.vip) }),
    }
}

// ---------------------------------------------------------------------------
// Switching to another gateway
// ---------------------------------------------------------------------------

/// A gateway as plain values.
pub struct GatewayView {
    pub name: Seq<char>,
    pub public_ip: IpAddr,
    pub underlay_ip: IpAddr,
    pub overlay_ip: Seq<char>,
}

/// A gateway as plain values.
pub open spec fn gateway_view(gateway: GatewayNode) -> GatewayView {
    GatewayView {
        name: gateway.name@,
        public_ip: gateway.public_ip,
        underlay_ip: gateway.underlay_ip,
        overlay_ip: gateway.overlay_ip@,
    }
}

/// A peer as a gateway, where its address is one.
pub open spec fn peer_gateway(peer: GatewayHaPeer, overlay_ip: Seq<char>) -> Option<GatewayView> {
    match ip_value(peer.underlay_ip@) {
        None => None,
        Some(underlay_ip) => Some(
            GatewayView {
                name: peer.name@,
                public_ip: match peer.public_ip {
                    Some(text) => match ip_value(text@) {
                        Some(ip) => ip,
                        None => underlay_ip,
                    },
                    None => underlay_ip,
                },
                underlay_ip,
                overlay_ip: match peer.overlay_ip {
                    Some(text) => text@,
                    None => overlay_ip,
                },
            },
        ),
    }
}

/// The first peer that a key names, as a gateway.
pub open spec fn peer_by_key(
    peers: Seq<GatewayHaPeer>,
    key: Seq<char>,
    overlay_ip: Seq<char>,
) -> Option<GatewayView>
    decreases peers.len(),
{
    if peers.len() == 0 {
        None
    } else if (peers[0].name@ == key || peers[0].underlay_ip@ == key) && peer_gateway(
        peers[0],
        overlay_ip,
    ) is Some {
        peer_gateway(peers[0], overlay_ip)
    } else {
        peer_by_key(peers.skip(1), key, overlay_ip)
    }
}

fn to_gateway(peer: &GatewayHaPeer, overlay_ip: &str) -> (gateway: Option<GatewayNode>)
    ensures
        match gateway {
            Some(gateway) => peer_gateway(*peer, overlay_ip@) == Some(gateway_view(gateway)),
            None => peer_gateway(*peer, overlay_ip@) is None,
        },
{
    let chars = chars_of(peer.underlay_ip.as_str());
    let underlay_ip = match parse_ip(chars.as_slice()) {
        None => {
            return None;
        },
        Some(ip) => ip,
    };
    let public_ip = match &peer.public_ip {
        Some(text) => {
            let chars = chars_of(text.as_str());
            match parse_ip(chars.as_slice()) {
                Some(ip) => ip,
                None => underlay_ip,
            }
        },
        None => underlay_ip,
    };
    let overlay = match &peer.overlay_ip {
        Some(text) => text.clone(),
        None => String::from_str(overlay_ip),
    };
    Some(GatewayNode { name: peer.name.clone(), public_ip, underlay_ip, overlay_ip: overlay })
}

fn find_peer(peers: &[GatewayHaPeer], key: &str, overlay_ip: &str) -> (gateway: Option<GatewayNode>)
    ensures
        match gateway {
            Some(gateway) => peer_by_key(peers@, key@, overlay_ip@) == Some(gateway_view(gateway)),
            None => peer_by_key(peers@, key@, overlay_ip@) is None,
        },
{
    let mut i: usize = 0;
    assert(peers@.skip(0) =~= peers@);
    while i < peers.len()
        invariant
            i <= peers.len(),
            peer_by_key(peers@, key@, overlay_ip@) == peer_by_key(
                peers@.skip(i as int),
                key@,
                overlay_ip@,
            ),
        decreases peers.len() - i,
    {
        assert(peers@.skip(i as int).skip(1) =~= peers@.skip(i + 1));
        if same_text(peers[i].name.as_str(), key) || same_text(peers[i].underlay_ip.as_str(), key) {
            if let Some(gateway) = to_gateway(&peers[i], overlay_ip) {
                return Some(gateway);
            }
        }
        i += 1;
    }
    None
}

/// Whether a gateway is a peer.
pub open spec fn is_peer(peers: Seq<GatewayHaPeer>, name: Seq<char>, underlay_ip: IpAddr) -> bool {
    exists|i: int|
        0 <= i < peers.len() && ((#[trigger] peers[i]).name@ == name || peers[i].underlay_ip@
            == ip_text(underlay_ip))
}

fn has_peer(peers: &[GatewayHaPeer], name: &str, underlay_ip: IpAddr) -> (b: bool)
    ensures
        b == is_peer(peers@, name@, underlay_ip),
{
    let text = format_ip(underlay_ip);
    let mut i: usize = 0;
    while i < peers.len()
        invariant
            i <= peers.len(),
            text@ == ip_text(underlay_ip),
            forall|j: int|
                0 <= j < i ==> (#[trigger] peers@[j]).name@ != name@ && peers@[j].underlay_ip@
                    != ip_text(underlay_ip),
        decreases peers.len() - i,
    {
        if same_text(peers[i].name.as_str(), name) || same_text(
            peers[i].underlay_ip.as_str(),
            text.as_str(),
        ) {
            assert(peers@[i as int].name@ == name@ || peers@[i as int].underlay_ip@ == ip_text(
                underlay_ip,
            ));
            return true;
        }
        i += 1;
    }
    false
}

/// Where a switch stands.
#[derive(Clone, Copy, Debug, PartialEq, Eq, Structural)]
pub enum SwitchStage {
    /// The peers are told that this node takes over.
    TakeoverNotify,
    /// This node takes the active role.
    TakeoverRole,
    /// The peers are told that all is as it was.
    TakeoverRestore,
    /// This node gives up the active role.
    HandoffRole,
    /// The peers are told who takes over.
    HandoffNotify,
    /// This node takes the active role back.
    HandoffRestore,
    /// The active gateway is written down.
    Commit,
    Done,
    Failed(HaFault),
}

/// What a switch asks for next.
#[derive(Clone, Debug)]
pub enum SwitchAction {
    /// Tell the peers which gateway is active.
    NotifyPeers { gateway: String },
    /// Take or give up the active role on this node.
    ApplyRole { active: bool },
    /// Write down which gateway is active.
    Commit { gateway: String },
    Finished,
    Failed(HaFault),
}

/// A switch of the active gateway.
#[derive(Clone, Debug)]
pub struct Switch {
    pub stage: SwitchStage,
    pub target: String,
    pub previous: Option<String>,
    pub vip: Option<String>,
    /// Whether the peers were told before this node took over.
    pub notified: bool,
    pub role: LocalHaRoleResult,
}

/// What came of a switch.
#[derive(Clone, Debug)]
pub struct SwitchActiveResult {
    pub gateway: String,
    pub vip: Option<String>,
    pub garp_announced: bool,
    pub vip_bound: bool,
}

/// Where a switch begins.
pub open spec fn first_stage(
    node: LocalGateway,
    ha: GatewayHaRuntimeConfig,
    target: GatewayView,
    coordinate: bool,
) -> Result<SwitchStage, HaFault> {
    let local = target.name == node.node_name@ || target.underlay_ip == node.underlay_ip;
    if !ha.enabled {
        Ok(SwitchStage::Commit)
    } else if local {
        if coordinate && !node.is_active() {
            Ok(SwitchStage::TakeoverNotify)
        } else {
            Ok(SwitchStage::TakeoverRole)
        }
    } else if is_peer(ha.peers@, target.name, target.underlay_ip) {
        Ok(SwitchStage::HandoffRole)
    } else {
        Err(HaFault::NotPeer)
    }
}

/// The gateway to switch to: a known one, or a peer.
pub open spec fn switch_target(
    node: LocalGateway,
    ha: GatewayHaRuntimeConfig,
    known: Option<GatewayNode>,
    key: Seq<char>,
) -> Option<GatewayView> {
    match known {
        Some(gateway) => Some(gateway_view(gateway)),
        None => peer_by_key(ha.peers@, key, node.overlay_ip@),
    }
}

/// Whether a switch begins as it should.
pub open spec fn begins(
    switch: Result<Switch, HaFault>,
    node: LocalGateway,
    ha: GatewayHaRuntimeConfig,
    known: Option<GatewayNode>,
    key: Seq<char>,
    coordinate: bool,
) -> bool {
    match switch_target(node, ha, known, key) {
        None => switch == Err::<Switch, HaFault>(HaFault::UnknownGateway),
        Some(target) => match (switch, first_stage(node, ha, target, coordinate)) {
            (Err(fault), Err(wanted)) => fault == wanted,
            (Ok(switch), Ok(stage)) => {
                &&& switch.stage == stage
                &&& switch.target@ == target.name
                &&& opt_text(switch.previous) == (match node.active {
                    Some(gateway) => Some(gateway.name@),
                    None => None,
                })
                &&& opt_text(switch.vip) == opt_text(ha.vip.private_vip)
                &&& !switch.notified
                &&& switch.role == (LocalHaRoleResult { garp_announced: false, vip_bound: false })
            },
            _ => false,
        },
    }
}

fn begin_switch(
    node: &LocalGateway,
    ha: &GatewayHaRuntimeConfig,
    known: Option<GatewayNode>,
    key: &str,
    coordinate: bool,
) -> (switch: Result<Switch, HaFault>)
    ensures
        begins(switch, *node, *ha, known, key@, coordinate),
{
    let target = match known {
        Some(gateway) => gateway,
        None => match find_peer(ha.peers.as_slice(), key, node.overlay_ip.as_str()) {
            Some(gateway) => gateway,
            None => {
                return Err(HaFault::UnknownGateway);
            },
        },
    };
    let stage = if !ha.enabled {
        SwitchStage::Commit
    } else if node.names_self(&target) {
        if coordinate && !node.local_gateway_is_active() {
            SwitchStage::TakeoverNotify
        } else {
            SwitchStage::TakeoverRole
        }
    } else if has_peer(ha.peers.as_slice(), target.name.as_str(), target.underlay_ip) {
        SwitchStage::HandoffRole
    } else {
        return Err(HaFault::NotPeer);
    };
    let previous = match &node.active {
        Some(gateway) => Some(gateway.name.clone()),
        None => None,
    };
    Ok(
        Switch {
            stage,
            target: target.name,
            previous,
            vip: clone_opt_text(&ha.vip.private_vip),
            notified: false,
            role: LocalHaRoleResult { garp_announced: false, vip_bound: false },
        },
    )
}

/// Begins a switch to a gateway. `known` is the configured gateway of the key.
pub fn switch_active_gateway(
    node: &LocalGateway,
    ha: &GatewayHaRuntimeConfig,
    known: Option<GatewayNode>,
    key: &str,
) -> (switch: Result<Switch, HaFault>)
    ensures
        begins(switch, *node, *ha, known, key@, false),
{
    begin_switch(node, ha, known, key, false)
}

/// Begins a switch to a gateway; where this node takes over, its peers are told
/// first.
pub fn switch_active_gateway_coordinated(
    node: &LocalGateway,
    ha: &GatewayHaRuntimeConfig,
    known: Option<GatewayNode>,
    key: &str,
) -> (switch: Result<Switch, HaFault>)
    ensures
        begins(switch, *node, *ha, known, key@, true),
{
    begin_switch(node, ha, known, key, true)
}

/// Where a switch goes on after a step.
pub open spec fn next_stage(switch: Switch, ok: bool) -> SwitchStage {
    match switch.stage {
        SwitchStage::TakeoverNotify => if ok {
            SwitchStage::TakeoverRole
        } else {
            SwitchStage::Failed(HaFault::StepFailed)
        },
        SwitchStage::TakeoverRole => if ok {
            SwitchStage::Commit
        } else if switch.notified && switch.previous is Some {
            SwitchStage::TakeoverRestore
        } else {
            SwitchStage::Failed(HaFault::StepFailed)
        },
        SwitchStage::TakeoverRestore => if ok {
            SwitchStage::Failed(HaFault::StepFailed)
        } else {
            SwitchStage::Failed(HaFault::RestoreFailed)
        },
        SwitchStage::HandoffRole => if ok {
            SwitchStage::HandoffNotify
        } else {
            SwitchStage::Failed(HaFault::StepFailed)
        },
        SwitchStage::HandoffNotify => if ok {
            SwitchStage::Commit
        } else {
            SwitchStage::HandoffRestore
        },
        SwitchStage::HandoffRestore => if ok {
            SwitchStage::Failed(HaFault::StepFailed)
        } else {
            SwitchStage::Failed(HaFault::RestoreFailed)
        },
        SwitchStage::Commit => if ok {
            SwitchStage::Done
        } else {
            SwitchStage::Failed(HaFault::StepFailed)
        },
        SwitchStage::Done => SwitchStage::Done,
        SwitchStage::Failed(fault) => SwitchStage::Failed(fault),
    }
}

/// What a switch asks for next, as plain values.
pub enum SwitchActionView {
    NotifyPeers { gateway: Seq<char> },
    ApplyRole { active: bool },
    Commit { gateway: Seq<char> },
    Finished,
    Failed(HaFault),
}

/// What a switch asks for next.
pub open spec fn next_action(switch: Switch) -> SwitchActionView {
    match switch.stage {
        SwitchStage::TakeoverNotify | SwitchStage::HandoffNotify => SwitchActionView::NotifyPeers {
            gateway: switch.target@,
        },
        SwitchStage::TakeoverRole | SwitchStage::HandoffRestore => SwitchActionView::ApplyRole {
            active: true,
        },
        SwitchStage::HandoffRole => SwitchActionView::ApplyRole { active: false },
        SwitchStage::TakeoverRestore => match switch.previous {
            Some(gateway) => SwitchActionView::NotifyPeers { gateway: gateway@ },
            None => SwitchActionView::Failed(HaFault::StepFailed),
        },
        SwitchStage::Commit => SwitchActionView::Commit { gateway: switch.target@ },
        SwitchStage::Done => SwitchActionView::Finished,
        SwitchStage::Failed(fault) => SwitchActionView::Failed(fault),
    }
}

impl View for SwitchAction {
    type V = SwitchActionView;

    open spec fn view(&self) -> SwitchActionView {
        match *self {
            SwitchAction::NotifyPeers { gateway } => SwitchActionView::NotifyPeers {
                gateway: gateway@,
            },
            SwitchAction::ApplyRole { active } => SwitchActionView::ApplyRole { active },
            SwitchAction::Commit { gateway } => SwitchActionView::Commit { gateway: gateway@ },
            SwitchAction::Finished => SwitchActionView::Finished,
            SwitchAction::Failed(fault) => SwitchActionView::Failed(fault),
        }
    }
}

impl Switch {
    /// What the switch asks for next.
    pub fn action(&self) -> (action: SwitchAction)
        ensures
            action@ == next_action(*self),
    {
        match self.stage {
            SwitchStage::TakeoverNotify | SwitchStage::HandoffNotify => SwitchAction::NotifyPeers {
                gateway: self.target.clone(),
            },
            SwitchStage::TakeoverRole | SwitchStage::HandoffRestore => SwitchAction::ApplyRole {
                active: true,
            },
            SwitchStage::HandoffRole => SwitchAction::ApplyRole { active: false },
            SwitchStage::TakeoverRestore => match &self.previous {
                Some(gateway) => SwitchAction::NotifyPeers { gateway: gateway.clone() },
                None => SwitchAction::Failed(HaFault::StepFailed),
            },
            SwitchStage::Commit => SwitchAction::Commit { gateway: self.target.clone() },
            SwitchStage::Done => SwitchAction::Finished,
            SwitchStage::Failed(fault) => SwitchAction::Failed(fault),
        }
    }

    /// Goes on after what was asked for went well or failed. `role` is what taking
    /// the active role came to.
    pub fn advance(&mut self, ok: bool, role: LocalHaRoleResult)
        ensures
            final(self).stage == next_stage(*old(self), ok),
            final(self).target == old(self).target,
            final(self).previous == old(self).previous,
            final(self).vip == old(self).vip,
            final(self).notified == (old(self).notified || (old(self).stage
                == SwitchStage::TakeoverNotify && ok)),
            final(self).role == if old(self).stage == SwitchStage::TakeoverRole && ok {
                role
            } else {
                old(self).role
            },
    {
        let stage = self.stage;
        if stage == SwitchStage::TakeoverNotify && ok {
            self.notified = true;
        }
        if stage == SwitchStage::TakeoverRole && ok {
            self.role = role;
        }
        self.stage = match stage {
            SwitchStage::TakeoverNotify => if ok {
                SwitchStage::TakeoverRole
            } else {
                SwitchStage::Failed(HaFault::StepFailed)
            },
            SwitchStage::TakeoverRole => if ok {
                SwitchStage::Commit
            } else if self.notified && self.previous.is_some() {
                SwitchStage::TakeoverRestore
            } else {
                SwitchStage::Failed(HaFault::StepFailed)
            },
            SwitchStage::TakeoverRestore | SwitchStage::HandoffRestore => if ok {
                SwitchStage::Failed(HaFault::StepFailed)
            } else {
                SwitchStage::Failed(HaFault::RestoreFailed)
            },
            SwitchStage::HandoffRole => if ok {
                SwitchStage::HandoffNotify
            } else {
                SwitchStage::Failed(HaFault::StepFailed)
            },
            SwitchStage::HandoffNotify => if ok {
                SwitchStage::Commit
            } else {
                SwitchStage::HandoffRestore
            },
            SwitchStage::Commit => if ok {
                SwitchStage::Done
            } else {
                SwitchStage::Failed(HaFault::StepFailed)
            },
            SwitchStage::Done => SwitchStage::Done,
            SwitchStage::Failed(fault) => SwitchStage::Failed(fault),
        };
    }

    /// What came of the switch.
    pub fn result(&self) -> (result: SwitchActiveResult)
        ensures
            result.gateway@ == self.target@,
            opt_text(result.vip) == opt_text(self.vip),
            result.garp_announced == self.role.garp_announced,
            result.vip_bound == self.role.vip_bound,
    {
        SwitchActiveResult {
            gateway: self.target.clone(),
            vip: clone_opt_text(&self.vip),
            garp_announced: self.role.garp_announced,
            vip_bound: self.role.vip_bound,
        }
    }
}

/// Whether the peers were told well: each answered with a success, and where
/// another node is active, it is one of them. `statuses` are the answers in the
/// order of the peers; none is asked after one that failed.
pub open spec fn peers_told(
    peers: Seq<GatewayHaPeer>,
    statuses: Seq<u16>,
    gateway: Seq<char>,
    node_name: Seq<char>,
) -> bool {
    &&& statuses.len() == peers.len()
    &&& forall|i: int| 0 <= i < statuses.len() ==> 200 <= #[trigger] statuses[i] < 300
    &&& peers.len() == 0 || gateway == node_name || exists|i: int|
        0 <= i < peers.len() && (#[trigger] peers[i]).name@ == gateway
}

/// Whether the peers were told well.
pub fn notify_peers_outcome(
    peers: &[GatewayHaPeer],
    statuses: &[u16],
    gateway: &str,
    node_name: &str,
) -> (ok: bool)
    ensures
        ok == peers_told(peers@, statuses@, gateway@, node_name@),
{
    if statuses.len() != peers.len() {
        return false;
    }
    let mut named = false;
    let mut i: usize = 0;
    while i < peers.len()
        invariant
            i <= peers.len() == statuses.len(),
            forall|j: int| 0 <= j < i ==> 200 <= #[trigger] statuses@[j] < 300,
            named == exists|j: int| 0 <= j < i && (#[trigger] peers@[j]).name@ == gateway@,
        decreases peers.len() - i,
    {
        if statuses[i] < 200 || statuses[i] >= 300 {
            assert(!(200 <= statuses@[i as int] < 300));
            return false;
        }
        if same_text(peers[i].name.as_str(), gateway) {
            assert(peers@[i as int].name@ == gateway@);
            named = true;
        }
        i += 1;
    }
    peers.len() == 0 || same_text(gateway, node_name) || named
}

// ---------------------------------------------------------------------------
// Stopping
// ---------------------------------------------------------------------------

/// Where giving up the shared address stands when this node stops.
#[derive(Clone, Copy, Debug, PartialEq, Eq, Structural)]
pub enum ShutdownStage {
    /// The first peer is made active.
    Handoff,
    /// The address is given up here.
    Release,
    Done,
    Failed(HaFault),
}

/// Giving up the shared address when this node stops.
#[derive(Clone, Debug)]
pub struct Shutdown {
    pub stage: ShutdownStage,
    /// Who takes over.
    pub peer: String,
}

/// What is asked for next.
#[derive(Clone, Debug)]
pub enum ShutdownStep {
    /// Switch to a peer.
    Handoff { peer: String },
    /// Give up the shared address, or run the hook program that does.
    Release { plan: HostPlan },
    Finished,
    Failed(HaFault),
}

/// Where stopping begins. Nothing is done where the pair is off or the address is not
/// managed; only an active node that has a peer hands over.
pub open spec fn shutdown_stage(node: LocalGateway, ha: GatewayHaRuntimeConfig) -> ShutdownStage {
    if !ha.enabled || ha.vip.provider == VipProvider::Unmanaged {
        ShutdownStage::Done
    } else if node.is_active() && ha.peers@.len() > 0 {
        ShutdownStage::Handoff
    } else {
        ShutdownStage::Release
    }
}

/// Where stopping goes on. A handoff that failed is not the result: the address is given
/// up here instead, and what comes of that is.
pub open spec fn shutdown_after(stage: ShutdownStage, fault: Option<HaFault>) -> ShutdownStage {
    match (stage, fault) {
        (ShutdownStage::Handoff, None) => ShutdownStage::Done,
        (ShutdownStage::Handoff, Some(_)) => ShutdownStage::Release,
        (ShutdownStage::Release, None) => ShutdownStage::Done,
        (ShutdownStage::Release, Some(fault)) => ShutdownStage::Failed(fault),
        _ => stage,
    }
}

/// Whether a step is what stopping asks for.
pub open spec fn asks_shutdown(
    shutdown: Shutdown,
    node: LocalGateway,
    ha: GatewayHaRuntimeConfig,
    bound: bool,
    step: ShutdownStep,
) -> bool {
    match shutdown.stage {
        ShutdownStage::Handoff => step matches ShutdownStep::Handoff { peer } && peer@
            == shutdown.peer@,
        ShutdownStage::Release => step matches ShutdownStep::Release { plan } && plan@
            == release_plan(node, ha, bound),
        ShutdownStage::Done => step is Finished,
        ShutdownStage::Failed(fault) => step == ShutdownStep::Failed(fault),
    }
}

/// Begins to give up the shared address because this node stops.
pub fn handoff_or_release_on_shutdown(node: &LocalGateway, ha: &GatewayHaRuntimeConfig) -> (shutdown:
    Shutdown)
    ensures
        shutdown.stage == shutdown_stage(*node, *ha),
        shutdown.stage == ShutdownStage::Handoff ==> shutdown.peer@ == ha.peers@[0].name@,
{
    if !ha.enabled || ha.vip.provider == VipProvider::Unmanaged {
        return Shutdown { stage: ShutdownStage::Done, peer: String::new() };
    }
    if node.local_gateway_is_active() && ha.peers.len() > 0 {
        return Shutdown { stage: ShutdownStage::Handoff, peer: ha.peers[0].name.clone() };
    }
    Shutdown { stage: ShutdownStage::Release, peer: String::new() }
}

impl Shutdown {
    /// What is asked for next. `bound` says whether the shared address is on its device
    /// now.
    pub fn action(&self, node: &LocalGateway, ha: &GatewayHaRuntimeConfig, bound: bool) -> (step:
        ShutdownStep)
        ensures
            asks_shutdown(*self, *node, *ha, bound, step),
    {
        match self.stage {
            ShutdownStage::Handoff => ShutdownStep::Handoff { peer: self.peer.clone() },
            ShutdownStage::Release => ShutdownStep::Release {
                plan: release_local_vip(node, ha, bound),
            },
            ShutdownStage::Done => ShutdownStep::Finished,
            ShutdownStage::Failed(fault) => ShutdownStep::Failed(fault),
        }
    }

    /// Goes on after what was asked for went well or failed.
    pub fn advance(&mut self, fault: Option<HaFault>)
        ensures
            final(self).stage == shutdown_after(old(self).stage, fault),
            final(self).peer == old(self).peer,
    {
        self.stage = match (self.stage, fault) {
            (ShutdownStage::Handoff, None) => ShutdownStage::Done,
            (ShutdownStage::Handoff, Some(_)) => ShutdownStage::Release,
            (ShutdownStage::Release, None) => ShutdownStage::Done,
            (ShutdownStage::Release, Some(fault)) => ShutdownStage::Failed(fault),
            (stage, _) => stage,
        };
    }
}

// ---------------------------------------------------------------------------
// Laws
// ---------------------------------------------------------------------------

/// The stages of a switch that a run of outcomes leads through.
pub open spec fn run_to(switch: Switch, outcomes: Seq<bool>) -> Switch
    decreases outcomes.len(),
{
    if outcomes.len() == 0 {
        switch
    } else {
        let before = run_to(switch, outcomes.drop_last());
        let ok = outcomes.last();
        Switch {
            stage: next_stage(before, ok),
            notified: before.notified || (before.stage == SwitchStage::TakeoverNotify && ok),
            ..before
        }
    }
}

/// Whether a switch is past its failure.
pub open spec fn is_lost(stage: SwitchStage) -> bool {
    stage is Failed || stage == SwitchStage::TakeoverRestore || stage == SwitchStage::HandoffRestore
}

/// A switch that is lost stays lost.
proof fn lemma_lost_stays(switch: Switch, outcomes: Seq<bool>)
    requires
        is_lost(switch.stage),
    ensures
        is_lost(run_to(switch, outcomes).stage),
    decreases outcomes.len(),
{
    if outcomes.len() > 0 {
        lemma_lost_stays(switch, outcomes.drop_last());
    }
}

/// Once a step fails, the active gateway is never written down, whatever follows.
pub proof fn law_no_commit_after_failure(switch: Switch, outcomes: Seq<bool>)
    requires
        !(switch.stage is Done),
    ensures
        ({
            let failed = Switch { stage: next_stage(switch, false), ..switch };
            &&& !(next_action(run_to(failed, outcomes)) is Commit)
            &&& !(next_action(run_to(failed, outcomes)) is Finished)
        }),
{
    let failed = Switch { stage: next_stage(switch, false), ..switch };
    assert(is_lost(failed.stage));
    lemma_lost_stays(failed, outcomes);
}

/// A switch ends well only after the active gateway was written down.
pub proof fn law_done_needs_commit(switch: Switch, ok: bool)
    requires
        !(switch.stage is Done),
        next_stage(switch, ok) is Done,
    ensures
        next_action(switch) is Commit,
        ok,
{
}

/// A node that stops and cannot hand over gives the address up itself; that the handoff
/// failed is never the result, whatever it failed with.
pub proof fn law_failed_shutdown_handoff_releases(handoff: HaFault, released: Option<HaFault>)
    ensures
        ({
            let behind = shutdown_after(ShutdownStage::Handoff, Some(handoff));
            &&& behind == ShutdownStage::Release
            &&& shutdown_after(behind, released) == match released {
                None => ShutdownStage::Done,
                Some(fault) => ShutdownStage::Failed(fault),
            }
        }),
        shutdown_after(ShutdownStage::Handoff, None) == ShutdownStage::Done,
{
}

/// A node that gave up the active role takes it back where its peers could not be
/// told.
pub proof fn law_failed_handoff_restores_role(switch: Switch)
    requires
        switch.stage == SwitchStage::HandoffNotify,
    ensures
        next_action(Switch { stage: next_stage(switch, false), ..switch })
            == (SwitchActionView::ApplyRole { active: true }),
{
}

/// Peers that were told of a takeover are told who was active before, where this
/// node could not take the active role.
pub proof fn law_failed_takeover_restores_peer(switch: Switch)
    requires
        switch.stage == SwitchStage::TakeoverRole,
        switch.notified,
        switch.previous is Some,
    ensures
        next_action(Switch { stage: next_stage(switch, false), ..switch })
            == (SwitchActionView::NotifyPeers { gateway: switch.previous.unwrap()@ }),
{
}

/// Hook programs run only where the role or the address changed: bringing things
/// in line a second time does nothing, unless it is asked for.
pub proof fn law_hooks_run_on_change(
    vip: VipConfig,
    last: Option<(HaRole, Seq<char>)>,
    role: HaRole,
)
    ensures
        hook_plan(vip, Some((role, hook_vip(vip, None))), role, None, false) == idle(),
        hook_plan(vip, last, role, None, true) == hook_runs(vip, role, hook_vip(vip, None)),
        last != Some((role, hook_vip(vip, None))) ==> hook_plan(vip, last, role, None, false)
            == hook_runs(vip, role, hook_vip(vip, None)),
{
}

/// Once the shared address is where it belongs, bringing things in line does
/// nothing.
pub proof fn law_reconcile_settles(
    node: LocalGateway,
    vip: VipConfig,
    address: IpAddr,
    wanted: bool,
)
    ensures
        vip_plan(node, vip, address, wanted, wanted) == idle(),
{
}

/// A gateway that is made active from outside is written down as such before
/// anything else.
pub proof fn law_event_of_active_commits_first(
    node: LocalGateway,
    ha: GatewayHaRuntimeConfig,
    event: KaHookEvent,
)
    requires
        lower(trimmed(event.state@)) == "master"@,
    ensures
        event_plan(node, ha, event).actions.len() > 0,
        event_plan(node, ha, event).actions[0] == (HostActionView::Commit {
            gateway: node.node_name@,
        }),
{
}

/// Where the pair manages a shared address on the local network, the active gateway binds
/// it to its device and announces it if it is not there yet, any other gives it up if it
/// is there, and nothing is done otherwise. It makes no difference whether this is brought
/// in line or a role is taken.
pub proof fn law_active_gateway_holds_the_address(
    node: LocalGateway,
    ha: GatewayHaRuntimeConfig,
    text: String,
    address: IpAddr,
    last: Option<(HaRole, Seq<char>)>,
    force: bool,
    bound: bool,
    device: Seq<char>,
)
    requires
        ha.enabled,
        ha.vip.provider == VipProvider::L2,
        ha.vip.private_vip == Some(text),
        ip_value(text@) == Some(address),
        device == (match ha.vip.bind_device {
            VipBindDevice::Underlay => node.underlay_dev@,
            VipBindDevice::Loopback => "lo"@,
        }),
    ensures
        ({
            let up = seq![
                HostActionView::Bind { vip: address, device },
                HostActionView::Announce { vip: address },
            ];
            let down = seq![HostActionView::Release { vip: address, device }];
            let active = node.active matches Some(gateway) && (gateway.name@ == node.node_name@
                || gateway.underlay_ip == node.underlay_ip);
            let plan = reconcile_plan(node, ha, last, force, bound);
            &&& active && !bound ==> plan.actions == up
            &&& !active && bound ==> plan.actions == down
            &&& active == bound ==> plan.actions.len() == 0
            &&& plan.fault is None
            &&& !bound ==> role_plan(node, ha, last, true, force, bound).actions == up
            &&& bound ==> role_plan(node, ha, last, true, force, bound).actions.len() == 0
            &&& bound ==> role_plan(node, ha, last, false, force, bound).actions == down
            &&& !bound ==> role_plan(node, ha, last, false, force, bound).actions.len() == 0
            &&& bound ==> release_plan(node, ha, bound).actions == down
            &&& !bound ==> release_plan(node, ha, bound).actions.len() == 0
            &&& role_result(ha, true, bound).vip_bound
            &&& role_result(ha, true, bound).garp_announced == !bound
            &&& !role_result(ha, false, bound).vip_bound
            &&& !role_result(ha, false, bound).garp_announced
        }),
{
}

/// Where hook programs manage the shared address, becoming active runs the one that
/// promotes and giving up the role the one that demotes, each with the address and followed
/// by the one that verifies; the role that they were last run for is not run for again
/// unless it is asked for.
pub proof fn law_hooks_follow_the_role(
    node: LocalGateway,
    ha: GatewayHaRuntimeConfig,
    last: Option<(HaRole, Seq<char>)>,
    active: bool,
    force: bool,
    bound: bool,
)
    requires
        ha.enabled,
        ha.vip.provider == VipProvider::Hook,
    ensures
        ({
            let address = match ha.vip.private_vip {
                Some(text) => text@,
                None => Seq::empty(),
            };
            let up = seq![
                HostActionView::RunHook {
                    program: ha.vip.promote_hook@,
                    action: HookAction::Promote,
                    role: HaRole::Master,
                    vip: address,
                },
                HostActionView::RunHook {
                    program: ha.vip.verify_hook@,
                    action: HookAction::Verify,
                    role: HaRole::Master,
                    vip: address,
                },
            ];
            let down = seq![
                HostActionView::RunHook {
                    program: ha.vip.demote_hook@,
                    action: HookAction::Demote,
                    role: HaRole::Backup,
                    vip: address,
                },
                HostActionView::RunHook {
                    program: ha.vip.verify_hook@,
                    action: HookAction::Verify,
                    role: HaRole::Backup,
                    vip: address,
                },
            ];
            let master = role_plan(node, ha, last, true, force, bound).actions;
            let backup = role_plan(node, ha, last, false, force, bound).actions;
            &&& force || last != Some((HaRole::Master, address)) ==> master == up
            &&& !force && last == Some((HaRole::Master, address)) ==> master.len() == 0
            &&& force || last != Some((HaRole::Backup, address)) ==> backup == down
            &&& !force && last == Some((HaRole::Backup, address)) ==> backup.len() == 0
            &&& release_plan(node, ha, bound).actions == down
            &&& reconcile_plan(node, ha, last, force, bound).actions == (if node.is_active() {
                master
            } else {
                backup
            })
        }),
{
}

/// A pair that is switched off, or whose address is not managed, does nothing to take a
/// role or to give one up.
pub proof fn law_unmanaged_pairs_do_nothing(
    node: LocalGateway,
    ha: GatewayHaRuntimeConfig,
    last: Option<(HaRole, Seq<char>)>,
    active: bool,
    force: bool,
    bound: bool,
)
    requires
        !ha.enabled || ha.vip.provider == VipProvider::Unmanaged,
    ensures
        role_plan(node, ha, last, active, force, bound).actions.len() == 0,
        role_plan(node, ha, last, active, force, bound).fault is None,
        release_plan(node, ha, bound).actions.len() == 0,
        !role_result(ha, active, bound).vip_bound,
        shutdown_stage(node, ha) == ShutdownStage::Done,
{
}

/// A node that becomes master from outside is written down as active and binds and announces
/// the address; one that becomes backup or stops gives it up; any other state is refused.
/// Blanks and capital letters make no difference.
pub proof fn law_outside_roles_are_followed(
    node: LocalGateway,
    ha: GatewayHaRuntimeConfig,
    event: KaHookEvent,
    vip: IpAddr,
    device: Seq<char>,
)
    requires
        ha.vip.provider != VipProvider::Hook,
        trimmed(event.vip@).len() > 0,
        ip_value(event.vip@) == Some(vip),
        device == (match ha.vip.bind_device {
            VipBindDevice::Underlay => node.underlay_dev@,
            VipBindDevice::Loopback => "lo"@,
        }),
    ensures
        ({
            let state = lower(trimmed(event.state@));
            let plan = event_plan(node, ha, event);
            &&& state == "master"@ ==> plan.fault is None && plan.actions == seq![
                HostActionView::Commit { gateway: node.node_name@ },
                HostActionView::Bind { vip, device },
                HostActionView::Announce { vip },
            ]
            &&& state == "backup"@ || state == "stop"@ ==> plan.fault is None && plan.actions
                == seq![HostActionView::Release { vip, device }]
            &&& state != "master"@ && state != "backup"@ && state != "stop"@ ==> plan.actions.len()
                == 0 && plan.fault == Some(HaFault::UnknownState)
        }),
{
    reveal_strlit("master");
    reveal_strlit("backup");
    reveal_strlit("stop");
    assert("master"@[0] != "backup"@[0]);
    assert("master"@.len() != "stop"@.len());
}

/// A takeover tells the peers who is active, takes the role and writes it down, each only
/// where the one before went well. Where the role cannot be taken, the peers are told of
/// the gateway that was active before.
pub proof fn law_takeover_goes_in_order(switch: Switch)
    requires
        switch.stage == SwitchStage::TakeoverNotify,
    ensures
        next_action(switch) == (SwitchActionView::NotifyPeers { gateway: switch.target@ }),
        next_action(run_to(switch, seq![true])) == (SwitchActionView::ApplyRole { active: true }),
        next_action(run_to(switch, seq![true, true])) == (SwitchActionView::Commit {
            gateway: switch.target@,
        }),
        next_action(run_to(switch, seq![true, true, true])) == SwitchActionView::Finished,
        next_action(run_to(switch, seq![false])) == SwitchActionView::Failed(HaFault::StepFailed),
        switch.previous matches Some(name) ==> next_action(run_to(switch, seq![true, false])) == (
        SwitchActionView::NotifyPeers { gateway: name@ }),
        switch.previous is None ==> next_action(run_to(switch, seq![true, false]))
            == SwitchActionView::Failed(HaFault::StepFailed),
{
    let one = run_to(switch, seq![true]);
    let two = run_to(switch, seq![true, true]);
    lemma_runs(switch, true, true, true);
    lemma_runs(switch, true, false, true);
    lemma_runs(switch, false, true, true);
    lemma_runs(one, true, true, true);
    lemma_runs(one, false, true, true);
    lemma_runs(two, true, true, true);
}

/// A handoff gives up the role, tells the peers who is active and writes it down, each only
/// where the one before went well.
pub proof fn law_handoff_goes_in_order(switch: Switch)
    requires
        switch.stage == SwitchStage::HandoffRole,
    ensures
        next_action(switch) == (SwitchActionView::ApplyRole { active: false }),
        next_action(run_to(switch, seq![true])) == (SwitchActionView::NotifyPeers {
            gateway: switch.target@,
        }),
        next_action(run_to(switch, seq![true, true])) == (SwitchActionView::Commit {
            gateway: switch.target@,
        }),
        next_action(run_to(switch, seq![true, true, true])) == SwitchActionView::Finished,
        next_action(run_to(switch, seq![false])) == SwitchActionView::Failed(HaFault::StepFailed),
        next_action(run_to(switch, seq![true, false])) == (SwitchActionView::ApplyRole {
            active: true,
        }),
{
    let one = run_to(switch, seq![true]);
    let two = run_to(switch, seq![true, true]);
    lemma_runs(switch, true, true, true);
    lemma_runs(switch, true, false, true);
    lemma_runs(switch, false, true, true);
    lemma_runs(one, true, true, true);
    lemma_runs(one, false, true, true);
    lemma_runs(two, true, true, true);
}

proof fn lemma_runs(switch: Switch, a: bool, b: bool, c: bool)
    ensures
        run_to(switch, seq![a]) == (Switch {
            stage: next_stage(switch, a),
            notified: switch.notified || (switch.stage == SwitchStage::TakeoverNotify && a),
            ..switch
        }),
        run_to(switch, seq![a, b]) == run_to(run_to(switch, seq![a]), seq![b]),
        run_to(switch, seq![a, b, c]) == run_to(run_to(switch, seq![a, b]), seq![c]),
{
    assert(seq![a].drop_last() =~= Seq::empty());
    assert(seq![b].drop_last() =~= Seq::empty());
    assert(seq![c].drop_last() =~= Seq::empty());
    assert(seq![a, b].drop_last() =~= seq![a]);
    assert(seq![a, b, c].drop_last() =~= seq![a, b]);
    reveal_with_fuel(run_to, 2);
}

/// A switch to this node takes over, after telling the peers where it is coordinated and
/// this node is not active yet; a switch to a peer hands over; a switch to anything else is
/// refused. Without a pair it is only written down.
pub proof fn law_switches_begin_right(
    node: LocalGateway,
    ha: GatewayHaRuntimeConfig,
    target: GatewayView,
    coordinate: bool,
    i: int,
)
    ensures
        ({
            let begun = first_stage(node, ha, target, coordinate);
            let here = target.name == node.node_name@ || target.underlay_ip == node.underlay_ip;
            let active = node.active matches Some(gateway) && (gateway.name@ == node.node_name@
                || gateway.underlay_ip == node.underlay_ip);
            &&& !ha.enabled ==> begun == Ok::<SwitchStage, HaFault>(SwitchStage::Commit)
            &&& ha.enabled && here && coordinate && !active ==> begun == Ok::<SwitchStage, HaFault>(
                SwitchStage::TakeoverNotify,
            )
            &&& ha.enabled && here && (!coordinate || active) ==> begun == Ok::<
                SwitchStage,
                HaFault,
            >(SwitchStage::TakeoverRole)
            &&& ha.enabled && !here && 0 <= i < ha.peers@.len() && (ha.peers@[i].name@
                == target.name || ha.peers@[i].underlay_ip@ == ip_text(target.underlay_ip))
                ==> begun == Ok::<SwitchStage, HaFault>(SwitchStage::HandoffRole)
            &&& ha.enabled && !here && (forall|k: int|
                0 <= k < ha.peers@.len() ==> (#[trigger] ha.peers@[k]).name@ != target.name
                    && ha.peers@[k].underlay_ip@ != ip_text(target.underlay_ip)) ==> begun == Err::<
                SwitchStage,
                HaFault,
            >(HaFault::NotPeer)
        }),
{
}

/// The API shows a node of a pair as master where it is the active gateway and as backup
/// otherwise, and a pair that is switched off as disabled.
pub proof fn law_roles_are_shown(node: LocalGateway, ha: GatewayHaRuntimeConfig)
    ensures
        !ha.enabled ==> state_name(node, ha) == "disabled"@,
        ha.enabled && (node.active matches Some(gateway) && (gateway.name@ == node.node_name@
            || gateway.underlay_ip == node.underlay_ip)) ==> state_name(node, ha) == "MASTER"@,
        ha.enabled && !(node.active matches Some(gateway) && (gateway.name@ == node.node_name@
            || gateway.underlay_ip == node.underlay_ip)) ==> state_name(node, ha) == "BACKUP"@,
{
}

/// A node that stops hands over to the first peer where it is active and has one; otherwise
/// it only gives the address up.
pub proof fn law_stopping_node_hands_over(node: LocalGateway, ha: GatewayHaRuntimeConfig)
    requires
        ha.enabled,
        ha.vip.provider != VipProvider::Unmanaged,
    ensures
        (node.active matches Some(gateway) && (gateway.name@ == node.node_name@
            || gateway.underlay_ip == node.underlay_ip)) && ha.peers@.len() > 0 ==> shutdown_stage(
            node,
            ha,
        ) == ShutdownStage::Handoff,
        !(node.active matches Some(gateway) && (gateway.name@ == node.node_name@
            || gateway.underlay_ip == node.underlay_ip)) || ha.peers@.len() == 0 ==> shutdown_stage(
            node,
            ha,
        ) == ShutdownStage::Release,
{
}

/// The peers are told well only if every one of them answered with a success and a gateway
/// other than this node is among them.
pub proof fn law_every_peer_has_to_answer(
    peers: Seq<GatewayHaPeer>,
    statuses: Seq<u16>,
    gateway: Seq<char>,
    node_name: Seq<char>,
    i: int,
)
    ensures
        peers_told(peers, statuses, gateway, node_name) && 0 <= i < peers.len() ==> i
            < statuses.len() && 200 <= statuses[i] <= 299,
        0 <= i < statuses.len() && (statuses[i] < 200 || statuses[i] >= 300) ==> !peers_told(
            peers,
            statuses,
            gateway,
            node_name,
        ),
        statuses.len() == peers.len() && (forall|k: int|
            0 <= k < statuses.len() ==> 200 <= #[trigger] statuses[k] <= 299) && gateway
            == node_name ==> peers_told(peers, statuses, gateway, node_name),
        peers.len() > 0 && gateway != node_name && (forall|k: int|
            0 <= k < peers.len() ==> (#[trigger] peers[k]).name@ != gateway) ==> !peers_told(
            peers,
            statuses,
            gateway,
            node_name,
        ),
{
}

/// A peer is a gateway where its underlay address is one: with its own name and addresses,
/// the underlay address in the place of a public one that it does not have, and the overlay
/// address of this node in the place of one that it does not name.
pub proof fn law_peers_are_gateways(peer: GatewayHaPeer, overlay_ip: Seq<char>, ip: IpAddr)
    requires
        ip_value(peer.underlay_ip@) == Some(ip),
    ensures
        match peer_gateway(peer, overlay_ip) {
            None => false,
            Some(gateway) => {
                &&& gateway.name == peer.name@
                &&& gateway.underlay_ip == ip
                &&& peer.public_ip is None ==> gateway.public_ip == ip
                &&& peer.public_ip matches Some(text) ==> (ip_value(text@) matches Some(public)
                    ==> gateway.public_ip == public)
                &&& peer.overlay_ip is None ==> gateway.overlay_ip == overlay_ip
                &&& peer.overlay_ip matches Some(text) ==> gateway.overlay_ip == text@
            },
        },
{
}

/// The gateway that is switched to is the known one, or else the first peer with that name or
/// underlay address that is a gateway.
pub proof fn law_switch_finds_its_gateway(
    node: LocalGateway,
    ha: GatewayHaRuntimeConfig,
    known: GatewayNode,
    key: Seq<char>,
    i: int,
)
    ensures
        switch_target(node, ha, Some(known), key) matches Some(target) && target.name == known.name@
            && target.underlay_ip == known.underlay_ip && target.public_ip == known.public_ip
            && target.overlay_ip == known.overlay_ip@,
        0 <= i < ha.peers@.len() && (ha.peers@[i].name@ == key || ha.peers@[i].underlay_ip@ == key)
            && peer_gateway(ha.peers@[i], node.overlay_ip@) is Some && (forall|k: int|
            0 <= k < i ==> (#[trigger] ha.peers@[k]).name@ != key && ha.peers@[k].underlay_ip@
                != key) ==> switch_target(node, ha, None, key) == peer_gateway(
            ha.peers@[i],
            node.overlay_ip@,
        ),
        (forall|k: int|
            0 <= k < ha.peers@.len() ==> (#[trigger] ha.peers@[k]).name@ != key
                && ha.peers@[k].underlay_ip@ != key) ==> switch_target(node, ha, None, key) is None,
{
    lemma_peer_by_key(ha.peers@, key, node.overlay_ip@, i);
}

proof fn lemma_peer_by_key(
    peers: Seq<GatewayHaPeer>,
    key: Seq<char>,
    overlay_ip: Seq<char>,
    i: int,
)
    ensures
        0 <= i < peers.len() && (peers[i].name@ == key || peers[i].underlay_ip@ == key)
            && peer_gateway(peers[i], overlay_ip) is Some && (forall|k: int|
            0 <= k < i ==> (#[trigger] peers[k]).name@ != key && peers[k].underlay_ip@ != key)
            ==> peer_by_key(peers, key, overlay_ip) == peer_gateway(peers[i], overlay_ip),
        (forall|k: int|
            0 <= k < peers.len() ==> (#[trigger] peers[k]).name@ != key && peers[k].underlay_ip@
                != key) ==> peer_by_key(peers, key, overlay_ip) is None,
    decreases peers.len(),
{
    if peers.len() > 0 {
        let rest = peers.skip(1);
        assert(forall|k: int| 0 <= k < rest.len() ==> #[trigger] rest[k] == peers[k + 1]);
        lemma_peer_by_key(rest, key, overlay_ip, i - 1);
        if 0 < i < peers.len() {
            assert(rest[i - 1] == peers[i]);
        }
    }
}

/// A switch to a gateway that is not known is refused; one that begins remembers the gateway
/// that it leads to, the one that was active, and the shared address.
pub proof fn law_switches_remember(
    switch: Switch,
    node: LocalGateway,
    ha: GatewayHaRuntimeConfig,
    key: Seq<char>,
    target: GatewayView,
    active: GatewayNode,
    coordinate: bool,
)
    requires
        switch_target(node, ha, None, key) == Some(target),
        node.active == Some(active),
        begins(Ok(switch), node, ha, None, key, coordinate),
    ensures
        switch.target@ == target.name,
        switch.previous matches Some(name) && name@ == active.name@,
        !switch.notified,
        first_stage(node, ha, target, coordinate) == Ok::<SwitchStage, HaFault>(switch.stage),
        ha.vip.private_vip matches Some(vip) ==> (switch.vip matches Some(text) && text@ == vip@),
{
}

/// A node that stops first hands over to its peer and then gives the address up, where that is
/// its stage.
pub proof fn law_stopping_node_asks(
    shutdown: Shutdown,
    node: LocalGateway,
    ha: GatewayHaRuntimeConfig,
    bound: bool,
    step: ShutdownStep,
)
    requires
        asks_shutdown(shutdown, node, ha, bound, step),
    ensures
        shutdown.stage == ShutdownStage::Handoff ==> (step matches ShutdownStep::Handoff { peer }
            && peer@ == shutdown.peer@),
        shutdown.stage == ShutdownStage::Release ==> (step matches ShutdownStep::Release { plan }
            && plan@ == release_plan(node, ha, bound)),
        shutdown.stage == ShutdownStage::Done ==> step == ShutdownStep::Finished,
{
}

} // verus!
