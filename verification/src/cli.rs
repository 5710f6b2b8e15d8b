//! What the command line asks for.
use crate::config::{BackendNode, Config, GatewayNode, NetworkConfig, NodeRole};
use crate::net::IpAddr;
use crate::role::gateway::{ApplyOptions, CleanupOptions};
use crate::text::same_text;
use vstd::prelude::*;

verus! {

/// Values of the command line that stand above those of the configuration file.
#[derive(Clone, Debug)]
pub struct Overrides {
    pub node_role: Option<String>,
    pub node_name: Option<String>,
    pub gateway_public_ip: Option<IpAddr>,
    pub backend_public_ip: Option<IpAddr>,
    pub gateway_ip: Option<IpAddr>,
    pub standby_gateway_ip: Option<IpAddr>,
    pub backend_ip: Option<IpAddr>,
    pub vni: Option<u32>,
    pub vxlan_port: Option<u16>,
    pub dscp: Option<u32>,
}

/// Overrides of nothing.
pub open spec fn no_overrides(ov: Overrides) -> bool {
    &&& ov.node_role is None
    &&& ov.node_name is None
    &&& ov.gateway_public_ip is None
    &&& ov.backend_public_ip is None
    &&& ov.gateway_ip is None
    &&& ov.standby_gateway_ip is None
    &&& ov.backend_ip is None
    &&& ov.vni is None
    &&& ov.vxlan_port is None
    &&& ov.dscp is None
}

impl Default for Overrides {
    fn default() -> (ov: Self)
        ensures
            no_overrides(ov),
    {
        Overrides {
            node_role: None,
            node_name: None,
            gateway_public_ip: None,
            backend_public_ip: None,
            gateway_ip: None,
            standby_gateway_ip: None,
            backend_ip: None,
            vni: None,
            vxlan_port: None,
            dscp: None,
        }
    }
}

#[derive(Clone, Debug)]
pub enum GatewayCommand {
    Apply(ApplyOptions),
    Run,
    Show,
    Cleanup(CleanupOptions),
}

#[derive(Clone, Debug)]
pub struct GatewayArgs {
    pub command: GatewayCommand,
    pub overrides: Overrides,
}

#[derive(Clone, Copy, Debug, PartialEq, Eq, Structural)]
pub enum BackendCommand {
    Apply,
    Run,
    Show,
    Cleanup,
}

#[derive(Clone, Debug)]
pub struct BackendArgs {
    pub command: BackendCommand,
    pub overrides: Overrides,
}

#[derive(Clone, Debug)]
pub enum UiCommand {
    Serve { listen: Option<String> },
}

#[derive(Clone, Debug)]
pub struct VerifyArgs {
    pub skip_vip: bool,
    pub skip_backend: bool,
    pub timeout: u64,
    pub overrides: Overrides,
}

#[derive(Clone, Debug)]
pub enum ConfigCommand {
    Validate { overrides: Overrides },
    Init { force: bool, overrides: Overrides },
}

#[derive(Clone, Debug)]
pub enum Commands {
    Gateway(GatewayArgs),
    Backend(BackendArgs),
    Ui { command: UiCommand },
    Verify(VerifyArgs),
    Config { command: ConfigCommand },
    Install,
    Uninstall,
    Internal,
}

/// Whether a command works on the storage of the node: one that changes or serves
/// something does, on a node of its role.
pub open spec fn needs_storage(command: Commands, role: NodeRole) -> bool {
    match command {
        Commands::Gateway(args) => role is Gateway && !(args.command is Show),
        Commands::Backend(args) => role is Backend && !(args.command is Show),
        Commands::Ui { .. } => true,
        Commands::Verify(_) => true,
        Commands::Config { .. } => false,
        Commands::Install => false,
        Commands::Uninstall => false,
        Commands::Internal => false,
    }
}

/// Whether a command works on the storage of the node.
pub fn command_needs_runtime_storage(command: &Commands, role: NodeRole) -> (needed: bool)
    ensures
        needed == needs_storage(*command, role),
{
    match command {
        Commands::Gateway(args) => matches!(role, NodeRole::Gateway)
            && !matches!(args.command, GatewayCommand::Show),
        Commands::Backend(args) => matches!(role, NodeRole::Backend)
            && !matches!(args.command, BackendCommand::Show),
        Commands::Ui { .. } => true,
        Commands::Verify(_) => true,
        Commands::Config { .. } => false,
        Commands::Install => false,
        Commands::Uninstall => false,
        Commands::Internal => false,
    }
}

/// The overrides that come with a command.
pub open spec fn command_overrides(command: Commands) -> Option<Overrides> {
    match command {
        Commands::Gateway(args) => Some(args.overrides),
        Commands::Backend(args) => Some(args.overrides),
        Commands::Verify(args) => Some(args.overrides),
        Commands::Config { command: ConfigCommand::Validate { overrides } } => Some(overrides),
        Commands::Config { command: ConfigCommand::Init { force: _, overrides } } => Some(
            overrides,
        ),
        _ => None,
    }
}

/// The overrides that come with a command.
pub fn overrides_of(command: &Commands) -> (overrides: Option<&Overrides>)
    ensures
        match (overrides, command_overrides(*command)) {
            (Some(a), Some(b)) => *a == b,
            (None, None) => true,
            _ => false,
        },
{
    match command {
        Commands::Gateway(args) => Some(&args.overrides),
        Commands::Backend(args) => Some(&args.overrides),
        Commands::Verify(args) => Some(&args.overrides),
        Commands::Config { command } => match command {
            ConfigCommand::Validate { overrides } => Some(overrides),
            ConfigCommand::Init { force: _, overrides } => Some(overrides),
        },
        _ => None,
    }
}

/// What is done without a command: the node runs in its role.
pub fn default_command(role: NodeRole) -> (command: Commands)
    ensures
        match role {
            NodeRole::Gateway => command matches Commands::Gateway(args) && args.command is Run
                && no_overrides(args.overrides),
            NodeRole::Backend => command matches Commands::Backend(args) && args.command is Run
                && no_overrides(args.overrides),
        },
{
    match role {
        NodeRole::Gateway => Commands::Gateway(
            GatewayArgs { command: GatewayCommand::Run, overrides: Overrides::default() },
        ),
        NodeRole::Backend => Commands::Backend(
            BackendArgs { command: BackendCommand::Run, overrides: Overrides::default() },
        ),
    }
}

/// Whether a command looks at the backends that have subscribed.
pub fn merges_subscriptions(command: &Commands) -> (merges: bool)
    ensures
        merges == (command is Gateway || command is Verify || command is Ui),
{
    match command {
        Commands::Gateway(_) => true,
        Commands::Verify(_) => true,
        Commands::Ui { .. } => true,
        _ => false,
    }
}

/// Whether what was looked at, and not skipped, is in order.
pub fn verify_passed(args: &VerifyArgs, vip_ok: bool, backend_ok: bool) -> (passed: bool)
    ensures
        passed == ((args.skip_vip || vip_ok) && (args.skip_backend || backend_ok)),
{
    !((!args.skip_vip && !vip_ok) || (!args.skip_backend && !backend_ok))
}

/// Why overrides are refused.
#[derive(Clone, Copy, Debug, PartialEq, Eq, Structural)]
pub enum OverrideError {
    /// The role is neither `backend` nor `gateway`.
    BadRole,
}

/// The role that a text names.
pub open spec fn role_value(text: Seq<char>) -> Option<NodeRole> {
    if text == "backend"@ {
        Some(NodeRole::Backend)
    } else if text == "gateway"@ {
        Some(NodeRole::Gateway)
    } else {
        None
    }
}

/// The role under overrides.
pub open spec fn role_under(role: NodeRole, ov: Overrides) -> Result<NodeRole, OverrideError> {
    match ov.node_role {
        None => Ok(role),
        Some(text) => match role_value(text@) {
            Some(role) => Ok(role),
            None => Err(OverrideError::BadRole),
        },
    }
}

/// The network under overrides.
pub open spec fn network_under(n: NetworkConfig, ov: Overrides) -> NetworkConfig {
    NetworkConfig {
        gateway_public_ip: match ov.gateway_public_ip {
            Some(v) => v,
            None => n.gateway_public_ip,
        },
        backend_public_ip: match ov.backend_public_ip {
            Some(v) => Some(v),
            None => n.backend_public_ip,
        },
        gateway_ip: match ov.gateway_ip {
            Some(v) => v,
            None => n.gateway_ip,
        },
        standby_gateway_ip: match ov.standby_gateway_ip {
            Some(v) => Some(v),
            None => n.standby_gateway_ip,
        },
        backend_ip: match ov.backend_ip {
            Some(v) => Some(v),
            None => n.backend_ip,
        },
        vni: match ov.vni {
            Some(v) => v,
            None => n.vni,
        },
        vxlan_port: match ov.vxlan_port {
            Some(v) => v,
            None => n.vxlan_port,
        },
        dscp: match ov.dscp {
            Some(v) => v,
            None => n.dscp,
        },
        ..n
    }
}

/// The backends under overrides: the first one takes the addresses.
pub open spec fn backends_under(nodes: Seq<BackendNode>, ov: Overrides) -> Seq<BackendNode> {
    if nodes.len() == 0 {
        nodes
    } else {
        nodes.update(
            0,
            BackendNode {
                public_ip: match ov.backend_public_ip {
                    Some(v) => v,
                    None => nodes[0].public_ip,
                },
                underlay_ip: match ov.backend_ip {
                    Some(v) => v,
                    None => nodes[0].underlay_ip,
                },
                ..nodes[0]
            },
        )
    }
}

/// The place of the first gateway with an underlay address.
pub open spec fn gateway_at(nodes: Seq<GatewayNode>, ip: IpAddr) -> Option<int>
    decreases nodes.len(),
{
    if nodes.len() == 0 {
        None
    } else if nodes[0].underlay_ip == ip {
        Some(0)
    } else {
        match gateway_at(nodes.skip(1), ip) {
            Some(at) => Some(at + 1),
            None => None,
        }
    }
}

/// The gateways under overrides: where none has the new address, the one with the
/// former address takes it, or else the first.
pub open spec fn gateways_under(nodes: Seq<GatewayNode>, former: IpAddr, ov: Overrides) -> Seq<
    GatewayNode,
> {
    match ov.gateway_ip {
        None => nodes,
        Some(ip) => if nodes.len() == 0 || gateway_at(nodes, ip) is Some {
            nodes
        } else {
            let at = match gateway_at(nodes, former) {
                Some(at) => at,
                None => 0,
            };
            nodes.update(at, GatewayNode { underlay_ip: ip, ..nodes[at] })
        },
    }
}

fn find_gateway(nodes: &[GatewayNode], ip: IpAddr) -> (at: Option<usize>)
    ensures
        match at {
            Some(i) => gateway_at(nodes@, ip) == Some(i as int) && i < nodes@.len(),
            None => gateway_at(nodes@, ip) is None,
        },
{
    let mut i: usize = 0;
    assert(nodes@.skip(0) =~= nodes@);
    while i < nodes.len()
        invariant
            i <= nodes.len(),
            gateway_at(nodes@, ip) == (match gateway_at(nodes@.skip(i as int), ip) {
                Some(at) => Some(at + i),
                None => None,
            }),
        decreases nodes.len() - i,
    {
        assert(nodes@.skip(i as int)[0] == nodes@[i as int]);
        assert(nodes@.skip(i as int).skip(1) =~= nodes@.skip(i + 1));
        if nodes[i].underlay_ip == ip {
            return Some(i);
        }
        i += 1;
    }
    None
}

fn override_network(n: &mut NetworkConfig, ov: &Overrides)
    ensures
        *final(n) == network_under(*old(n), *ov),
{
    if let Some(v) = ov.gateway_public_ip {
        n.gateway_public_ip = v;
    }
    if let Some(v) = ov.backend_public_ip {
        n.backend_public_ip = Some(v);
    }
    if let Some(v) = ov.gateway_ip {
        n.gateway_ip = v;
    }
    if let Some(v) = ov.standby_gateway_ip {
        n.standby_gateway_ip = Some(v);
    }
    if let Some(v) = ov.backend_ip {
        n.backend_ip = Some(v);
    }
    if let Some(v) = ov.vni {
        n.vni = v;
    }
    if let Some(v) = ov.vxlan_port {
        n.vxlan_port = v;
    }
    if let Some(v) = ov.dscp {
        n.dscp = v;
    }
}

fn override_backends(nodes: &mut Vec<BackendNode>, ov: &Overrides)
    ensures
        final(nodes)@ == backends_under(old(nodes)@, *ov),
{
    if nodes.len() > 0 {
        if let Some(v) = ov.backend_public_ip {
            nodes[0].public_ip = v;
        }
        if let Some(v) = ov.backend_ip {
            nodes[0].underlay_ip = v;
        }
    }
    assert(nodes@ =~= backends_under(old(nodes)@, *ov));
}

fn override_gateways(nodes: &mut Vec<GatewayNode>, former: IpAddr, ov: &Overrides)
    ensures
        final(nodes)@ == gateways_under(old(nodes)@, former, *ov),
{
    if let Some(v) = ov.gateway_ip {
        if nodes.len() > 0 && find_gateway(nodes.as_slice(), v).is_none() {
            let at: usize = match find_gateway(nodes.as_slice(), former) {
                Some(at) => at,
                None => 0,
            };
            nodes[at].underlay_ip = v;
        }
    }
    assert(nodes@ =~= gateways_under(old(nodes)@, former, *ov));
}

/// Whether two configurations agree on all that no override touches.
pub open spec fn same_elsewhere(a: Config, b: Config) -> bool {
    &&& a.public_ip == b.public_ip
    &&& a.underlay_ip == b.underlay_ip
    &&& a.active_source == b.active_source
    &&& a.gateway_overlay_ip == b.gateway_overlay_ip
    &&& a.api_trusted_source_cidrs == b.api_trusted_source_cidrs
    &&& a.metrics == b.metrics
    &&& a.backend_return_paths == b.backend_return_paths
    &&& a.nft_table == b.nft_table
    &&& a.mss == b.mss
    &&& a.listeners == b.listeners
    &&& a.target_groups == b.target_groups
    &&& a.ha == b.ha
}

/// Puts overrides above a configuration. Listeners and target groups have none. With
/// a role that is none nothing is changed.
pub fn apply_overrides(cfg: &mut Config, ov: &Overrides) -> (done: Result<(), OverrideError>)
    ensures
        match role_under(old(cfg).node_role, *ov) {
            Err(error) => done == Err::<(), OverrideError>(error) && *final(cfg) == *old(cfg),
            Ok(role) => {
                &&& done is Ok
                &&& final(cfg).node_role == role
                &&& final(cfg).node_name@ == (match ov.node_name {
                    Some(name) => name@,
                    None => old(cfg).node_name@,
                })
                &&& final(cfg).network == network_under(old(cfg).network, *ov)
                &&& final(cfg).backend_nodes@ == backends_under(old(cfg).backend_nodes@, *ov)
                &&& final(cfg).gateway_nodes@ == gateways_under(
                    old(cfg).gateway_nodes@,
                    old(cfg).network.gateway_ip,
                    *ov,
                )
                &&& same_elsewhere(*final(cfg), *old(cfg))
            },
        },
{
    if let Some(text) = &ov.node_role {
        if same_text(text.as_str(), "backend") {
            cfg.node_role = NodeRole::Backend;
        } else if same_text(text.as_str(), "gateway") {
            cfg.node_role = NodeRole::Gateway;
        } else {
            return Err(OverrideError::BadRole);
        }
    }
    if let Some(name) = &ov.node_name {
        cfg.node_name = name.clone();
    }
    let former = cfg.network.gateway_ip;
    override_network(&mut cfg.network, ov);
    override_backends(&mut cfg.backend_nodes, ov);
    override_gateways(&mut cfg.gateway_nodes, former, ov);
    Ok(())
}

// ---------------------------------------------------------------------------
// Laws
// ---------------------------------------------------------------------------

proof fn lemma_gateway_at(nodes: Seq<GatewayNode>, ip: IpAddr)
    ensures
        match gateway_at(nodes, ip) {
            Some(at) => 0 <= at < nodes.len() && nodes[at].underlay_ip == ip,
            None => forall|i: int| 0 <= i < nodes.len() ==> (#[trigger] nodes[i]).underlay_ip != ip,
        },
    decreases nodes.len(),
{
    if nodes.len() > 0 && nodes[0].underlay_ip != ip {
        lemma_gateway_at(nodes.skip(1), ip);
        assert forall|i: int| 1 <= i < nodes.len() implies nodes[i] == nodes.skip(1)[i - 1] by {}
    }
}

/// A gateway address of the command line is that of a known gateway, so the active
/// gateway can be found by it.
pub proof fn law_overridden_gateway_is_known(
    nodes: Seq<GatewayNode>,
    former: IpAddr,
    ov: Overrides,
    ip: IpAddr,
)
    requires
        nodes.len() > 0,
        ov.gateway_ip == Some(ip),
    ensures
        exists|i: int|
            0 <= i < gateways_under(nodes, former, ov).len() && (#[trigger] gateways_under(
                nodes,
                former,
                ov,
            )[i]).underlay_ip == ip,
{
    lemma_gateway_at(nodes, ip);
    lemma_gateway_at(nodes, former);
    let out = gateways_under(nodes, former, ov);
    let at = match gateway_at(nodes, ip) {
        Some(at) => at,
        None => match gateway_at(nodes, former) {
            Some(at) => at,
            None => 0,
        },
    };
    assert(out[at].underlay_ip == ip);
}

/// Overrides that were put above a configuration change nothing when they are put
/// above it again.
pub proof fn law_overrides_settle(
    role: NodeRole,
    n: NetworkConfig,
    backends: Seq<BackendNode>,
    gateways: Seq<GatewayNode>,
    ov: Overrides,
)
    requires
        role_under(role, ov) is Ok,
    ensures
        role_under(role_under(role, ov)->Ok_0, ov) == role_under(role, ov),
        network_under(network_under(n, ov), ov) == network_under(n, ov),
        backends_under(backends_under(backends, ov), ov) == backends_under(backends, ov),
        gateways_under(
            gateways_under(gateways, n.gateway_ip, ov),
            network_under(n, ov).gateway_ip,
            ov,
        ) == gateways_under(gateways, n.gateway_ip, ov),
{
    assert(backends_under(backends_under(backends, ov), ov) =~= backends_under(backends, ov));
    if let Some(ip) = ov.gateway_ip {
        if gateways.len() > 0 {
            law_overridden_gateway_is_known(gateways, n.gateway_ip, ov, ip);
            lemma_gateway_at(gateways_under(gateways, n.gateway_ip, ov), ip);
        }
    }
}

/// Each override that is given stands above the setting of its name; the others stay.
pub proof fn law_given_values_stand_above(n: NetworkConfig, ov: Overrides)
    ensures
        ({
            let next = network_under(n, ov);
            &&& ov.gateway_public_ip matches Some(v) ==> next.gateway_public_ip == v
            &&& ov.gateway_public_ip is None ==> next.gateway_public_ip == n.gateway_public_ip
            &&& ov.backend_public_ip is Some ==> next.backend_public_ip == ov.backend_public_ip
            &&& ov.backend_public_ip is None ==> next.backend_public_ip == n.backend_public_ip
            &&& ov.gateway_ip matches Some(v) ==> next.gateway_ip == v
            &&& ov.gateway_ip is None ==> next.gateway_ip == n.gateway_ip
            &&& ov.standby_gateway_ip is Some ==> next.standby_gateway_ip == ov.standby_gateway_ip
            &&& ov.standby_gateway_ip is None ==> next.standby_gateway_ip == n.standby_gateway_ip
            &&& ov.backend_ip is Some ==> next.backend_ip == ov.backend_ip
            &&& ov.backend_ip is None ==> next.backend_ip == n.backend_ip
            &&& ov.vni matches Some(v) ==> next.vni == v
            &&& ov.vni is None ==> next.vni == n.vni
            &&& ov.vxlan_port matches Some(v) ==> next.vxlan_port == v
            &&& ov.vxlan_port is None ==> next.vxlan_port == n.vxlan_port
            &&& ov.dscp matches Some(v) ==> next.dscp == v
            &&& ov.dscp is None ==> next.dscp == n.dscp
            &&& next.vxlan_dev == n.vxlan_dev
            &&& next.underlay_dev == n.underlay_dev
            &&& next.vxlan_mtu == n.vxlan_mtu
        }),
{
}

/// The first backend takes the addresses that are given; the others, and the rest of it, stay.
pub proof fn law_first_backend_is_overridden(nodes: Seq<BackendNode>, ov: Overrides, i: int)
    requires
        0 <= i < nodes.len(),
    ensures
        ({
            let next = backends_under(nodes, ov);
            &&& next.len() == nodes.len()
            &&& i > 0 ==> next[i] == nodes[i]
            &&& ov.backend_public_ip matches Some(v) ==> next[0].public_ip == v
            &&& ov.backend_public_ip is None ==> next[0].public_ip == nodes[0].public_ip
            &&& ov.backend_ip matches Some(v) ==> next[0].underlay_ip == v
            &&& ov.backend_ip is None ==> next[0].underlay_ip == nodes[0].underlay_ip
            &&& next[0].name == nodes[0].name
            &&& next[0].overlay_ip == nodes[0].overlay_ip
        }),
{
}

/// A gateway address that no gateway has goes to the one with the former address, or to the
/// first; a known one changes nothing.
pub proof fn law_one_gateway_takes_the_address(
    nodes: Seq<GatewayNode>,
    former: IpAddr,
    ov: Overrides,
    ip: IpAddr,
    i: int,
)
    requires
        0 <= i < nodes.len(),
    ensures
        ov.gateway_ip is None ==> gateways_under(nodes, former, ov) == nodes,
        ov.gateway_ip == Some(ip) && nodes[i].underlay_ip == ip ==> gateways_under(
            nodes,
            former,
            ov,
        ) == nodes,
        ov.gateway_ip == Some(ip) && (forall|k: int|
            0 <= k < nodes.len() ==> (#[trigger] nodes[k]).underlay_ip != ip)
            && nodes[i].underlay_ip == former && (forall|k: int|
            0 <= k < i ==> (#[trigger] nodes[k]).underlay_ip != former) ==> gateways_under(
            nodes,
            former,
            ov,
        ) == nodes.update(i, GatewayNode { underlay_ip: ip, ..nodes[i] }),
        ov.gateway_ip == Some(ip) && (forall|k: int|
            0 <= k < nodes.len() ==> (#[trigger] nodes[k]).underlay_ip != ip
                && nodes[k].underlay_ip != former) ==> gateways_under(nodes, former, ov)
            == nodes.update(0, GatewayNode { underlay_ip: ip, ..nodes[0] }),
{
    lemma_gateway_place(nodes, ip);
    lemma_gateway_place(nodes, former);
}

proof fn lemma_gateway_place(nodes: Seq<GatewayNode>, ip: IpAddr)
    ensures
        match gateway_at(nodes, ip) {
            Some(at) => 0 <= at < nodes.len() && nodes[at].underlay_ip == ip && (forall|k: int|
                0 <= k < at ==> (#[trigger] nodes[k]).underlay_ip != ip),
            None => forall|k: int| 0 <= k < nodes.len() ==> (#[trigger] nodes[k]).underlay_ip != ip,
        },
    decreases nodes.len(),
{
    if nodes.len() > 0 {
        let rest = nodes.skip(1);
        lemma_gateway_place(rest, ip);
        assert forall|k: int| 0 < k < nodes.len() implies #[trigger] nodes[k] == rest[k - 1] by {}
    }
}

/// A role is named `backend` or `gateway`; every other name is refused, and no name leaves the
/// role as it is.
pub proof fn law_roles_are_named(role: NodeRole, ov: Overrides, text: String)
    ensures
        ov.node_role is None ==> role_under(role, ov) == Ok::<NodeRole, OverrideError>(role),
        ov.node_role == Some(text) && text@ == "backend"@ ==> role_under(role, ov) == Ok::<
            NodeRole,
            OverrideError,
        >(NodeRole::Backend),
        ov.node_role == Some(text) && text@ == "gateway"@ ==> role_under(role, ov) == Ok::<
            NodeRole,
            OverrideError,
        >(NodeRole::Gateway),
        ov.node_role == Some(text) && text@ != "backend"@ && text@ != "gateway"@ ==> role_under(
            role,
            ov,
        ) == Err::<NodeRole, OverrideError>(OverrideError::BadRole),
{
    reveal_strlit("backend");
    reveal_strlit("gateway");
    assert("backend"@[0] != "gateway"@[0]);
}

/// A command of a role works on the storage on a node of that role, unless it only shows
/// something; the user interface and the test of a node always do, the others never.
pub proof fn law_storage_is_for_the_role(
    gateway: GatewayArgs,
    backend: BackendArgs,
    verify: VerifyArgs,
    ui: UiCommand,
    role: NodeRole,
)
    ensures
        needs_storage(Commands::Gateway(gateway), NodeRole::Gateway) == !(gateway.command is Show),
        !needs_storage(Commands::Gateway(gateway), NodeRole::Backend),
        needs_storage(Commands::Backend(backend), NodeRole::Backend) == !(backend.command is Show),
        !needs_storage(Commands::Backend(backend), NodeRole::Gateway),
        needs_storage(Commands::Verify(verify), role),
        needs_storage(Commands::Ui { command: ui }, role),
        !needs_storage(Commands::Install, role),
        !needs_storage(Commands::Uninstall, role),
        !needs_storage(Commands::Internal, role),
{
}

/// The overrides of a command are those that came with it; commands without any have none.
pub proof fn law_commands_bring_their_overrides(
    gateway: GatewayArgs,
    backend: BackendArgs,
    verify: VerifyArgs,
    ov: Overrides,
    force: bool,
)
    ensures
        command_overrides(Commands::Gateway(gateway)) == Some(gateway.overrides),
        command_overrides(Commands::Backend(backend)) == Some(backend.overrides),
        command_overrides(Commands::Verify(verify)) == Some(verify.overrides),
        command_overrides(Commands::Config { command: ConfigCommand::Validate { overrides: ov } })
            == Some(ov),
        command_overrides(
            Commands::Config { command: ConfigCommand::Init { force, overrides: ov } },
        ) == Some(ov),
        command_overrides(Commands::Install) is None,
        command_overrides(Commands::Uninstall) is None,
{
}

} // verus!
