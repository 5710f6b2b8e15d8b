//! When the return-path rules of a backend are rebuilt, kept or removed.
use crate::config::{Config, GatewayReturnPath};
use vstd::prelude::*;

verus! {

/// What the rules of a return path depend on.
#[derive(Clone, Debug)]
pub struct ReturnPathSignature {
    pub nft_table: String,
    pub vxlan_dev: String,
    pub mss: u32,
    pub paths: Vec<GatewayReturnPath>,
}

/// Return-path rules that were put in place.
#[derive(Clone, Debug)]
pub struct ManagedReturnPath {
    pub signature: ReturnPathSignature,
}

/// Whether two lists of return paths say the same.
pub open spec fn same_paths(a: Seq<GatewayReturnPath>, b: Seq<GatewayReturnPath>) -> bool {
    a.len() == b.len() && forall|i: int| 0 <= i < a.len() ==> (#[trigger] a[i]).same(b[i])
}

impl ReturnPathSignature {
    /// Whether two signatures stand for the same rules.
    pub open spec fn same(self, other: ReturnPathSignature) -> bool {
        &&& self.nft_table@ == other.nft_table@
        &&& self.vxlan_dev@ == other.vxlan_dev@
        &&& self.mss == other.mss
        &&& same_paths(self.paths@, other.paths@)
    }

    /// Whether two signatures stand for the same rules.
    pub fn matches(&self, other: &ReturnPathSignature) -> (same: bool)
        ensures
            same == self.same(*other),
    {
        if self.nft_table != other.nft_table || self.vxlan_dev != other.vxlan_dev || self.mss
            != other.mss || self.paths.len() != other.paths.len() {
            return false;
        }
        let mut i: usize = 0;
        while i < self.paths.len()
            invariant
                i <= self.paths.len() == other.paths.len(),
                forall|j: int| 0 <= j < i ==> (#[trigger] self.paths@[j]).same(other.paths@[j]),
            decreases self.paths.len() - i,
        {
            if !self.paths[i].matches(&other.paths[i]) {
                assert(!self.paths@[i as int].same(other.paths@[i as int]));
                return false;
            }
            i += 1;
        }
        true
    }
}

/// Whether a signature is that of a configuration.
pub open spec fn signs(signature: ReturnPathSignature, cfg: Config) -> bool {
    &&& signature.nft_table@ == cfg.nft_table@
    &&& signature.vxlan_dev@ == cfg.network.vxlan_dev@
    &&& signature.mss == cfg.mss
    &&& same_paths(signature.paths@, cfg.backend_return_paths@)
}

fn copy_path(path: &GatewayReturnPath) -> (copy: GatewayReturnPath)
    ensures
        copy == *path,
{
    GatewayReturnPath {
        gateway: crate::text::clone_opt_text(&path.gateway),
        gateway_underlay_ip: path.gateway_underlay_ip,
        gateway_overlay_ip: path.gateway_overlay_ip,
        backend_overlay_ip: crate::text::clone_opt_text(&path.backend_overlay_ip),
        dscp: path.dscp,
        mark: path.mark,
        route_table_id: path.route_table_id,
    }
}

/// The signature of a configuration.
pub fn signature(cfg: &Config) -> (signature: ReturnPathSignature)
    ensures
        signs(signature, *cfg),
        signature.paths@ == cfg.backend_return_paths@,
{
    let mut paths: Vec<GatewayReturnPath> = Vec::new();
    let mut i: usize = 0;
    while i < cfg.backend_return_paths.len()
        invariant
            i <= cfg.backend_return_paths.len(),
            paths@ == cfg.backend_return_paths@.take(i as int),
        decreases cfg.backend_return_paths.len() - i,
    {
        paths.push(copy_path(&cfg.backend_return_paths[i]));
        i += 1;
        assert(paths@ =~= cfg.backend_return_paths@.take(i as int));
    }
    assert(paths@ =~= cfg.backend_return_paths@);
    ReturnPathSignature {
        nft_table: cfg.nft_table.clone(),
        vxlan_dev: cfg.network.vxlan_dev.clone(),
        mss: cfg.mss,
        paths,
    }
}

/// What to do with the table of return-path rules.
#[derive(Clone, Copy, Debug, PartialEq, Eq, Structural)]
pub enum TableAction {
    Delete,
    Build,
    Keep,
}

/// Applies the return path: without paths the table goes, else it is built.
pub fn apply(cfg: &Config) -> (action: TableAction)
    ensures
        action == if cfg.backend_return_paths.len() == 0 {
            TableAction::Delete
        } else {
            TableAction::Build
        },
{
    if cfg.backend_return_paths.len() == 0 {
        TableAction::Delete
    } else {
        TableAction::Build
    }
}

/// Applies the return path, keeping a table that still stands and whose inputs
/// did not change.
pub fn apply_managed_reusing(
    cfg: &Config,
    existing: &Option<ManagedReturnPath>,
    table_exists: bool,
) -> (applied: (ManagedReturnPath, TableAction))
    ensures
        signs(applied.0.signature, *cfg),
        applied.1 == if cfg.backend_return_paths.len() == 0 {
            TableAction::Delete
        } else if table_exists && existing is Some && existing->0.signature.same(
            applied.0.signature,
        ) {
            TableAction::Keep
        } else {
            TableAction::Build
        },
{
    let wanted = signature(cfg);
    let action = if cfg.backend_return_paths.len() == 0 {
        TableAction::Delete
    } else {
        let unchanged = match existing {
            Some(managed) => managed.signature.matches(&wanted),
            None => false,
        };
        if unchanged && table_exists {
            TableAction::Keep
        } else {
            TableAction::Build
        }
    };
    (ManagedReturnPath { signature: wanted }, action)
}

/// What policy routing calls for: rules and routes for every return path.
#[derive(Clone, Copy, Debug, PartialEq, Eq, Structural)]
pub enum RoutingAction {
    Ensure,
    Remove,
}

/// Policy routing always follows the configuration.
pub fn ensure_policy_routing(cfg: &Config) -> (action: RoutingAction)
    ensures
        action == RoutingAction::Ensure,
{
    RoutingAction::Ensure
}

/// Removes the table and the policy routing.
pub fn cleanup(cfg: &Config) -> (actions: (TableAction, RoutingAction))
    ensures
        actions == (TableAction::Delete, RoutingAction::Remove),
{
    (TableAction::Delete, RoutingAction::Remove)
}

/// Repairs the return path: a table that is gone is built again, one that
/// nothing asks for goes, and policy routing is ensured.
pub fn heal(cfg: &Config, table_exists: bool) -> (actions: (TableAction, RoutingAction))
    ensures
        actions.1 == RoutingAction::Ensure,
        actions.0 == if cfg.backend_return_paths.len() == 0 {
            TableAction::Delete
        } else if table_exists {
            TableAction::Keep
        } else {
            TableAction::Build
        },
{
    let table = if cfg.backend_return_paths.len() == 0 {
        TableAction::Delete
    } else if table_exists {
        TableAction::Keep
    } else {
        TableAction::Build
    };
    (table, RoutingAction::Ensure)
}

/// What comes of a repair. Where the table could not be built, policy routing is not
/// touched and that failure is the result; otherwise the result is that of policy
/// routing. A table that goes or is kept cannot fail.
pub open spec fn healed<E>(
    action: TableAction,
    table: Result<(), E>,
    routing: Result<(), E>,
) -> Result<(), E> {
    match (action, table) {
        (TableAction::Build, Err(error)) => Err(error),
        _ => routing,
    }
}

/// Where a repair goes on once the table was dealt with: policy routing follows, unless
/// the table could not be built.
pub fn heal_after_table<E>(action: TableAction, table: Result<(), E>) -> (step: Result<
    RoutingAction,
    E,
>)
    ensures
        match (action, table) {
            (TableAction::Build, Err(error)) => step == Err::<RoutingAction, E>(error),
            _ => step == Ok::<RoutingAction, E>(RoutingAction::Ensure),
        },
{
    match (action, table) {
        (TableAction::Build, Err(error)) => Err(error),
        _ => Ok(RoutingAction::Ensure),
    }
}

/// What comes of a repair, given what came of the table and, where policy routing was
/// asked for, of that.
pub fn heal_result<E>(action: TableAction, table: Result<(), E>, routing: Result<(), E>) -> (result:
    Result<(), E>)
    ensures
        result == healed(action, table, routing),
{
    match heal_after_table(action, table) {
        Err(error) => Err(error),
        Ok(_) => routing,
    }
}

// ---------------------------------------------------------------------------
// Laws
// ---------------------------------------------------------------------------

/// The signature follows every input of the rules: two configurations have the
/// same signature exactly if they agree in all of them.
pub proof fn law_signature_tracks_inputs(
    a: Config,
    b: Config,
    sa: ReturnPathSignature,
    sb: ReturnPathSignature,
)
    requires
        signs(sa, a),
        signs(sb, b),
    ensures
        sa.same(sb) <==> (a.nft_table@ == b.nft_table@ && a.network.vxlan_dev@
            == b.network.vxlan_dev@ && a.mss == b.mss && same_paths(
            a.backend_return_paths@,
            b.backend_return_paths@,
        )),
{
    let pa = a.backend_return_paths@;
    let pb = b.backend_return_paths@;
    if same_paths(sa.paths@, sb.paths@) {
        assert forall|i: int| 0 <= i < pa.len() implies (#[trigger] pa[i]).same(pb[i]) by {
            assert(sa.paths@[i].same(pa[i]));
            assert(sb.paths@[i].same(pb[i]));
            assert(sa.paths@[i].same(sb.paths@[i]));
        }
    }
    if same_paths(pa, pb) && sa.paths.len() == pa.len() {
        assert forall|i: int| 0 <= i < sa.paths.len() implies (#[trigger] sa.paths@[i]).same(
            sb.paths@[i],
        ) by {
            assert(sa.paths@[i].same(pa[i]));
            assert(sb.paths@[i].same(pb[i]));
            assert(pa[i].same(pb[i]));
        }
    }
}

/// Rules are the same exactly where all they are made of is: the table, the device, the
/// segment size and each path in its place.
pub proof fn law_signatures_are_told_apart(
    a: ReturnPathSignature,
    b: ReturnPathSignature,
    i: int,
)
    ensures
        a.same(b) ==> a.nft_table@ == b.nft_table@ && a.vxlan_dev@ == b.vxlan_dev@ && a.mss == b.mss
            && a.paths@.len() == b.paths@.len(),
        a.same(b) && 0 <= i < a.paths@.len() ==> a.paths@[i].same(b.paths@[i]),
        a.nft_table@ == b.nft_table@ && a.vxlan_dev@ == b.vxlan_dev@ && a.mss == b.mss && a.paths@
            == b.paths@ && (forall|k: int| 0 <= k < a.paths@.len() ==> (#[trigger] a.paths@[k]).same(
            a.paths@[k],
        )) ==> a.same(b),
{
}

/// A table that could not be built is what a repair comes to; otherwise policy routing is.
pub proof fn law_unbuilt_table_is_told<E>(error: E, table: Result<(), E>, routing: Result<(), E>)
    ensures
        healed(TableAction::Build, Err::<(), E>(error), routing) == Err::<(), E>(error),
        healed(TableAction::Build, Ok::<(), E>(()), routing) == routing,
        healed(TableAction::Keep, table, routing) == routing,
        healed(TableAction::Delete, table, routing) == routing,
{
}

} // verus!
