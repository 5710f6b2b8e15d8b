//! Short route leases from admitted observations.
use crate::redirect::error::RedirectError;
use crate::redirect::message::Mac;
use crate::redirect::model::{RouteObservationState, TargetRouteObservation};
use vstd::prelude::*;

verus! {

/// How long a lease lasts, in nanoseconds.
pub const LEASE_NS: u64 = 2_000_000_000;

/// The largest differentiated services codepoint.
pub const MAX_DSCP: u8 = 63;

#[derive(Clone, Copy, Debug, PartialEq, Eq, Structural)]
pub struct NativeTargetKey {
    pub listener_id: u32,
    pub target_id: u32,
}

/// A lease to send frames for a target straight to its next hop.
#[derive(Clone, Copy, Debug, PartialEq, Eq)]
pub struct NativeTargetRoute {
    pub expires_ns: u64,
    pub target: u32,
    pub ingress_ifindex: u32,
    pub ifindex: u32,
    pub mtu: u32,
    pub target_port: u16,
    pub dscp: u8,
    pub source_mac: Mac,
    pub destination_mac: Mac,
}

/// A target that may get a lease.
#[derive(Clone, Copy, Debug, PartialEq, Eq, Structural)]
pub struct TargetCandidate {
    pub key: NativeTargetKey,
    pub target: u32,
    pub port: u16,
    pub dscp: u8,
}

/// The last observation of an address.
pub open spec fn last_observation(
    observations: Seq<TargetRouteObservation>,
    target: u32,
) -> Option<TargetRouteObservation>
    decreases observations.len(),
{
    if observations.len() == 0 {
        None
    } else if observations.last().target == target {
        Some(observations.last())
    } else {
        last_observation(observations.drop_last(), target)
    }
}

/// Whether an observation may carry a lease: a resolved path with a confirmed
/// neighbor and everything known that a frame needs.
pub open spec fn leasable(route: TargetRouteObservation) -> bool {
    &&& route.state == RouteObservationState::Resolved
    &&& route.neighbor_confirmed
    &&& route.ifindex is Some
    &&& route.mtu is Some
    &&& route.source_mac is Some
    &&& route.destination_mac is Some
}

/// The lease of a target along an observed path.
pub open spec fn lease(
    target: TargetCandidate,
    route: TargetRouteObservation,
    ingress_ifindex: u32,
    expires_ns: u64,
) -> NativeTargetRoute {
    NativeTargetRoute {
        expires_ns,
        target: target.target,
        ingress_ifindex,
        ifindex: route.ifindex->0,
        mtu: route.mtu->0,
        target_port: target.port,
        dscp: target.dscp,
        source_mac: route.source_mac->0,
        destination_mac: route.destination_mac->0,
    }
}

/// Whether a target gets a lease.
pub open spec fn gets_lease(
    target: TargetCandidate,
    observations: Seq<TargetRouteObservation>,
) -> bool {
    last_observation(observations, target.target) matches Some(route) && leasable(route)
        && target.dscp <= MAX_DSCP
}

/// The leases of the targets that get one, in the order of the targets.
pub open spec fn leases(
    targets: Seq<TargetCandidate>,
    observations: Seq<TargetRouteObservation>,
    ingress_ifindex: u32,
    expires_ns: u64,
) -> Seq<(NativeTargetKey, NativeTargetRoute)>
    decreases targets.len(),
{
    if targets.len() == 0 {
        Seq::empty()
    } else {
        let before = leases(targets.drop_last(), observations, ingress_ifindex, expires_ns);
        let target = targets.last();
        if gets_lease(target, observations) {
            before.push(
                (
                    target.key,
                    lease(
                        target,
                        last_observation(observations, target.target)->0,
                        ingress_ifindex,
                        expires_ns,
                    ),
                ),
            )
        } else {
            before
        }
    }
}

fn find_observation(observations: &[TargetRouteObservation], target: u32) -> (at: Option<usize>)
    ensures
        match at {
            Some(i) => i < observations.len() && last_observation(observations@, target) == Some(
                observations@[i as int],
            ),
            None => last_observation(observations@, target) is None,
        },
{
    let mut i: usize = observations.len();
    assert(observations@.take(i as int) =~= observations@);
    while i > 0
        invariant
            i <= observations.len(),
            last_observation(observations@, target) == last_observation(
                observations@.take(i as int),
                target,
            ),
        decreases i,
    {
        assert(observations@.take(i as int).drop_last() =~= observations@.take(i - 1));
        if observations[i - 1].target == target {
            return Some(i - 1);
        }
        i -= 1;
    }
    None
}

/// Plans the leases of a refresh that started at `started_ns`.
pub fn plan(
    targets: &[TargetCandidate],
    observations: &[TargetRouteObservation],
    ingress_ifindex: u32,
    started_ns: u64,
    capacity: usize,
) -> (planned: Result<Vec<(NativeTargetKey, NativeTargetRoute)>, RedirectError>)
    ensures
        match planned {
            Err(RedirectError::MissingIngress) => ingress_ifindex == 0,
            Err(RedirectError::LeaseOverflow) => ingress_ifindex != 0 && started_ns + LEASE_NS
                > u64::MAX,
            Err(RedirectError::CacheCapacity) => ingress_ifindex != 0 && started_ns + LEASE_NS
                <= u64::MAX && leases(
                targets@,
                observations@,
                ingress_ifindex,
                (started_ns + LEASE_NS) as u64,
            ).len() > capacity,
            Err(_) => false,
            Ok(desired) => ingress_ifindex != 0 && started_ns + LEASE_NS <= u64::MAX && desired@
                == leases(
                targets@,
                observations@,
                ingress_ifindex,
                (started_ns + LEASE_NS) as u64,
            ) && desired.len() <= capacity,
        },
        planned matches Ok(desired) ==> forall|k: int|
            0 <= k < desired.len() ==> (#[trigger] desired[k]).1.expires_ns - started_ns
                == 2_000_000_000 && desired[k].1.ingress_ifindex == ingress_ifindex,
{
    if ingress_ifindex == 0 {
        return Err(RedirectError::MissingIngress);
    }
    let expires_ns: u64 = match started_ns.checked_add(LEASE_NS) {
        Some(expires_ns) => expires_ns,
        None => {
            return Err(RedirectError::LeaseOverflow);
        },
    };
    let mut desired: Vec<(NativeTargetKey, NativeTargetRoute)> = Vec::new();
    let mut i: usize = 0;
    while i < targets.len()
        invariant
            i <= targets.len(),
            desired@ == leases(targets@.take(i as int), observations@, ingress_ifindex, expires_ns),
        decreases targets.len() - i,
    {
        let target = targets[i];
        assert(targets@.take(i + 1).drop_last() =~= targets@.take(i as int));
        if let Some(at) = find_observation(observations, target.target) {
            let route = &observations[at];
            if route.state == RouteObservationState::Resolved && route.neighbor_confirmed
                && target.dscp <= MAX_DSCP {
                if let (Some(ifindex), Some(mtu), Some(source_mac), Some(destination_mac)) = (
                    route.ifindex,
                    route.mtu,
                    route.source_mac,
                    route.destination_mac,
                ) {
                    desired.push(
                        (
                            target.key,
                            NativeTargetRoute {
                                expires_ns,
                                target: target.target,
                                ingress_ifindex,
                                ifindex,
                                mtu,
                                target_port: target.port,
                                dscp: target.dscp,
                                source_mac,
                                destination_mac,
                            },
                        ),
                    );
                }
            }
        }
        i += 1;
    }
    assert(targets@.take(targets@.len() as int) =~= targets@);
    proof {
        assert forall|k: int| 0 <= k < desired.len() implies (#[trigger] desired@[k]).1.expires_ns
            == expires_ns && desired@[k].1.ingress_ifindex == ingress_ifindex by {
            let at = law_leases_follow_observations(
                targets@,
                observations@,
                ingress_ifindex,
                expires_ns,
                k,
            );
        }
    }
    if desired.len() > capacity {
        Err(RedirectError::CacheCapacity)
    } else {
        Ok(desired)
    }
}

// ---------------------------------------------------------------------------
// Laws
// ---------------------------------------------------------------------------

/// Every lease belongs to a target that was asked for, follows the last
/// observation of that target's own address, and ends when the plan says.
pub proof fn law_leases_bind_targets(
    targets: Seq<TargetCandidate>,
    observations: Seq<TargetRouteObservation>,
    ingress_ifindex: u32,
    expires_ns: u64,
    k: int,
)
    requires
        0 <= k < leases(targets, observations, ingress_ifindex, expires_ns).len(),
    ensures
        ({
            let (key, route) = leases(targets, observations, ingress_ifindex, expires_ns)[k];
            exists|i: int|
                0 <= i < targets.len() && gets_lease(#[trigger] targets[i], observations) && key
                    == targets[i].key && route == lease(
                    targets[i],
                    last_observation(observations, targets[i].target)->0,
                    ingress_ifindex,
                    expires_ns,
                )
        }),
    decreases targets.len(),
{
    let before = leases(targets.drop_last(), observations, ingress_ifindex, expires_ns);
    if k < before.len() {
        law_leases_bind_targets(
            targets.drop_last(),
            observations,
            ingress_ifindex,
            expires_ns,
            k,
        );
        let (key, route) = before[k];
        let i = choose|i: int|
            0 <= i < targets.len() - 1 && gets_lease(
                #[trigger] targets.drop_last()[i],
                observations,
            ) && key == targets.drop_last()[i].key && route == lease(
                targets.drop_last()[i],
                last_observation(observations, targets.drop_last()[i].target)->0,
                ingress_ifindex,
                expires_ns,
            );
        assert(targets[i] == targets.drop_last()[i]);
    } else {
        assert(targets[targets.len() - 1] == targets.last());
    }
}

/// Where the last observation of an address stands.
proof fn lemma_last_observation(observations: Seq<TargetRouteObservation>, target: u32)
    ensures
        match last_observation(observations, target) {
            Some(route) => exists|j: int|
                0 <= j < observations.len() && #[trigger] observations[j] == route && route.target
                    == target && forall|m: int|
                    j < m < observations.len() ==> (#[trigger] observations[m]).target != target,
            None => forall|m: int|
                0 <= m < observations.len() ==> (#[trigger] observations[m]).target != target,
        },
    decreases observations.len(),
{
    if observations.len() > 0 {
        let front = observations.drop_last();
        lemma_last_observation(front, target);
        if observations.last().target == target {
            assert(observations[observations.len() - 1] == observations.last());
        } else if let Some(route) = last_observation(front, target) {
            let j = choose|j: int|
                0 <= j < front.len() && #[trigger] front[j] == route && route.target == target
                    && forall|m: int|
                    j < m < front.len() ==> (#[trigger] front[m]).target != target;
            assert(observations[j] == route);
            assert forall|m: int| j < m < observations.len() implies (
            #[trigger] observations[m]).target != target by {
                if m < front.len() {
                    assert(front[m].target != target);
                }
            }
        } else {
            assert forall|m: int| 0 <= m < observations.len() implies (
            #[trigger] observations[m]).target != target by {
                if m < front.len() {
                    assert(front[m].target != target);
                }
            }
        }
    }
}

/// A lease takes each of its fields from where it belongs. It is that of a target with a
/// codepoint of six bits; it leaves by the device of the last observation of the target's
/// address, from the address of that device, to the address of the next hop, with the size
/// that the path takes. The observation is of a resolved path whose neighbor is confirmed.
/// The target and the observation are those at the two places given back.
pub proof fn law_leases_follow_observations(
    targets: Seq<TargetCandidate>,
    observations: Seq<TargetRouteObservation>,
    ingress_ifindex: u32,
    expires_ns: u64,
    k: int,
) -> (at: (int, int))
    requires
        0 <= k < leases(targets, observations, ingress_ifindex, expires_ns).len(),
    ensures
        0 <= at.0 < targets.len(),
        0 <= at.1 < observations.len(),
        ({
            let (key, route) = leases(targets, observations, ingress_ifindex, expires_ns)[k];
            let target = targets[at.0];
            let seen = observations[at.1];
            &&& key == target.key
            &&& route.target == target.target
            &&& route.target_port == target.port
            &&& route.dscp == target.dscp
            &&& route.dscp <= 63
            &&& route.ingress_ifindex == ingress_ifindex
            &&& route.expires_ns == expires_ns
            &&& seen.target == target.target
            &&& seen.state == RouteObservationState::Resolved
            &&& seen.neighbor_confirmed
            &&& seen.ifindex == Some(route.ifindex)
            &&& seen.mtu == Some(route.mtu)
            &&& seen.source_mac == Some(route.source_mac)
            &&& seen.destination_mac == Some(route.destination_mac)
        }),
        forall|m: int|
            at.1 < m < observations.len() ==> (#[trigger] observations[m]).target
                != targets[at.0].target,
{
    law_leases_bind_targets(targets, observations, ingress_ifindex, expires_ns, k);
    let (key, route) = leases(targets, observations, ingress_ifindex, expires_ns)[k];
    let i = choose|i: int|
        0 <= i < targets.len() && gets_lease(#[trigger] targets[i], observations) && key
            == targets[i].key && route == lease(
            targets[i],
            last_observation(observations, targets[i].target)->0,
            ingress_ifindex,
            expires_ns,
        );
    lemma_last_observation(observations, targets[i].target);
    let seen = last_observation(observations, targets[i].target)->0;
    let j = choose|j: int|
        0 <= j < observations.len() && #[trigger] observations[j] == seen && seen.target
            == targets[i].target && forall|m: int|
            j < m < observations.len() ==> (#[trigger] observations[m]).target != targets[i].target;
    (i, j)
}

/// Every target is leased whose codepoint has six bits and whose last observation is of a
/// resolved path, with a confirmed neighbor, a device, a size and both link addresses.
pub proof fn law_confirmed_targets_are_leased(
    targets: Seq<TargetCandidate>,
    observations: Seq<TargetRouteObservation>,
    ingress_ifindex: u32,
    expires_ns: u64,
    i: int,
    j: int,
    ifindex: u32,
    mtu: u32,
    source_mac: Mac,
    destination_mac: Mac,
) -> (k: int)
    requires
        0 <= i < targets.len(),
        0 <= j < observations.len(),
        observations[j].target == targets[i].target,
        forall|m: int|
            j < m < observations.len() ==> (#[trigger] observations[m]).target != targets[i].target,
        observations[j].state == RouteObservationState::Resolved,
        observations[j].neighbor_confirmed,
        observations[j].ifindex == Some(ifindex),
        observations[j].mtu == Some(mtu),
        observations[j].source_mac == Some(source_mac),
        observations[j].destination_mac == Some(destination_mac),
        targets[i].dscp <= 63,
    ensures
        0 <= k < leases(targets, observations, ingress_ifindex, expires_ns).len(),
        ({
            let (key, route) = leases(targets, observations, ingress_ifindex, expires_ns)[k];
            &&& key == targets[i].key
            &&& route.target == targets[i].target
            &&& route.target_port == targets[i].port
            &&& route.dscp == targets[i].dscp
            &&& route.ingress_ifindex == ingress_ifindex
            &&& route.expires_ns == expires_ns
            &&& route.ifindex == ifindex
            &&& route.mtu == mtu
            &&& route.source_mac == source_mac
            &&& route.destination_mac == destination_mac
        }),
    decreases targets.len(),
{
    let all = leases(targets, observations, ingress_ifindex, expires_ns);
    let front = targets.drop_last();
    let before = leases(front, observations, ingress_ifindex, expires_ns);
    if i < front.len() {
        assert(front[i] == targets[i]);
        let k = law_confirmed_targets_are_leased(
            front,
            observations,
            ingress_ifindex,
            expires_ns,
            i,
            j,
            ifindex,
            mtu,
            source_mac,
            destination_mac,
        );
        assert(all[k] == before[k]);
        k
    } else {
        let target = targets[i].target;
        lemma_last_observation(observations, target);
        let seen = last_observation(observations, target);
        assert(seen == Some(observations[j])) by {
            assert(observations[j].target == target);
            assert(seen is Some);
            let n = choose|n: int|
                0 <= n < observations.len() && #[trigger] observations[n] == seen->0
                    && observations[n].target == target && forall|m: int|
                    n < m < observations.len() ==> (#[trigger] observations[m]).target != target;
            if n < j {
                assert(observations[j].target != target);
            }
            if j < n {
                assert(observations[n].target != target);
            }
        }
        all.len() - 1
    }
}

/// Targets are planned one by one, in their order: what comes of a list is what comes of
/// its beginning and then of its rest, at most one lease for each target.
pub proof fn law_targets_are_planned_in_order(
    first: Seq<TargetCandidate>,
    rest: Seq<TargetCandidate>,
    observations: Seq<TargetRouteObservation>,
    ingress_ifindex: u32,
    expires_ns: u64,
)
    ensures
        leases(first + rest, observations, ingress_ifindex, expires_ns) == leases(
            first,
            observations,
            ingress_ifindex,
            expires_ns,
        ) + leases(rest, observations, ingress_ifindex, expires_ns),
        leases(rest, observations, ingress_ifindex, expires_ns).len() <= rest.len(),
    decreases rest.len(),
{
    if rest.len() == 0 {
        assert(first + rest =~= first);
    } else {
        law_targets_are_planned_in_order(
            first,
            rest.drop_last(),
            observations,
            ingress_ifindex,
            expires_ns,
        );
        assert((first + rest).drop_last() =~= first + rest.drop_last());
        assert((first + rest).last() == rest.last());
        assert(leases(first + rest, observations, ingress_ifindex, expires_ns) =~= leases(
            first,
            observations,
            ingress_ifindex,
            expires_ns,
        ) + leases(rest, observations, ingress_ifindex, expires_ns));
    }
}

} // verus!
