//! Composes observation, admission and guarded publication of the cache.
use crate::bytes::{law_le_round_trip, le_bytes, lemma_le_bytes_len, lemma_pow256, push_le};
use crate::order::{
    is_set_of, law_sorting_forgets_order, lemma_sorted_len, lex_less, placed, rank_identifies,
    set_of, sort, sorted, Ranked,
};
use crate::redirect::error::RedirectError;
use crate::redirect::message::Mac;
use crate::redirect::model::{ReturnContext, TargetRouteObservation};
use crate::redirect::planner::{
    leases, plan, NativeTargetKey, NativeTargetRoute, TargetCandidate, LEASE_NS,
};
use crate::redirect::return_planner::{
    plan as plan_replies, return_plan, ReturnLease, ReturnLeaseKey,
};
use vstd::prelude::*;

verus! {

/// A planned route lease.
pub type RouteEntry = (NativeTargetKey, NativeTargetRoute);

/// A planned return lease.
pub type LeaseEntry = (ReturnLeaseKey, ReturnLease);

/// Where the cache lives and which devices it serves.
#[derive(Clone, Debug)]
pub struct RedirectContext {
    pub route_pin: String,
    pub marker_pin: String,
    pub ingress_device: String,
    pub return_device: String,
    pub marker_priority: u16,
}

impl RedirectContext {
    /// Whether two contexts name the same cache and devices.
    pub open spec fn same(self, other: RedirectContext) -> bool {
        &&& self.route_pin@ == other.route_pin@
        &&& self.marker_pin@ == other.marker_pin@
        &&& self.ingress_device@ == other.ingress_device@
        &&& self.return_device@ == other.return_device@
        &&& self.marker_priority == other.marker_priority
    }

    /// Whether a worker of this context serves `other`.
    pub fn matches(&self, other: &RedirectContext) -> (same: bool)
        ensures
            same == self.same(*other),
    {
        self.route_pin == other.route_pin && self.marker_pin == other.marker_pin
            && self.ingress_device == other.ingress_device && self.return_device
            == other.return_device && self.marker_priority == other.marker_priority
    }
}

// ---------------------------------------------------------------------------
// The clock
// ---------------------------------------------------------------------------

/// Nanoseconds in a second.
pub const SECOND_NS: u64 = 1_000_000_000;

/// The time of a clock reading in nanoseconds.
pub fn monotonic_ns(seconds: i64, nanoseconds: u32) -> (ns: Result<u64, RedirectError>)
    ensures
        match ns {
            Ok(ns) => seconds >= 0 && ns == seconds * SECOND_NS + nanoseconds,
            Err(RedirectError::IntegerRange) => seconds < 0,
            Err(RedirectError::ClockOverflow) => seconds >= 0 && seconds * SECOND_NS + nanoseconds
                > u64::MAX,
            Err(_) => false,
        },
        ns matches Ok(ns) ==> ns == 1_000_000_000 * seconds + nanoseconds,
{
    if seconds < 0 {
        return Err(RedirectError::IntegerRange);
    }
    let whole: u64 = seconds as u64;
    let total: u128 = whole as u128 * 1_000_000_000 + nanoseconds as u128;
    if total > u64::MAX as u128 {
        Err(RedirectError::ClockOverflow)
    } else {
        Ok(total as u64)
    }
}

// ---------------------------------------------------------------------------
// Refreshing the cache
// ---------------------------------------------------------------------------

/// The devices that leases send frames out of.
pub open spec fn lease_outputs(desired: Seq<RouteEntry>) -> Seq<u32> {
    desired.map_values(|entry: RouteEntry| entry.1.ifindex)
}

/// The first half of a refresh: route leases, and the devices to admit for them.
#[derive(Clone, Debug)]
pub struct ForwardPlan {
    pub desired: Vec<RouteEntry>,
    pub outputs: Vec<u32>,
}

/// Plans the route leases from what was observed since `started`.
pub fn plan_forward(
    targets: &[TargetCandidate],
    routes: &[TargetRouteObservation],
    ingress: u32,
    started: u64,
    capacity: usize,
) -> (planned: Result<ForwardPlan, RedirectError>)
    ensures
        match planned {
            Err(RedirectError::MissingIngress) => ingress == 0,
            Err(RedirectError::LeaseOverflow) => ingress != 0 && started + LEASE_NS > u64::MAX,
            Err(RedirectError::CacheCapacity) => ingress != 0 && started + LEASE_NS <= u64::MAX
                && leases(targets@, routes@, ingress, (started + LEASE_NS) as u64).len() > capacity,
            Err(_) => false,
            Ok(forward) => ingress != 0 && started + LEASE_NS <= u64::MAX && forward.desired@
                == leases(targets@, routes@, ingress, (started + LEASE_NS) as u64)
                && forward.desired.len() <= capacity && is_set_of(
                forward.outputs@,
                lease_outputs(forward.desired@),
            ),
        },
{
    let desired = match plan(targets, routes, ingress, started, capacity) {
        Ok(desired) => desired,
        Err(error) => {
            return Err(error);
        },
    };
    let mut indexes: Vec<u32> = Vec::new();
    let mut i: usize = 0;
    while i < desired.len()
        invariant
            i <= desired.len(),
            indexes@ == lease_outputs(desired@.take(i as int)),
        decreases desired.len() - i,
    {
        indexes.push(desired[i].1.ifindex);
        i += 1;
        assert(indexes@ =~= lease_outputs(desired@.take(i as int)));
    }
    assert(desired@.take(desired@.len() as int) =~= desired@);
    let outputs = set_of(indexes.as_slice());
    Ok(ForwardPlan { desired, outputs })
}

/// How far the return classifier's priority lies behind the marker's.
pub const RETURN_PRIORITY_OFFSET: u16 = 11;

/// The second half of a refresh: return leases, and the priority at which the
/// return classifier must be found.
#[derive(Clone, Debug)]
pub struct ReturnPlan {
    pub replies: Vec<LeaseEntry>,
    pub priority: u16,
}

/// Plans the return leases.
pub fn plan_return(
    context: &ReturnContext,
    marker_priority: u16,
    started: u64,
    capacity: usize,
) -> (planned: Result<ReturnPlan, RedirectError>)
    ensures
        match (planned, return_plan(*context, started, capacity)) {
            (Ok(plan), Ok(leases)) => plan.replies@ == leases && plan.priority == marker_priority
                + RETURN_PRIORITY_OFFSET,
            (Err(error), Ok(_)) => error == RedirectError::ReturnPriorityOverflow && marker_priority
                + RETURN_PRIORITY_OFFSET > u16::MAX,
            (Err(error), Err(refusal)) => error == refusal,
            (Ok(_), Err(_)) => false,
        },
        planned matches Ok(plan) ==> plan.priority - marker_priority == 11,
{
    let replies = match plan_replies(context, started, capacity) {
        Ok(replies) => replies,
        Err(error) => {
            return Err(error);
        },
    };
    match marker_priority.checked_add(RETURN_PRIORITY_OFFSET) {
        Some(priority) => Ok(ReturnPlan { replies, priority }),
        None => Err(RedirectError::ReturnPriorityOverflow),
    }
}

/// How a refresh ends.
#[derive(Clone, Copy, Debug, PartialEq, Eq, Structural)]
pub enum RefreshEnd {
    /// Notifications came in meanwhile: withdraw everything and try again later.
    Invalidate,
    /// Publish what was planned, under this digest.
    Publish(u64),
}

/// Decides whether the plans may be published. Notifications that came in during
/// the observation void it, and so does an observation that outlived its leases.
pub fn conclude(
    pending: bool,
    started: u64,
    now: u64,
    desired: &[RouteEntry],
    replies: &[LeaseEntry],
    locals: &[u32],
) -> (end: Result<RefreshEnd, RedirectError>)
    ensures
        end == if pending {
            Ok::<RefreshEnd, RedirectError>(RefreshEnd::Invalidate)
        } else if now < if started + LEASE_NS <= u64::MAX {
            started + LEASE_NS
        } else {
            u64::MAX as int
        } {
            Ok(RefreshEnd::Publish(digest(desired@, replies@, locals@)))
        } else {
            Err(RedirectError::ObservationExceededLease)
        },
        end matches Ok(RefreshEnd::Publish(_)) ==> !pending && now < started + 2_000_000_000,
        !pending && started + 2_000_000_000 <= now ==> end is Err,
{
    if pending {
        return Ok(RefreshEnd::Invalidate);
    }
    if now < started.saturating_add(LEASE_NS) {
        Ok(RefreshEnd::Publish(publication_digest(desired, replies, locals)))
    } else {
        Err(RedirectError::ObservationExceededLease)
    }
}

// ---------------------------------------------------------------------------
// The digest of a publication
// ---------------------------------------------------------------------------

/// The first state of the 64-bit FNV-1a hash.
pub const FNV_OFFSET: u64 = 0xcbf2_9ce4_8422_2325;

/// The multiplier of the 64-bit FNV-1a hash.
pub const FNV_PRIME: u64 = 0x0000_0100_0000_01b3;

/// The 64-bit FNV-1a hash of bytes.
pub open spec fn fnv1a(bytes: Seq<u8>) -> u64
    decreases bytes.len(),
{
    if bytes.len() == 0 {
        FNV_OFFSET
    } else {
        (fnv1a(bytes.drop_last()) ^ bytes.last() as u64).wrapping_mul(FNV_PRIME)
    }
}

fn hash_bytes(bytes: &[u8]) -> (hash: u64)
    ensures
        hash == fnv1a(bytes@),
{
    let mut hash: u64 = FNV_OFFSET;
    let mut i: usize = 0;
    while i < bytes.len()
        invariant
            i <= bytes.len(),
            hash == fnv1a(bytes@.take(i as int)),
        decreases bytes.len() - i,
    {
        assert(bytes@.take(i + 1).drop_last() =~= bytes@.take(i as int));
        hash = (hash ^ bytes[i] as u64).wrapping_mul(FNV_PRIME);
        i += 1;
    }
    assert(bytes@.take(bytes@.len() as int) =~= bytes@);
    hash
}

impl Ranked for RouteEntry {
    open spec fn rank(&self) -> Seq<int> {
        seq![
            self.0.listener_id as int,
            self.0.target_id as int,
            self.1.target as int,
            self.1.target_port as int,
            self.1.ingress_ifindex as int,
            self.1.ifindex as int,
        ]
    }

    fn comes_before(&self, other: &Self) -> (b: bool) {
        proof {
            reveal_with_fuel(lex_less, 7);
        }
        if self.0.listener_id != other.0.listener_id {
            self.0.listener_id < other.0.listener_id
        } else if self.0.target_id != other.0.target_id {
            self.0.target_id < other.0.target_id
        } else if self.1.target != other.1.target {
            self.1.target < other.1.target
        } else if self.1.target_port != other.1.target_port {
            self.1.target_port < other.1.target_port
        } else if self.1.ingress_ifindex != other.1.ingress_ifindex {
            self.1.ingress_ifindex < other.1.ingress_ifindex
        } else {
            self.1.ifindex < other.1.ifindex
        }
    }
}

impl Ranked for LeaseEntry {
    open spec fn rank(&self) -> Seq<int> {
        seq![self.0.ingress_ifindex as int, self.0.ifindex as int, self.0.source as int]
    }

    fn comes_before(&self, other: &Self) -> (b: bool) {
        proof {
            reveal_with_fuel(lex_less, 4);
        }
        if self.0.ingress_ifindex != other.0.ingress_ifindex {
            self.0.ingress_ifindex < other.0.ingress_ifindex
        } else if self.0.ifindex != other.0.ifindex {
            self.0.ifindex < other.0.ifindex
        } else {
            self.0.source < other.0.source
        }
    }
}

/// The bytes of a hardware address.
pub open spec fn mac_bytes(mac: Mac) -> Seq<u8> {
    seq![mac.0, mac.1, mac.2, mac.3, mac.4, mac.5]
}

/// What the digest covers of a route lease: everything but its deadline.
pub open spec fn route_bytes(entry: RouteEntry) -> Seq<u8> {
    le_bytes(entry.0.listener_id as nat, 4) + le_bytes(entry.0.target_id as nat, 4) + le_bytes(
        entry.1.target as nat,
        4,
    ) + le_bytes(entry.1.ingress_ifindex as nat, 4) + le_bytes(entry.1.ifindex as nat, 4)
        + le_bytes(entry.1.mtu as nat, 4) + le_bytes(entry.1.target_port as nat, 2) + le_bytes(
        entry.1.dscp as nat,
        1,
    ) + mac_bytes(entry.1.source_mac) + mac_bytes(entry.1.destination_mac)
}

/// What the digest covers of a return lease: everything but its deadline.
pub open spec fn lease_bytes(entry: LeaseEntry) -> Seq<u8> {
    le_bytes(entry.0.ingress_ifindex as nat, 4) + le_bytes(entry.0.ifindex as nat, 4) + le_bytes(
        entry.0.source as nat,
        4,
    )
}

pub open spec fn routes_bytes(entries: Seq<RouteEntry>) -> Seq<u8>
    decreases entries.len(),
{
    if entries.len() == 0 {
        Seq::empty()
    } else {
        routes_bytes(entries.drop_last()) + route_bytes(entries.last())
    }
}

pub open spec fn leases_bytes(entries: Seq<LeaseEntry>) -> Seq<u8>
    decreases entries.len(),
{
    if entries.len() == 0 {
        Seq::empty()
    } else {
        leases_bytes(entries.drop_last()) + lease_bytes(entries.last())
    }
}

pub open spec fn addresses_bytes(addresses: Seq<u32>) -> Seq<u8>
    decreases addresses.len(),
{
    if addresses.len() == 0 {
        Seq::empty()
    } else {
        addresses_bytes(addresses.drop_last()) + le_bytes(addresses.last() as nat, 4)
    }
}

/// What a publication comes to, in an order of its own: route leases, return
/// leases and local addresses, each list after a letter and its length.
pub open spec fn publication_bytes(
    desired: Seq<RouteEntry>,
    replies: Seq<LeaseEntry>,
    locals: Seq<u32>,
) -> Seq<u8> {
    seq![82u8] + le_bytes(desired.len(), 8) + routes_bytes(sorted(desired)) + seq![76u8]
        + le_bytes(replies.len(), 8) + leases_bytes(sorted(replies)) + seq![65u8] + le_bytes(
        locals.len(),
        8,
    ) + addresses_bytes(sorted(locals))
}

/// The digest of a publication.
pub open spec fn digest(
    desired: Seq<RouteEntry>,
    replies: Seq<LeaseEntry>,
    locals: Seq<u32>,
) -> u64 {
    fnv1a(publication_bytes(desired, replies, locals))
}

fn push_mac(out: &mut Vec<u8>, mac: Mac)
    ensures
        final(out)@ == old(out)@ + mac_bytes(mac),
{
    out.push(mac.0);
    out.push(mac.1);
    out.push(mac.2);
    out.push(mac.3);
    out.push(mac.4);
    out.push(mac.5);
    assert(out@ =~= old(out)@ + mac_bytes(mac));
}

fn push_route(out: &mut Vec<u8>, entry: &RouteEntry)
    ensures
        final(out)@ == old(out)@ + route_bytes(*entry),
{
    push_le(out, entry.0.listener_id as u64, 4);
    push_le(out, entry.0.target_id as u64, 4);
    push_le(out, entry.1.target as u64, 4);
    push_le(out, entry.1.ingress_ifindex as u64, 4);
    push_le(out, entry.1.ifindex as u64, 4);
    push_le(out, entry.1.mtu as u64, 4);
    push_le(out, entry.1.target_port as u64, 2);
    push_le(out, entry.1.dscp as u64, 1);
    push_mac(out, entry.1.source_mac);
    push_mac(out, entry.1.destination_mac);
    assert(out@ =~= old(out)@ + route_bytes(*entry));
}

fn push_lease(out: &mut Vec<u8>, entry: &LeaseEntry)
    ensures
        final(out)@ == old(out)@ + lease_bytes(*entry),
{
    push_le(out, entry.0.ingress_ifindex as u64, 4);
    push_le(out, entry.0.ifindex as u64, 4);
    push_le(out, entry.0.source as u64, 4);
    assert(out@ =~= old(out)@ + lease_bytes(*entry));
}

fn push_routes(out: &mut Vec<u8>, entries: &[RouteEntry])
    ensures
        final(out)@ == old(out)@ + routes_bytes(entries@),
{
    let ghost start = out@;
    let mut i: usize = 0;
    assert(out@ =~= start + routes_bytes(entries@.take(0)));
    while i < entries.len()
        invariant
            i <= entries.len(),
            out@ == start + routes_bytes(entries@.take(i as int)),
        decreases entries.len() - i,
    {
        assert(entries@.take(i + 1).drop_last() =~= entries@.take(i as int));
        let ghost before = out@;
        push_route(out, &entries[i]);
        assert(out@ =~= start + routes_bytes(entries@.take(i + 1)));
        i += 1;
    }
    assert(entries@.take(entries@.len() as int) =~= entries@);
}

fn push_leases(out: &mut Vec<u8>, entries: &[LeaseEntry])
    ensures
        final(out)@ == old(out)@ + leases_bytes(entries@),
{
    let ghost start = out@;
    let mut i: usize = 0;
    assert(out@ =~= start + leases_bytes(entries@.take(0)));
    while i < entries.len()
        invariant
            i <= entries.len(),
            out@ == start + leases_bytes(entries@.take(i as int)),
        decreases entries.len() - i,
    {
        assert(entries@.take(i + 1).drop_last() =~= entries@.take(i as int));
        push_lease(out, &entries[i]);
        assert(out@ =~= start + leases_bytes(entries@.take(i + 1)));
        i += 1;
    }
    assert(entries@.take(entries@.len() as int) =~= entries@);
}

fn push_addresses(out: &mut Vec<u8>, addresses: &[u32])
    ensures
        final(out)@ == old(out)@ + addresses_bytes(addresses@),
{
    let ghost start = out@;
    let mut i: usize = 0;
    assert(out@ =~= start + addresses_bytes(addresses@.take(0)));
    while i < addresses.len()
        invariant
            i <= addresses.len(),
            out@ == start + addresses_bytes(addresses@.take(i as int)),
        decreases addresses.len() - i,
    {
        assert(addresses@.take(i + 1).drop_last() =~= addresses@.take(i as int));
        push_le(out, addresses[i] as u64, 4);
        assert(out@ =~= start + addresses_bytes(addresses@.take(i + 1)));
        i += 1;
    }
    assert(addresses@.take(addresses@.len() as int) =~= addresses@);
}

fn copied<T: Copy>(values: &[T]) -> (copy: Vec<T>)
    ensures
        copy@ == values@,
{
    let mut copy: Vec<T> = Vec::new();
    let mut i: usize = 0;
    while i < values.len()
        invariant
            i <= values.len(),
            copy@ == values@.take(i as int),
        decreases values.len() - i,
    {
        copy.push(values[i]);
        i += 1;
        assert(copy@ =~= values@.take(i as int));
    }
    assert(values@.take(values@.len() as int) =~= values@);
    copy
}

/// The digest of a publication: the same for the same leases and addresses, in
/// whatever order they come and whenever they end.
pub fn publication_digest(desired: &[RouteEntry], replies: &[LeaseEntry], locals: &[u32]) -> (hash:
    u64)
    ensures
        hash == digest(desired@, replies@, locals@),
{
    let mut out: Vec<u8> = Vec::new();
    let mut routes = copied(desired);
    sort(&mut routes);
    out.push(82);
    push_le(&mut out, desired.len() as u64, 8);
    push_routes(&mut out, routes.as_slice());
    let mut lease_list = copied(replies);
    sort(&mut lease_list);
    out.push(76);
    push_le(&mut out, replies.len() as u64, 8);
    push_leases(&mut out, lease_list.as_slice());
    let mut addresses = copied(locals);
    sort(&mut addresses);
    out.push(65);
    push_le(&mut out, locals.len() as u64, 8);
    push_addresses(&mut out, addresses.as_slice());
    assert(out@ =~= publication_bytes(desired@, replies@, locals@));
    hash_bytes(out.as_slice())
}

// ---------------------------------------------------------------------------
// Laws
// ---------------------------------------------------------------------------

/// A route lease without its deadline.
pub open spec fn undated(entry: RouteEntry) -> RouteEntry {
    (entry.0, NativeTargetRoute { expires_ns: 0, ..entry.1 })
}

/// A return lease without its deadline.
pub open spec fn undated_lease(entry: LeaseEntry) -> LeaseEntry {
    (entry.0, ReturnLease { expires_ns: 0 })
}

/// Route leases without their deadlines.
pub open spec fn undated_routes(entries: Seq<RouteEntry>) -> Seq<RouteEntry> {
    entries.map_values(|entry: RouteEntry| undated(entry))
}

/// Return leases without their deadlines.
pub open spec fn undated_leases(entries: Seq<LeaseEntry>) -> Seq<LeaseEntry> {
    entries.map_values(|entry: LeaseEntry| undated_lease(entry))
}

proof fn lemma_routes_bytes_undated(entries: Seq<RouteEntry>)
    ensures
        routes_bytes(undated_routes(entries)) == routes_bytes(entries),
    decreases entries.len(),
{
    if entries.len() > 0 {
        lemma_routes_bytes_undated(entries.drop_last());
        assert(undated_routes(entries).drop_last() =~= undated_routes(entries.drop_last()));
    }
}

proof fn lemma_leases_bytes_undated(entries: Seq<LeaseEntry>)
    ensures
        leases_bytes(undated_leases(entries)) == leases_bytes(entries),
    decreases entries.len(),
{
    if entries.len() > 0 {
        lemma_leases_bytes_undated(entries.drop_last());
        assert(undated_leases(entries).drop_last() =~= undated_leases(entries.drop_last()));
    }
}

proof fn lemma_placed_undated(s: Seq<RouteEntry>, x: RouteEntry)
    ensures
        placed(undated_routes(s), undated(x)) == undated_routes(placed(s, x)),
    decreases s.len(),
{
    if s.len() == 0 || !lex_less(x.rank(), s.last().rank()) {
        assert(undated(x).rank() =~= x.rank());
        if s.len() > 0 {
            assert(undated(s.last()).rank() =~= s.last().rank());
        }
        assert(undated_routes(s).push(undated(x)) =~= undated_routes(s.push(x)));
    } else {
        assert(undated(x).rank() =~= x.rank());
        assert(undated(s.last()).rank() =~= s.last().rank());
        lemma_placed_undated(s.drop_last(), x);
        assert(undated_routes(s).drop_last() =~= undated_routes(s.drop_last()));
        assert(undated_routes(placed(s.drop_last(), x)).push(undated(s.last()))
            =~= undated_routes(placed(s.drop_last(), x).push(s.last())));
    }
}

proof fn lemma_sorted_undated(s: Seq<RouteEntry>)
    ensures
        sorted(undated_routes(s)) == undated_routes(sorted(s)),
    decreases s.len(),
{
    if s.len() > 0 {
        lemma_sorted_undated(s.drop_last());
        assert(undated_routes(s).drop_last() =~= undated_routes(s.drop_last()));
        lemma_placed_undated(sorted(s.drop_last()), s.last());
    } else {
        assert(undated_routes(s) =~= s);
    }
}

proof fn lemma_placed_undated_lease(s: Seq<LeaseEntry>, x: LeaseEntry)
    ensures
        placed(undated_leases(s), undated_lease(x)) == undated_leases(placed(s, x)),
    decreases s.len(),
{
    if s.len() == 0 || !lex_less(x.rank(), s.last().rank()) {
        assert(undated_lease(x).rank() =~= x.rank());
        if s.len() > 0 {
            assert(undated_lease(s.last()).rank() =~= s.last().rank());
        }
        assert(undated_leases(s).push(undated_lease(x)) =~= undated_leases(s.push(x)));
    } else {
        assert(undated_lease(x).rank() =~= x.rank());
        assert(undated_lease(s.last()).rank() =~= s.last().rank());
        lemma_placed_undated_lease(s.drop_last(), x);
        assert(undated_leases(s).drop_last() =~= undated_leases(s.drop_last()));
        assert(undated_leases(placed(s.drop_last(), x)).push(undated_lease(s.last()))
            =~= undated_leases(placed(s.drop_last(), x).push(s.last())));
    }
}

proof fn lemma_sorted_undated_lease(s: Seq<LeaseEntry>)
    ensures
        sorted(undated_leases(s)) == undated_leases(sorted(s)),
    decreases s.len(),
{
    if s.len() > 0 {
        lemma_sorted_undated_lease(s.drop_last());
        assert(undated_leases(s).drop_last() =~= undated_leases(s.drop_last()));
        lemma_placed_undated_lease(sorted(s.drop_last()), s.last());
    } else {
        assert(undated_leases(s) =~= s);
    }
}

/// The digest depends neither on the order of the leases and addresses nor on
/// the deadlines. Route leases that sort alike must be alike, as they are where
/// no target has two leases.
pub proof fn law_digest_ignores_order_and_deadlines(
    desired: Seq<RouteEntry>,
    replies: Seq<LeaseEntry>,
    locals: Seq<u32>,
    other_desired: Seq<RouteEntry>,
    other_replies: Seq<LeaseEntry>,
    other_locals: Seq<u32>,
)
    requires
        undated_routes(desired).to_multiset() == undated_routes(other_desired).to_multiset(),
        undated_leases(replies).to_multiset() == undated_leases(other_replies).to_multiset(),
        locals.to_multiset() == other_locals.to_multiset(),
        rank_identifies(undated_routes(desired)),
    ensures
        digest(desired, replies, locals) == digest(other_desired, other_replies, other_locals),
{
    broadcast use vstd::seq_lib::group_to_multiset_ensures;

    law_sorting_forgets_order(undated_routes(desired), undated_routes(other_desired));
    lemma_sorted_undated(desired);
    lemma_sorted_undated(other_desired);
    lemma_routes_bytes_undated(sorted(desired));
    lemma_routes_bytes_undated(sorted(other_desired));
    assert(desired.len() == undated_routes(desired).to_multiset().len());
    assert(other_desired.len() == undated_routes(other_desired).to_multiset().len());
    let some = undated_leases(replies);
    assert forall|i: int, j: int|
        0 <= i < some.len() && 0 <= j < some.len() && (#[trigger] some[i]).rank() == (
        #[trigger] some[j]).rank() implies some[i] == some[j] by {
        assert(some[i].rank()[0] == some[j].rank()[0]);
        assert(some[i].rank()[1] == some[j].rank()[1]);
        assert(some[i].rank()[2] == some[j].rank()[2]);
    }
    law_sorting_forgets_order(undated_leases(replies), undated_leases(other_replies));
    lemma_sorted_undated_lease(replies);
    lemma_sorted_undated_lease(other_replies);
    lemma_leases_bytes_undated(sorted(replies));
    lemma_leases_bytes_undated(sorted(other_replies));
    assert(replies.len() == undated_leases(replies).to_multiset().len());
    assert(other_replies.len() == undated_leases(other_replies).to_multiset().len());
    assert forall|i: int, j: int|
        0 <= i < locals.len() && 0 <= j < locals.len() && (#[trigger] locals[i]).rank() == (
        #[trigger] locals[j]).rank() implies locals[i] == locals[j] by {
        assert(locals[i].rank()[0] == locals[j].rank()[0]);
    }
    law_sorting_forgets_order(locals, other_locals);
    assert(locals.len() == locals.to_multiset().len());
    assert(other_locals.len() == other_locals.to_multiset().len());
}

/// A context serves another exactly where all that they name is the same.
pub proof fn law_contexts_are_told_apart(a: RedirectContext, b: RedirectContext)
    ensures
        a.same(b) <==> a.route_pin@ == b.route_pin@ && a.marker_pin@ == b.marker_pin@
            && a.ingress_device@ == b.ingress_device@ && a.return_device@ == b.return_device@
            && a.marker_priority == b.marker_priority,
        a.same(b) == b.same(a),
{
}

/// Each byte changes the digest in the same way: it is mixed in by exclusive or, and the
/// whole is multiplied.
pub proof fn law_digest_grows_by_bytes(bytes: Seq<u8>, byte: u8)
    ensures
        fnv1a(Seq::empty()) == 0xcbf2_9ce4_8422_2325,
        fnv1a(bytes.push(byte)) == (fnv1a(bytes) ^ byte as u64).wrapping_mul(0x0000_0100_0000_01b3),
{
    assert(bytes.push(byte).drop_last() =~= bytes);
}

/// The digest covers everything of a route lease but its deadline: leases that come to the
/// same bytes are the same.
pub proof fn law_digest_covers_route_leases(a: RouteEntry, b: RouteEntry)
    requires
        route_bytes(a) == route_bytes(b),
    ensures
        a.0.listener_id == b.0.listener_id,
        a.0.target_id == b.0.target_id,
        a.1.target == b.1.target,
        a.1.target_port == b.1.target_port,
        a.1.ingress_ifindex == b.1.ingress_ifindex,
        a.1.ifindex == b.1.ifindex,
        a.1.mtu == b.1.mtu,
        a.1.dscp == b.1.dscp,
        a.1.source_mac == b.1.source_mac,
        a.1.destination_mac == b.1.destination_mac,
{
    lemma_route_parts(a);
    lemma_route_parts(b);
    let r = route_bytes(a);
    lemma_pow256();
    law_le_round_trip(a.0.listener_id as nat, 4);
    law_le_round_trip(b.0.listener_id as nat, 4);
    law_le_round_trip(a.0.target_id as nat, 4);
    law_le_round_trip(b.0.target_id as nat, 4);
    law_le_round_trip(a.1.target as nat, 4);
    law_le_round_trip(b.1.target as nat, 4);
    law_le_round_trip(a.1.ingress_ifindex as nat, 4);
    law_le_round_trip(b.1.ingress_ifindex as nat, 4);
    law_le_round_trip(a.1.ifindex as nat, 4);
    law_le_round_trip(b.1.ifindex as nat, 4);
    law_le_round_trip(a.1.mtu as nat, 4);
    law_le_round_trip(b.1.mtu as nat, 4);
    law_le_round_trip(a.1.target_port as nat, 2);
    law_le_round_trip(b.1.target_port as nat, 2);
    law_le_round_trip(a.1.dscp as nat, 1);
    law_le_round_trip(b.1.dscp as nat, 1);
}

proof fn lemma_route_parts(entry: RouteEntry)
    ensures
        ({
            let r = route_bytes(entry);
            &&& r.len() == 39
            &&& r.subrange(0, 4) == le_bytes(entry.0.listener_id as nat, 4)
            &&& r.subrange(4, 8) == le_bytes(entry.0.target_id as nat, 4)
            &&& r.subrange(8, 12) == le_bytes(entry.1.target as nat, 4)
            &&& r.subrange(12, 16) == le_bytes(entry.1.ingress_ifindex as nat, 4)
            &&& r.subrange(16, 20) == le_bytes(entry.1.ifindex as nat, 4)
            &&& r.subrange(20, 24) == le_bytes(entry.1.mtu as nat, 4)
            &&& r.subrange(24, 26) == le_bytes(entry.1.target_port as nat, 2)
            &&& r.subrange(26, 27) == le_bytes(entry.1.dscp as nat, 1)
            &&& r[27] == entry.1.source_mac.0
            &&& r[28] == entry.1.source_mac.1
            &&& r[29] == entry.1.source_mac.2
            &&& r[30] == entry.1.source_mac.3
            &&& r[31] == entry.1.source_mac.4
            &&& r[32] == entry.1.source_mac.5
            &&& r[33] == entry.1.destination_mac.0
            &&& r[34] == entry.1.destination_mac.1
            &&& r[35] == entry.1.destination_mac.2
            &&& r[36] == entry.1.destination_mac.3
            &&& r[37] == entry.1.destination_mac.4
            &&& r[38] == entry.1.destination_mac.5
        }),
{
    let r = route_bytes(entry);
    lemma_le_bytes_len(entry.0.listener_id as nat, 4);
    lemma_le_bytes_len(entry.0.target_id as nat, 4);
    lemma_le_bytes_len(entry.1.target as nat, 4);
    lemma_le_bytes_len(entry.1.ingress_ifindex as nat, 4);
    lemma_le_bytes_len(entry.1.ifindex as nat, 4);
    lemma_le_bytes_len(entry.1.mtu as nat, 4);
    lemma_le_bytes_len(entry.1.target_port as nat, 2);
    lemma_le_bytes_len(entry.1.dscp as nat, 1);
}

/// The digest covers everything of a return lease but its deadline.
pub proof fn law_digest_covers_return_leases(a: LeaseEntry, b: LeaseEntry)
    requires
        lease_bytes(a) == lease_bytes(b),
    ensures
        a.0.ingress_ifindex == b.0.ingress_ifindex,
        a.0.ifindex == b.0.ifindex,
        a.0.source == b.0.source,
{
    lemma_lease_parts(a);
    lemma_lease_parts(b);
    lemma_pow256();
    law_le_round_trip(a.0.ingress_ifindex as nat, 4);
    law_le_round_trip(b.0.ingress_ifindex as nat, 4);
    law_le_round_trip(a.0.ifindex as nat, 4);
    law_le_round_trip(b.0.ifindex as nat, 4);
    law_le_round_trip(a.0.source as nat, 4);
    law_le_round_trip(b.0.source as nat, 4);
}

proof fn lemma_lease_parts(entry: LeaseEntry)
    ensures
        ({
            let r = lease_bytes(entry);
            &&& r.len() == 12
            &&& r.subrange(0, 4) == le_bytes(entry.0.ingress_ifindex as nat, 4)
            &&& r.subrange(4, 8) == le_bytes(entry.0.ifindex as nat, 4)
            &&& r.subrange(8, 12) == le_bytes(entry.0.source as nat, 4)
        }),
{
    lemma_le_bytes_len(entry.0.ingress_ifindex as nat, 4);
    lemma_le_bytes_len(entry.0.ifindex as nat, 4);
    lemma_le_bytes_len(entry.0.source as nat, 4);
}

/// The bytes of a publication hold its route leases, its return leases and its local
/// addresses in full: as many bytes as they take, with a letter and a count before each.
pub proof fn law_publication_is_counted(
    desired: Seq<RouteEntry>,
    replies: Seq<LeaseEntry>,
    locals: Seq<u32>,
)
    ensures
        publication_bytes(desired, replies, locals).len() == 27 + 39 * desired.len() + 12
            * replies.len() + 4 * locals.len(),
        publication_bytes(desired, replies, locals)[0] == 82,
        publication_bytes(desired, replies, locals)[9 + 39 * desired.len() as int] == 76,
        publication_bytes(desired, replies, locals)[18 + 39 * desired.len() as int + 12 * replies.len() as int]
            == 65,
{
    lemma_routes_len(sorted(desired));
    lemma_leases_len(sorted(replies));
    lemma_addresses_len(sorted(locals));
    lemma_sorted_len(desired);
    lemma_sorted_len(replies);
    lemma_sorted_len(locals);
    lemma_le_bytes_len(desired.len(), 8);
    lemma_le_bytes_len(replies.len(), 8);
    lemma_le_bytes_len(locals.len(), 8);
}

proof fn lemma_routes_len(entries: Seq<RouteEntry>)
    ensures
        routes_bytes(entries).len() == 39 * entries.len(),
    decreases entries.len(),
{
    if entries.len() > 0 {
        lemma_routes_len(entries.drop_last());
        lemma_route_parts(entries.last());
    }
}

proof fn lemma_leases_len(entries: Seq<LeaseEntry>)
    ensures
        leases_bytes(entries).len() == 12 * entries.len(),
    decreases entries.len(),
{
    if entries.len() > 0 {
        lemma_leases_len(entries.drop_last());
        lemma_lease_parts(entries.last());
    }
}

proof fn lemma_addresses_len(addresses: Seq<u32>)
    ensures
        addresses_bytes(addresses).len() == 4 * addresses.len(),
    decreases addresses.len(),
{
    if addresses.len() > 0 {
        lemma_addresses_len(addresses.drop_last());
        lemma_le_bytes_len(addresses.last() as nat, 4);
    }
}

/// The devices to admit are those that the leases send frames out of.
pub proof fn law_outputs_are_those_of_leases(desired: Seq<RouteEntry>, i: int)
    requires
        0 <= i < desired.len(),
    ensures
        lease_outputs(desired).len() == desired.len(),
        lease_outputs(desired)[i] == desired[i].1.ifindex,
{
}

} // verus!
