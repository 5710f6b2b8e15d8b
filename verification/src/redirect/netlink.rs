//! Route lookups: the requests, and what two answers come to.
use crate::order::{ascending, is_set_of, set_insert, set_of};
use crate::redirect::error::RedirectError;
use crate::redirect::message::{
    AddressAttribute, AddressFamily, AddressMessage, LinkAttribute, LinkLayer, LinkMessage,
    NeighborMessage, RouteAddress, RouteAttribute, RouteKind, RouteMessage, ROUTE_FIB_MATCH,
};
use crate::redirect::model::{RouteObservationState, TargetRouteObservation};
use crate::redirect::resolve::{
    destination_only, destination_only_fib, nonplain_attribute, observe_route, observed_route,
    plain_ingress,
};
use vstd::prelude::*;

verus! {

/// A request that the kernel answers for one destination; it is no dump.
#[derive(Clone, Debug)]
pub struct LookupRequest {
    pub flags: u16,
    pub route: RouteMessage,
}

/// Builds the lookup of one destination. With `fib_match` the kernel returns the
/// matching entry, which keeps several next hops visible.
pub fn route_lookup_request(target: u32, fib_match: bool) -> (request: LookupRequest)
    ensures
        request.flags == crate::nla::NLM_F_REQUEST,
        request.route.family == AddressFamily::Inet,
        request.route.destination_prefix_len == 32,
        request.route.source_prefix_len == 0,
        request.route.tos == 0,
        request.route.flags == if fib_match { ROUTE_FIB_MATCH } else { 0u32 },
        fib_match ==> request.route.flags == 0x2000,
        request.route.attributes@ == seq![RouteAttribute::Destination(RouteAddress::Inet(target))],
{
    let mut attributes: Vec<RouteAttribute> = Vec::new();
    attributes.push(RouteAttribute::Destination(RouteAddress::Inet(target)));
    LookupRequest {
        flags: crate::nla::NLM_F_REQUEST,
        route: RouteMessage {
            family: AddressFamily::Inet,
            kind: RouteKind::Other,
            source_prefix_len: 0,
            destination_prefix_len: 32,
            tos: 0,
            flags: if fib_match {
                ROUTE_FIB_MATCH
            } else {
                0
            },
            attributes,
        },
    }
}

/// One message of a lookup's answer.
#[derive(Clone, Debug)]
pub enum LookupReply {
    Route(RouteMessage),
    Error(i32),
    Other,
}

/// What a lookup's answer comes to: exactly one route.
pub open spec fn single_route(replies: Seq<LookupReply>) -> Result<RouteMessage, RedirectError>
    decreases replies.len(),
{
    if replies.len() == 0 {
        Err(RedirectError::RouteMissing)
    } else {
        match (single_route(replies.drop_last()), replies.last()) {
            (Ok(_), LookupReply::Route(_)) => Err(RedirectError::RouteMultiple),
            (Err(RedirectError::RouteMissing), LookupReply::Route(route)) => Ok(route),
            (Ok(_), LookupReply::Error(code)) => Err(RedirectError::RouteQuery(code)),
            (Err(RedirectError::RouteMissing), LookupReply::Error(code)) => Err(
                RedirectError::RouteQuery(code),
            ),
            (Ok(_), LookupReply::Other) => Err(RedirectError::RouteUnexpected),
            (Err(RedirectError::RouteMissing), LookupReply::Other) => Err(
                RedirectError::RouteUnexpected,
            ),
            (Err(error), _) => Err(error),
        }
    }
}

proof fn lemma_single_route_stops(replies: Seq<LookupReply>, n: int)
    requires
        0 <= n <= replies.len(),
        single_route(replies.take(n)) is Err,
        single_route(replies.take(n))->Err_0 != RedirectError::RouteMissing,
    ensures
        single_route(replies) == single_route(replies.take(n)),
    decreases replies.len() - n,
{
    if n < replies.len() {
        assert(replies.take(n + 1).drop_last() =~= replies.take(n));
        lemma_single_route_stops(replies, n + 1);
    } else {
        assert(replies.take(n) =~= replies);
    }
}

/// The place of the one route in a lookup's answer. A second route, an error or
/// any other message ends the lookup.
pub fn lookup_route(replies: &[LookupReply]) -> (at: Result<usize, RedirectError>)
    ensures
        match at {
            Ok(i) => i < replies.len() && replies@[i as int] is Route && single_route(replies@)
                == Ok::<RouteMessage, RedirectError>(replies@[i as int]->Route_0),
            Err(error) => single_route(replies@) == Err::<RouteMessage, RedirectError>(error),
        },
{
    let mut found: Option<usize> = None;
    let mut i: usize = 0;
    while i < replies.len()
        invariant
            i <= replies.len(),
            match found {
                None => single_route(replies@.take(i as int)) == Err::<RouteMessage, RedirectError>(
                    RedirectError::RouteMissing,
                ),
                Some(at) => at < i && replies@[at as int] is Route && single_route(
                    replies@.take(i as int),
                ) == Ok::<RouteMessage, RedirectError>(replies@[at as int]->Route_0),
            },
        decreases replies.len() - i,
    {
        assert(replies@.take(i + 1).drop_last() =~= replies@.take(i as int));
        match &replies[i] {
            LookupReply::Route(_) => {
                if found.is_some() {
                    proof {
                        lemma_single_route_stops(replies@, i + 1);
                    }
                    return Err(RedirectError::RouteMultiple);
                }
                found = Some(i);
            },
            LookupReply::Error(code) => {
                proof {
                    lemma_single_route_stops(replies@, i + 1);
                }
                return Err(RedirectError::RouteQuery(*code));
            },
            LookupReply::Other => {
                proof {
                    lemma_single_route_stops(replies@, i + 1);
                }
                return Err(RedirectError::RouteUnexpected);
            },
        }
        i += 1;
    }
    assert(replies@.take(replies@.len() as int) =~= replies@);
    match found {
        Some(at) => Ok(at),
        None => Err(RedirectError::RouteMissing),
    }
}

/// The distinct addresses to look up, in ascending order.
pub fn lookup_targets(targets: &[u32]) -> (distinct: Vec<u32>)
    ensures
        is_set_of(distinct@, targets@),
{
    set_of(targets)
}

/// What the two lookups of a target come to. The FIB entry decides whether the
/// ordinary lookup counts at all; where device or next hop differ, it does not.
pub open spec fn agreed(
    fib: TargetRouteObservation,
    route: TargetRouteObservation,
) -> TargetRouteObservation {
    if fib.state != RouteObservationState::Resolved {
        fib
    } else if route.ifindex != fib.ifindex || route.next_hop != fib.next_hop {
        TargetRouteObservation { state: RouteObservationState::UnsupportedRoute, ..route }
    } else {
        route
    }
}

fn same_number(a: Option<u32>, b: Option<u32>) -> (same: bool)
    ensures
        same == (a == b),
{
    match (a, b) {
        (Some(a), Some(b)) => a == b,
        (None, None) => true,
        _ => false,
    }
}

/// What the FIB entry of a target calls for.
#[derive(Clone, Debug)]
pub enum FibStep {
    /// The entry settles the observation.
    Settled(TargetRouteObservation),
    /// The ordinary lookup decides.
    LookUp,
}

/// Observes one target from its FIB entry. Only an entry that resolves calls for the
/// ordinary lookup.
pub fn observe_fib(
    target: u32,
    fib: &RouteMessage,
    links: &[LinkMessage],
    neighbors: &[NeighborMessage],
) -> (step: FibStep)
    ensures
        ({
            let observed = observed_route(target, *fib, links@, neighbors@);
            step == if observed.state == RouteObservationState::Resolved {
                FibStep::LookUp
            } else {
                FibStep::Settled(observed)
            }
        }),
{
    let observed = observe_route(target, fib, links, neighbors);
    if observed.state == RouteObservationState::Resolved {
        FibStep::LookUp
    } else {
        FibStep::Settled(observed)
    }
}

/// Observes one target from its FIB entry and its route.
pub fn observe_target(
    target: u32,
    fib: &RouteMessage,
    route: &RouteMessage,
    links: &[LinkMessage],
    neighbors: &[NeighborMessage],
) -> (observation: TargetRouteObservation)
    ensures
        observation == agreed(
            observed_route(target, *fib, links@, neighbors@),
            observed_route(target, *route, links@, neighbors@),
        ),
{
    let first = observe_route(target, fib, links, neighbors);
    if first.state != RouteObservationState::Resolved {
        return first;
    }
    let mut second = observe_route(target, route, links, neighbors);
    if !same_number(second.ifindex, first.ifindex) || !same_number(
        second.next_hop,
        first.next_hop,
    ) {
        second.state = RouteObservationState::UnsupportedRoute;
    }
    second
}

/// The IPv4 address that an attribute of an interface address names.
pub open spec fn named_address(attribute: AddressAttribute) -> Option<u32> {
    match attribute {
        AddressAttribute::Local(RouteAddress::Inet(ip)) => Some(ip),
        AddressAttribute::Address(RouteAddress::Inet(ip)) => Some(ip),
        AddressAttribute::Broadcast(ip) => Some(ip),
        _ => None,
    }
}

/// Whether interface addresses name an IPv4 address.
pub open spec fn names_address(messages: Seq<AddressMessage>, ip: u32) -> bool {
    exists|m: int, a: int|
        0 <= m < messages.len() && 0 <= a < messages[m].attributes.len() && named_address(
            #[trigger] messages[m].attributes@[a],
        ) == Some(ip)
}

/// The IPv4 addresses that are local to this host: those of its interfaces, their peers
/// and their broadcast addresses, in ascending order and each once.
pub fn local_addresses(messages: &[AddressMessage]) -> (addresses: Vec<u32>)
    ensures
        ascending(addresses@),
        forall|ip: u32| #[trigger]
            addresses@.contains(ip) <==> names_address(messages@, ip),
{
    let mut found: Vec<u32> = Vec::new();
    let mut m: usize = 0;
    while m < messages.len()
        invariant
            m <= messages.len(),
            ascending(found@),
            forall|ip: u32| #[trigger]
                found@.contains(ip) <==> names_address(messages@.take(m as int), ip),
        decreases messages.len() - m,
    {
        let ghost earlier = found@;
        let attributes = &messages[m].attributes;
        let mut a: usize = 0;
        while a < attributes.len()
            invariant
                m < messages.len(),
                a <= attributes.len(),
                *attributes == messages@[m as int].attributes,
                ascending(found@),
                forall|ip: u32| #[trigger]
                    found@.contains(ip) <==> earlier.contains(ip) || exists|k: int|
                        0 <= k < a && named_address(#[trigger] attributes@[k]) == Some(ip),
            decreases attributes.len() - a,
        {
            let named: Option<u32> = match attributes[a] {
                AddressAttribute::Local(RouteAddress::Inet(ip)) => Some(ip),
                AddressAttribute::Address(RouteAddress::Inet(ip)) => Some(ip),
                AddressAttribute::Broadcast(ip) => Some(ip),
                _ => None,
            };
            assert(named == named_address(attributes@[a as int]));
            if let Some(ip) = named {
                set_insert(&mut found, ip);
            }
            a += 1;
        }
        proof {
            assert forall|ip: u32| #[trigger] found@.contains(ip) <==> names_address(
                messages@.take(m + 1),
                ip,
            ) by {
                lemma_names_one_more(messages@, m as int, ip);
            }
        }
        m += 1;
    }
    assert(messages@.take(messages@.len() as int) =~= messages@);
    found
}

proof fn lemma_names_one_more(messages: Seq<AddressMessage>, m: int, ip: u32)
    requires
        0 <= m < messages.len(),
    ensures
        names_address(messages.take(m + 1), ip) <==> names_address(messages.take(m), ip) || exists|
            k: int,
        |
            0 <= k < messages[m].attributes.len() && named_address(
                #[trigger] messages[m].attributes@[k],
            ) == Some(ip),
{
    let more = messages.take(m + 1);
    let less = messages.take(m);
    if names_address(less, ip) {
        let (i, a) = choose|i: int, a: int|
            0 <= i < less.len() && 0 <= a < less[i].attributes.len() && named_address(
                #[trigger] less[i].attributes@[a],
            ) == Some(ip);
        assert(more[i] == less[i]);
        assert(named_address(more[i].attributes@[a]) == Some(ip));
    }
    if exists|k: int|
        0 <= k < messages[m].attributes.len() && named_address(
            #[trigger] messages[m].attributes@[k],
        ) == Some(ip) {
        let k = choose|k: int|
            0 <= k < messages[m].attributes.len() && named_address(
                #[trigger] messages[m].attributes@[k],
            ) == Some(ip);
        assert(named_address(more[m].attributes@[k]) == Some(ip));
    }
    if names_address(more, ip) {
        let (i, a) = choose|i: int, a: int|
            0 <= i < more.len() && 0 <= a < more[i].attributes.len() && named_address(
                #[trigger] more[i].attributes@[a],
            ) == Some(ip);
        if i < m {
            assert(named_address(less[i].attributes@[a]) == Some(ip));
        } else {
            assert(named_address(messages[m].attributes@[a]) == Some(ip));
        }
    }
}

/// Whether redirecting may be tried at all: one plain ingress device, and routes
/// that only their destination selects.
pub fn check_ingress_and_route_context(links: &[LinkMessage], routes: &[RouteMessage]) -> (ok:
    Result<(), RedirectError>)
    ensures
        match ok {
            Err(RedirectError::IngressTopology) => !(links.len() == 1 && plain_link(links@[0])),
            Err(RedirectError::FibSelectors) => links.len() == 1 && plain_link(links@[0])
                && !all_destination_only(routes@),
            Err(_) => false,
            Ok(()) => links.len() == 1 && plain_link(links@[0]) && all_destination_only(routes@),
        },
{
    if links.len() != 1 || !plain_ingress(&links[0]) {
        return Err(RedirectError::IngressTopology);
    }
    if !destination_only_fib(routes) {
        return Err(RedirectError::FibSelectors);
    }
    Ok(())
}

/// Whether a device is a plain Ethernet device that is up.
pub open spec fn plain_link(link: LinkMessage) -> bool {
    link.layer == LinkLayer::Ether && link.up && forall|i: int|
        0 <= i < link.attributes.len() ==> !nonplain_attribute(#[trigger] link.attributes[i])
}

/// Whether only destinations select the routes.
pub open spec fn all_destination_only(routes: Seq<RouteMessage>) -> bool {
    forall|i: int| 0 <= i < routes.len() ==> destination_only(#[trigger] routes[i])
}

// ---------------------------------------------------------------------------
// Laws
// ---------------------------------------------------------------------------

/// A target counts as resolved only if both lookups resolve to one device and
/// one next hop.
pub proof fn law_resolved_needs_agreement(
    fib: TargetRouteObservation,
    route: TargetRouteObservation,
)
    requires
        agreed(fib, route).state == RouteObservationState::Resolved,
    ensures
        fib.state == RouteObservationState::Resolved,
        route.state == RouteObservationState::Resolved,
        fib.ifindex == route.ifindex,
        fib.next_hop == route.next_hop,
{
}

/// An answer counts if and only if it is exactly one route: none, a second one, an error or
/// anything else refuses it.
pub proof fn law_one_answer_is_one_route(replies: Seq<LookupReply>)
    ensures
        single_route(replies) is Ok <==> replies.len() == 1 && replies[0] is Route,
        replies.len() == 1 ==> (replies[0] matches LookupReply::Route(route) ==> single_route(
            replies,
        ) == Ok::<RouteMessage, RedirectError>(route)),
        replies.len() == 0 ==> single_route(replies) == Err::<RouteMessage, RedirectError>(
            RedirectError::RouteMissing,
        ),
        replies.len() > 0 && single_route(replies) is Err ==> single_route(replies) != Err::<
            RouteMessage,
            RedirectError,
        >(RedirectError::RouteMissing),
    decreases replies.len(),
{
    if replies.len() > 0 {
        law_one_answer_is_one_route(replies.drop_last());
        if replies.len() == 1 {
            assert(replies.drop_last() =~= Seq::empty());
            assert(replies.last() == replies[0]);
        }
    }
}

/// Where the two lookups of a target agree on the device and the next hop, what the second
/// one found is what counts; where the first did not resolve, what it found; where they do
/// not agree, the route is not one to follow.
pub proof fn law_lookups_have_to_agree(fib: TargetRouteObservation, route: TargetRouteObservation)
    ensures
        fib.state != RouteObservationState::Resolved ==> agreed(fib, route) == fib,
        fib.state == RouteObservationState::Resolved && route.ifindex == fib.ifindex
            && route.next_hop == fib.next_hop ==> agreed(fib, route) == route,
        fib.state == RouteObservationState::Resolved && (route.ifindex != fib.ifindex
            || route.next_hop != fib.next_hop) ==> agreed(fib, route).state
            == RouteObservationState::UnsupportedRoute,
{
}

/// The addresses of interfaces, of the far ends of links and of broadcasts are all local.
pub proof fn law_local_addresses_are_all_named(
    messages: Seq<AddressMessage>,
    m: int,
    a: int,
    ip: u32,
)
    requires
        0 <= m < messages.len(),
        0 <= a < messages[m].attributes@.len(),
        messages[m].attributes@[a] == AddressAttribute::Local(RouteAddress::Inet(ip))
            || messages[m].attributes@[a] == AddressAttribute::Address(RouteAddress::Inet(ip))
            || messages[m].attributes@[a] == AddressAttribute::Broadcast(ip),
    ensures
        names_address(messages, ip),
{
    assert(named_address(messages[m].attributes@[a]) == Some(ip));
}

/// A plain device is an Ethernet device that is up, no part of another and not virtual.
pub proof fn law_plain_devices_are_plain(link: LinkMessage, i: int)
    ensures
        !link.up || link.layer != LinkLayer::Ether ==> !plain_link(link),
        plain_link(link) && 0 <= i < link.attributes@.len() ==> !(link.attributes@[i] is LinkInfo)
            && (link.attributes@[i] matches LinkAttribute::Controller(index) ==> index == 0),
        link.up && link.layer == LinkLayer::Ether && (forall|j: int|
            0 <= j < link.attributes@.len() ==> !(#[trigger] link.attributes@[j] is LinkInfo) && !(
            link.attributes@[j] is Controller)) ==> plain_link(link),
{
    if plain_link(link) && 0 <= i < link.attributes@.len() {
        assert(!nonplain_attribute(link.attributes[i]));
    }
}

} // verus!
