//! Which devices may carry replies. Forward targets give no authority here.
use crate::order::{ascending, is_set_of, set_insert, set_of};
use crate::redirect::error::RedirectError;
use crate::redirect::admission::{check_network_policy, network_refusal, NetworkPolicy};
use crate::redirect::message::{
    AddressAttribute, AddressMessage, InfoKind, LinkAttribute, LinkInfo, LinkLayer, LinkMessage, NeighborMessage, NeighborState,
    RouteAddress, RouteAttribute, RouteMessage,
};
use crate::redirect::model::ReturnContext;
use crate::redirect::netlink::{all_destination_only, plain_link};
use crate::redirect::resolve::{
    confirmed_neighbor, destination_only_fib, plain_ingress, unicast, unicast_mac, MIN_MTU,
};
use crate::text::same_text;
use vstd::prelude::*;

verus! {

// ---------------------------------------------------------------------------
// The overlay device
// ---------------------------------------------------------------------------

/// The kinds that device information names, in order.
pub open spec fn info_kinds(infos: Seq<LinkInfo>) -> Seq<InfoKind>
    decreases infos.len(),
{
    if infos.len() == 0 {
        Seq::empty()
    } else {
        match infos.last() {
            LinkInfo::Kind(kind) => info_kinds(infos.drop_last()).push(kind),
            LinkInfo::Other => info_kinds(infos.drop_last()),
        }
    }
}

/// The kinds that a link's attributes name, in order.
pub open spec fn link_kinds(attributes: Seq<LinkAttribute>) -> Seq<InfoKind>
    decreases attributes.len(),
{
    if attributes.len() == 0 {
        Seq::empty()
    } else {
        match attributes.last() {
            LinkAttribute::LinkInfo(infos) => link_kinds(attributes.drop_last()) + info_kinds(
                infos@,
            ),
            _ => link_kinds(attributes.drop_last()),
        }
    }
}

/// Whether an attribute makes a device the member of another.
pub open spec fn enslaving(attribute: LinkAttribute) -> bool {
    attribute matches LinkAttribute::Controller(index) && index != 0
}

/// Whether a device is the overlay: a VXLAN that is up, of no other kind, and
/// not the member of another device.
pub open spec fn is_overlay(link: LinkMessage) -> bool {
    &&& link.layer == LinkLayer::Ether
    &&& link.up
    &&& link_kinds(link.attributes@) == seq![InfoKind::Vxlan]
    &&& forall|i: int| 0 <= i < link.attributes.len() ==> !enslaving(#[trigger] link.attributes[i])
}

fn push_kinds(kinds: &mut Vec<InfoKind>, infos: &[LinkInfo])
    ensures
        final(kinds)@ == old(kinds)@ + info_kinds(infos@),
{
    let ghost before = kinds@;
    let mut i: usize = 0;
    assert(before + info_kinds(infos@.take(0)) =~= before);
    while i < infos.len()
        invariant
            i <= infos.len(),
            kinds@ == before + info_kinds(infos@.take(i as int)),
        decreases infos.len() - i,
    {
        assert(infos@.take(i + 1).drop_last() =~= infos@.take(i as int));
        if let LinkInfo::Kind(kind) = infos[i] {
            kinds.push(kind);
        }
        i += 1;
        assert(kinds@ =~= before + info_kinds(infos@.take(i as int)));
    }
    assert(infos@.take(infos@.len() as int) =~= infos@);
}

/// Whether a device is the overlay.
pub fn overlay(link: &LinkMessage) -> (b: bool)
    ensures
        b == is_overlay(*link),
{
    let mut kinds: Vec<InfoKind> = Vec::new();
    let mut enslaved: bool = false;
    let mut i: usize = 0;
    while i < link.attributes.len()
        invariant
            i <= link.attributes.len(),
            kinds@ == link_kinds(link.attributes@.take(i as int)),
            enslaved == exists|j: int| 0 <= j < i && enslaving(#[trigger] link.attributes[j]),
        decreases link.attributes.len() - i,
    {
        assert(link.attributes@.take(i + 1).drop_last() =~= link.attributes@.take(i as int));
        match &link.attributes[i] {
            LinkAttribute::LinkInfo(infos) => {
                push_kinds(&mut kinds, infos.as_slice());
            },
            LinkAttribute::Controller(index) => {
                if *index != 0 {
                    assert(enslaving(link.attributes[i as int]));
                    enslaved = true;
                }
            },
            _ => {},
        }
        i += 1;
    }
    assert(link.attributes@.take(link.attributes@.len() as int) =~= link.attributes@);
    let vxlan = kinds.len() == 1 && kinds[0] == InfoKind::Vxlan;
    assert(vxlan == (kinds@ =~= seq![InfoKind::Vxlan]));
    link.layer == LinkLayer::Ether && link.up && vxlan && !enslaved
}

// ---------------------------------------------------------------------------
// The devices that carry replies
// ---------------------------------------------------------------------------

/// Whether an attribute gives a usable MTU.
pub open spec fn usable_mtu(attribute: LinkAttribute) -> bool {
    attribute matches LinkAttribute::Mtu(mtu) && mtu >= MIN_MTU
}

/// Whether an attribute gives a unicast hardware address.
pub open spec fn usable_address(attribute: LinkAttribute) -> bool {
    attribute matches LinkAttribute::Address(mac) && unicast(mac@) is Some
}

/// Whether replies may leave through a device: plain Ethernet with an MTU and a
/// hardware address, on which every IPv4 neighbor is confirmed.
pub open spec fn is_output(link: LinkMessage, neighbors: Seq<NeighborMessage>) -> bool {
    &&& plain_link(link)
    &&& exists|i: int| 0 <= i < link.attributes.len() && usable_mtu(#[trigger] link.attributes[i])
    &&& exists|i: int|
        0 <= i < link.attributes.len() && usable_address(#[trigger] link.attributes[i])
    &&& forall|i: int|
        0 <= i < neighbors.len() && (#[trigger] neighbors[i]).ifindex == link.index
            ==> confirmed_neighbor(neighbors[i].state)
}

/// Whether replies may leave through a device.
pub fn output(link: &LinkMessage, neighbors: &[NeighborMessage]) -> (b: bool)
    ensures
        b == is_output(*link, neighbors@),
{
    if !plain_ingress(link) {
        return false;
    }
    let mut mtu_ok: bool = false;
    let mut mac_ok: bool = false;
    let mut i: usize = 0;
    while i < link.attributes.len()
        invariant
            i <= link.attributes.len(),
            mtu_ok == exists|j: int| 0 <= j < i && usable_mtu(#[trigger] link.attributes[j]),
            mac_ok == exists|j: int| 0 <= j < i && usable_address(#[trigger] link.attributes[j]),
        decreases link.attributes.len() - i,
    {
        match &link.attributes[i] {
            LinkAttribute::Mtu(mtu) => {
                if *mtu >= MIN_MTU {
                    assert(usable_mtu(link.attributes[i as int]));
                    mtu_ok = true;
                }
            },
            LinkAttribute::Address(mac) => {
                if unicast_mac(mac.as_slice()).is_some() {
                    assert(usable_address(link.attributes[i as int]));
                    mac_ok = true;
                }
            },
            _ => {},
        }
        i += 1;
    }
    if !mtu_ok || !mac_ok {
        return false;
    }
    let mut k: usize = 0;
    while k < neighbors.len()
        invariant
            k <= neighbors.len(),
            forall|j: int|
                0 <= j < k && (#[trigger] neighbors@[j]).ifindex == link.index
                    ==> confirmed_neighbor(neighbors@[j].state),
        decreases neighbors.len() - k,
    {
        if neighbors[k].ifindex == link.index && neighbors[k].state != NeighborState::Reachable
            && neighbors[k].state != NeighborState::Permanent {
            assert(!confirmed_neighbor(neighbors@[k as int].state));
            return false;
        }
        k += 1;
    }
    true
}

/// Whether an attribute of a route leaves the lookup to the destination.
pub open spec fn plain_attribute(attribute: RouteAttribute) -> bool {
    !(attribute is MultiPath) && !(attribute is Other)
}

/// Whether a full lookup may be trusted for replies.
pub open spec fn supported_fib(routes: Seq<RouteMessage>) -> bool {
    all_destination_only(routes) && forall|i: int, j: int|
        0 <= i < routes.len() && 0 <= j < routes[i].attributes.len() ==> plain_attribute(
            #[trigger] routes[i].attributes[j],
        )
}

/// Whether a full lookup may be trusted for replies.
pub fn fib_supported(routes: &[RouteMessage]) -> (b: bool)
    ensures
        b == supported_fib(routes@),
{
    if !destination_only_fib(routes) {
        return false;
    }
    let mut i: usize = 0;
    while i < routes.len()
        invariant
            i <= routes.len(),
            forall|p: int, q: int|
                0 <= p < i && 0 <= q < routes@[p].attributes.len() ==> plain_attribute(
                    #[trigger] routes@[p].attributes[q],
                ),
        decreases routes.len() - i,
    {
        let mut j: usize = 0;
        while j < routes[i].attributes.len()
            invariant
                i < routes.len(),
                j <= routes@[i as int].attributes.len(),
                forall|q: int|
                    0 <= q < j ==> plain_attribute(#[trigger] routes@[i as int].attributes[q]),
            decreases routes@[i as int].attributes.len() - j,
        {
            let plain = match &routes[i].attributes[j] {
                RouteAttribute::MultiPath => false,
                RouteAttribute::Other => false,
                _ => true,
            };
            if !plain {
                assert(!plain_attribute(routes@[i as int].attributes[j as int]));
                return false;
            }
            j += 1;
        }
        i += 1;
    }
    true
}

// ---------------------------------------------------------------------------
// The context of return leases
// ---------------------------------------------------------------------------

/// Whether an address may send replies: not of this network, loopback,
/// multicast, reserved or link-local.
pub open spec fn reply_source(ip: u32) -> bool {
    let first = ip / 0x100_0000;
    first != 0 && first != 127 && first < 224 && ip / 0x1_0000 != 0xa9fe
}

/// Whether an address may send replies.
pub fn is_reply_source(ip: u32) -> (b: bool)
    ensures
        b == reply_source(ip),
{
    let first: u32 = ip / 0x100_0000;
    first != 0 && first != 127 && first < 224 && ip / 0x1_0000 != 0xa9fe
}

/// Whether a link has a name.
pub open spec fn has_name(link: LinkMessage, device: Seq<char>) -> bool {
    exists|i: int|
        0 <= i < link.attributes.len() && (#[trigger] link.attributes[i] matches LinkAttribute::IfName(
            name,
        ) && name@ == device)
}

fn is_named(link: &LinkMessage, device: &str) -> (b: bool)
    ensures
        b == has_name(*link, device@),
{
    let mut i: usize = 0;
    while i < link.attributes.len()
        invariant
            i <= link.attributes.len(),
            forall|j: int|
                0 <= j < i ==> !(#[trigger] link.attributes[j] matches LinkAttribute::IfName(name)
                    && name@ == device@),
        decreases link.attributes.len() - i,
    {
        if let LinkAttribute::IfName(name) = &link.attributes[i] {
            if same_text(name.as_str(), device) {
                assert(link.attributes[i as int] matches LinkAttribute::IfName(name) && name@
                    == device@);
                return true;
            }
        }
        i += 1;
    }
    false
}

/// The first link of a name.
pub open spec fn named_link(links: Seq<LinkMessage>, device: Seq<char>) -> Option<LinkMessage>
    decreases links.len(),
{
    if links.len() == 0 {
        None
    } else if has_name(links[0], device) {
        Some(links[0])
    } else {
        named_link(links.skip(1), device)
    }
}

/// The indexes of the devices that may carry replies, in order.
pub open spec fn output_indexes(links: Seq<LinkMessage>, neighbors: Seq<NeighborMessage>) -> Seq<
    u32,
>
    decreases links.len(),
{
    if links.len() == 0 {
        Seq::empty()
    } else {
        let before = output_indexes(links.drop_last(), neighbors);
        if is_output(links.last(), neighbors) {
            before.push(links.last().index)
        } else {
            before
        }
    }
}

/// What stands against planning return leases, first of all what stands against the
/// network policy of the overlay device.
pub open spec fn return_refusal(
    device: Seq<char>,
    policy: NetworkPolicy,
    accept_local: u32,
    links: Seq<LinkMessage>,
    routes: Seq<RouteMessage>,
) -> Option<RedirectError> {
    if network_refusal(policy) is Some {
        network_refusal(policy)
    } else if accept_local != 1 {
        Some(RedirectError::AcceptLocal)
    } else if named_link(links, device) is None {
        Some(RedirectError::ReturnOverlayMissing)
    } else if !is_overlay(named_link(links, device)->0) {
        Some(RedirectError::ReturnIngressTopology)
    } else if !supported_fib(routes) {
        Some(RedirectError::ReturnFib)
    } else {
        None
    }
}

fn find_named(links: &[LinkMessage], device: &str) -> (at: Option<usize>)
    ensures
        match at {
            Some(i) => i < links.len() && named_link(links@, device@) == Some(links@[i as int]),
            None => named_link(links@, device@) is None,
        },
{
    let mut i: usize = 0;
    assert(links@.skip(0) =~= links@);
    while i < links.len()
        invariant
            i <= links.len(),
            named_link(links@, device@) == named_link(links@.skip(i as int), device@),
        decreases links.len() - i,
    {
        assert(links@.skip(i as int).skip(1) =~= links@.skip(i + 1));
        if is_named(&links[i], device) {
            return Some(i);
        }
        i += 1;
    }
    None
}

/// Whether an interface has an IPv4 address of its own; the addresses of peers and
/// broadcast addresses do not count.
pub open spec fn owns_address(messages: Seq<AddressMessage>, ip: u32) -> bool {
    exists|m: int, a: int|
        0 <= m < messages.len() && 0 <= a < messages[m].attributes.len()
            && #[trigger] messages[m].attributes@[a] == AddressAttribute::Local(
            RouteAddress::Inet(ip),
        )
}

/// The addresses that may send replies: those that an interface has of its own and that
/// can be reached from elsewhere, in ascending order and each once.
pub fn reply_sources(messages: &[AddressMessage]) -> (sources: Vec<u32>)
    ensures
        ascending(sources@),
        forall|ip: u32| #[trigger]
            sources@.contains(ip) <==> (owns_address(messages@, ip) && reply_source(ip)),
{
    let mut sources: Vec<u32> = Vec::new();
    let mut m: usize = 0;
    while m < messages.len()
        invariant
            m <= messages.len(),
            ascending(sources@),
            forall|ip: u32| #[trigger]
                sources@.contains(ip) <==> (owns_address(messages@.take(m as int), ip)
                    && reply_source(ip)),
        decreases messages.len() - m,
    {
        let ghost earlier = sources@;
        let attributes = &messages[m].attributes;
        let mut a: usize = 0;
        while a < attributes.len()
            invariant
                m < messages.len(),
                a <= attributes.len(),
                *attributes == messages@[m as int].attributes,
                ascending(sources@),
                forall|ip: u32| #[trigger]
                    sources@.contains(ip) <==> earlier.contains(ip) || (reply_source(ip) && exists|
                        k: int,
                    |
                        0 <= k < a && #[trigger] attributes@[k] == AddressAttribute::Local(
                            RouteAddress::Inet(ip),
                        )),
            decreases attributes.len() - a,
        {
            if let AddressAttribute::Local(RouteAddress::Inet(ip)) = attributes[a] {
                if is_reply_source(ip) {
                    set_insert(&mut sources, ip);
                }
            }
            a += 1;
        }
        proof {
            assert forall|ip: u32| #[trigger] sources@.contains(ip) <==> (owns_address(
                messages@.take(m + 1),
                ip,
            ) && reply_source(ip)) by {
                lemma_owns_one_more(messages@, m as int, ip);
            }
        }
        m += 1;
    }
    assert(messages@.take(messages@.len() as int) =~= messages@);
    sources
}

proof fn lemma_owns_one_more(messages: Seq<AddressMessage>, m: int, ip: u32)
    requires
        0 <= m < messages.len(),
    ensures
        owns_address(messages.take(m + 1), ip) <==> owns_address(messages.take(m), ip) || exists|
            k: int,
        |
            0 <= k < messages[m].attributes.len() && #[trigger] messages[m].attributes@[k]
                == AddressAttribute::Local(RouteAddress::Inet(ip)),
{
    let wanted = AddressAttribute::Local(RouteAddress::Inet(ip));
    let more = messages.take(m + 1);
    let less = messages.take(m);
    if owns_address(less, ip) {
        let (i, a) = choose|i: int, a: int|
            0 <= i < less.len() && 0 <= a < less[i].attributes.len()
                && #[trigger] less[i].attributes@[a] == wanted;
        assert(more[i].attributes@[a] == wanted);
    }
    if exists|k: int|
        0 <= k < messages[m].attributes.len() && #[trigger] messages[m].attributes@[k] == wanted {
        let k = choose|k: int|
            0 <= k < messages[m].attributes.len() && #[trigger] messages[m].attributes@[k]
                == wanted;
        assert(more[m].attributes@[k] == wanted);
    }
    if owns_address(more, ip) {
        let (i, a) = choose|i: int, a: int|
            0 <= i < more.len() && 0 <= a < more[i].attributes.len()
                && #[trigger] more[i].attributes@[a] == wanted;
        if i < m {
            assert(less[i].attributes@[a] == wanted);
        } else {
            assert(messages[m].attributes@[a] == wanted);
        }
    }
}

/// Builds the context of the return leases from what was observed. `policy` is the
/// network policy of the overlay device.
pub fn observe(
    device: &str,
    policy: &NetworkPolicy,
    accept_local: u32,
    links: &[LinkMessage],
    routes: &[RouteMessage],
    neighbors: &[NeighborMessage],
    addresses: &[AddressMessage],
) -> (context: Result<ReturnContext, RedirectError>)
    ensures
        match context {
            Err(error) => return_refusal(device@, *policy, accept_local, links@, routes@) == Some(
                error,
            ),
            Ok(context) => {
                &&& return_refusal(device@, *policy, accept_local, links@, routes@) is None
                &&& context.ingress == named_link(links@, device@)->0.index
                &&& is_set_of(context.outputs@, output_indexes(links@, neighbors@))
                &&& ascending(context.sources@)
                &&& forall|ip: u32| #[trigger]
                    context.sources@.contains(ip) <==> (owns_address(addresses@, ip)
                        && reply_source(ip))
            },
        },
{
    if let Err(error) = check_network_policy(policy) {
        return Err(error);
    }
    if accept_local != 1 {
        return Err(RedirectError::AcceptLocal);
    }
    let at = match find_named(links, device) {
        Some(at) => at,
        None => {
            return Err(RedirectError::ReturnOverlayMissing);
        },
    };
    if !overlay(&links[at]) {
        return Err(RedirectError::ReturnIngressTopology);
    }
    if !fib_supported(routes) {
        return Err(RedirectError::ReturnFib);
    }
    let mut indexes: Vec<u32> = Vec::new();
    let mut i: usize = 0;
    while i < links.len()
        invariant
            i <= links.len(),
            indexes@ == output_indexes(links@.take(i as int), neighbors@),
        decreases links.len() - i,
    {
        assert(links@.take(i + 1).drop_last() =~= links@.take(i as int));
        if output(&links[i], neighbors) {
            indexes.push(links[i].index);
        }
        i += 1;
    }
    assert(links@.take(links@.len() as int) =~= links@);
    let outputs = set_of(indexes.as_slice());
    Ok(ReturnContext { ingress: links[at].index, outputs, sources: reply_sources(addresses) })
}

// ---------------------------------------------------------------------------
// Laws
// ---------------------------------------------------------------------------

/// Replies are sent from every address but those of 0.0.0.0/8, 127.0.0.0/8, 169.254.0.0/16
/// and everything from 224.0.0.0 on.
pub proof fn law_reply_sources_are_routable(ip: u32)
    ensures
        reply_source(ip) <==> !(ip < 0x0100_0000) && !(0x7f00_0000 <= ip <= 0x7fff_ffff) && !(
        0xa9fe_0000 <= ip <= 0xa9fe_ffff) && ip < 0xe000_0000,
{
}

/// Return leases are planned if and only if the host's policy is admitted, the overlay takes
/// packets of its own addresses, the device is there and is the overlay, and every route is
/// selected by its destination alone, over one path and with nothing unknown.
pub proof fn law_replies_need_all_of_this(
    device: Seq<char>,
    policy: NetworkPolicy,
    accept_local: u32,
    links: Seq<LinkMessage>,
    routes: Seq<RouteMessage>,
    r: int,
    a: int,
)
    ensures
        ({
            let refusal = return_refusal(device, policy, accept_local, links, routes);
            &&& accept_local != 1 ==> refusal is Some
            &&& network_refusal(policy) is Some ==> refusal == network_refusal(policy)
            &&& named_link(links, device) is None ==> refusal is Some
            &&& named_link(links, device) matches Some(link) ==> (!link.up || link.layer
                != LinkLayer::Ether) ==> refusal is Some
            &&& 0 <= r < routes.len() && (routes[r].tos != 0 || routes[r].source_prefix_len != 0)
                ==> refusal is Some
            &&& 0 <= r < routes.len() && 0 <= a < routes[r].attributes@.len() && (
            routes[r].attributes@[a] is MultiPath || routes[r].attributes@[a] is Other)
                ==> refusal is Some
            &&& network_refusal(policy) is None && accept_local == 1 && (named_link(
                links,
                device,
            ) matches Some(link) && is_overlay(link)) && routes.len() == 0 ==> refusal is None
        }),
{
    if 0 <= r < routes.len() && 0 <= a < routes[r].attributes@.len() && (routes[r].attributes@[a]
        is MultiPath || routes[r].attributes@[a] is Other) {
        assert(!plain_attribute(routes[r].attributes[a]));
    }
}

proof fn lemma_kinds_of_one(attributes: Seq<LinkAttribute>, a: int, infos: Vec<LinkInfo>)
    requires
        0 <= a < attributes.len(),
        attributes[a] == LinkAttribute::LinkInfo(infos),
        forall|m: int|
            0 <= m < attributes.len() && m != a ==> !(#[trigger] attributes[m] is LinkInfo),
    ensures
        link_kinds(attributes) == info_kinds(infos@),
    decreases attributes.len(),
{
    let front = attributes.drop_last();
    assert(attributes[attributes.len() - 1] == attributes.last());
    if a < front.len() {
        assert(front[a] == attributes[a]);
        assert forall|m: int| 0 <= m < front.len() && m != a implies !(#[trigger] front[m] is LinkInfo) by {
            assert(front[m] == attributes[m]);
        }
        lemma_kinds_of_one(front, a, infos);
    } else {
        assert forall|m: int| 0 <= m < front.len() implies !(#[trigger] front[m] is LinkInfo) by {
            assert(front[m] == attributes[m]);
        }
        lemma_no_kinds(front);
        assert(link_kinds(front) + info_kinds(infos@) =~= info_kinds(infos@));
    }
}

proof fn lemma_no_kinds(attributes: Seq<LinkAttribute>)
    requires
        forall|m: int| 0 <= m < attributes.len() ==> !(#[trigger] attributes[m] is LinkInfo),
    ensures
        link_kinds(attributes) == Seq::<InfoKind>::empty(),
    decreases attributes.len(),
{
    if attributes.len() > 0 {
        let front = attributes.drop_last();
        assert(attributes[attributes.len() - 1] == attributes.last());
        assert forall|m: int| 0 <= m < front.len() implies !(#[trigger] front[m] is LinkInfo) by {
            assert(front[m] == attributes[m]);
        }
        lemma_no_kinds(front);
    }
}

/// An Ethernet device that is called a VXLAN and nothing else is the overlay while it is up
/// and not a part of another device; a device of another kind is not, nor is one of no kind.
pub proof fn law_the_overlay_is_a_vxlan(
    link: LinkMessage,
    a: int,
    infos: Vec<LinkInfo>,
    kind: InfoKind,
)
    requires
        0 <= a < link.attributes@.len(),
        link.attributes@[a] == LinkAttribute::LinkInfo(infos),
        infos@ == seq![LinkInfo::Kind(kind)],
        forall|m: int|
            0 <= m < link.attributes@.len() && m != a ==> !(#[trigger] link.attributes@[m]
                is LinkInfo),
    ensures
        is_overlay(link) <==> link.layer == LinkLayer::Ether && link.up && kind == InfoKind::Vxlan
            && forall|m: int|
            0 <= m < link.attributes@.len() ==> (
            #[trigger] link.attributes@[m] matches LinkAttribute::Controller(index) ==> index == 0),
{
    lemma_kinds_of_one(link.attributes@, a, infos);
    assert(infos@.drop_last() =~= Seq::empty());
    assert(infos@.last() == LinkInfo::Kind(kind));
    reveal_with_fuel(info_kinds, 2);
    assert(info_kinds(infos@) =~= seq![kind]);
    assert(seq![kind][0] == kind);
    assert(seq![InfoKind::Vxlan][0] == InfoKind::Vxlan);
    if kind == InfoKind::Vxlan {
        assert(link_kinds(link.attributes@) == seq![InfoKind::Vxlan]);
    }
    assert(forall|m: int|
        0 <= m < link.attributes@.len() ==> (!enslaving(#[trigger] link.attributes@[m]) <==> (
        link.attributes@[m] matches LinkAttribute::Controller(index) ==> index == 0)));
}

/// Replies leave only by Ethernet devices that are up and plain and that state a size of 68
/// or more, and only while every neighbor there is reachable or permanent.
pub proof fn law_replies_leave_by_sure_devices(
    link: LinkMessage,
    neighbors: Seq<NeighborMessage>,
    n: int,
)
    requires
        is_output(link, neighbors),
    ensures
        link.up,
        link.layer == LinkLayer::Ether,
        exists|i: int|
            0 <= i < link.attributes.len() && (#[trigger] link.attributes[i] matches LinkAttribute::Mtu(
                mtu,
            ) && mtu >= 68),
        0 <= n < neighbors.len() && neighbors[n].ifindex == link.index ==> neighbors[n].state
            == NeighborState::Reachable || neighbors[n].state == NeighborState::Permanent,
{
    let i = choose|i: int|
        0 <= i < link.attributes.len() && usable_mtu(#[trigger] link.attributes[i]);
    assert(link.attributes[i] matches LinkAttribute::Mtu(mtu) && mtu >= 68);
}

proof fn lemma_output_indexes(links: Seq<LinkMessage>, neighbors: Seq<NeighborMessage>, index: u32)
    ensures
        output_indexes(links, neighbors).contains(index) <==> exists|i: int|
            0 <= i < links.len() && (#[trigger] links[i]).index == index && is_output(
                links[i],
                neighbors,
            ),
    decreases links.len(),
{
    if links.len() > 0 {
        let front = links.drop_last();
        let before = output_indexes(front, neighbors);
        let all = output_indexes(links, neighbors);
        lemma_output_indexes(front, neighbors, index);
        assert(links[links.len() - 1] == links.last());
        if before.contains(index) {
            let i = choose|i: int|
                0 <= i < front.len() && (#[trigger] front[i]).index == index && is_output(
                    front[i],
                    neighbors,
                );
            assert(links[i] == front[i]);
            let k = choose|k: int| 0 <= k < before.len() && before[k] == index;
            assert(all[k] == index);
        }
        if is_output(links.last(), neighbors) {
            assert(all[all.len() - 1] == links.last().index);
        }
        if exists|i: int|
            0 <= i < links.len() && (#[trigger] links[i]).index == index && is_output(
                links[i],
                neighbors,
            ) {
            let i = choose|i: int|
                0 <= i < links.len() && (#[trigger] links[i]).index == index && is_output(
                    links[i],
                    neighbors,
                );
            if i < front.len() {
                assert(front[i] == links[i]);
            }
        }
        if all.contains(index) && !before.contains(index) {
            let k = choose|k: int| 0 <= k < all.len() && all[k] == index;
            if k < before.len() {
                assert(before[k] == index);
            }
        }
    }
}

/// The devices for replies are exactly those that replies may leave by.
pub proof fn law_all_sure_devices_are_listed(
    links: Seq<LinkMessage>,
    neighbors: Seq<NeighborMessage>,
    i: int,
)
    ensures
        0 <= i < links.len() && is_output(links[i], neighbors) ==> output_indexes(
            links,
            neighbors,
        ).contains(links[i].index),
        forall|index: u32| #[trigger]
            output_indexes(links, neighbors).contains(index) ==> exists|j: int|
                0 <= j < links.len() && (#[trigger] links[j]).index == index && is_output(
                    links[j],
                    neighbors,
                ),
{
    if 0 <= i < links.len() {
        lemma_output_indexes(links, neighbors, links[i].index);
    }
    assert forall|index: u32| #[trigger]
        output_indexes(links, neighbors).contains(index) implies exists|j: int|
        0 <= j < links.len() && (#[trigger] links[j]).index == index && is_output(
            links[j],
            neighbors,
        ) by {
        lemma_output_indexes(links, neighbors, index);
    }
}

/// The host owns an address that one of its interfaces names as its local one, and no other.
pub proof fn law_local_addresses_are_owned(messages: Seq<AddressMessage>, ip: u32, m: int, a: int)
    ensures
        0 <= m < messages.len() && 0 <= a < messages[m].attributes@.len()
            && messages[m].attributes@[a] == AddressAttribute::Local(RouteAddress::Inet(ip))
            ==> owns_address(messages, ip),
        messages.len() == 0 ==> !owns_address(messages, ip),
        (forall|i: int, j: int|
            0 <= i < messages.len() && 0 <= j < messages[i].attributes@.len() ==> !(
            #[trigger] messages[i].attributes@[j] is Local)) ==> !owns_address(messages, ip),
{
}

/// A plain device with a packet size of at least 68 bytes and a usable address of its own,
/// all of whose neighbors are confirmed, takes replies.
pub proof fn law_sure_devices_take_replies(
    link: LinkMessage,
    neighbors: Seq<NeighborMessage>,
    i: int,
    j: int,
    mtu: u32,
    mac: Vec<u8>,
)
    requires
        plain_link(link),
        0 <= i < link.attributes@.len(),
        link.attributes@[i] == LinkAttribute::Mtu(mtu),
        mtu >= 68,
        0 <= j < link.attributes@.len(),
        link.attributes@[j] == LinkAttribute::Address(mac),
        unicast(mac@) is Some,
        forall|n: int|
            0 <= n < neighbors.len() && (#[trigger] neighbors[n]).ifindex == link.index
                ==> neighbors[n].state == NeighborState::Reachable || neighbors[n].state
                == NeighborState::Permanent,
    ensures
        is_output(link, neighbors),
{
    assert(usable_mtu(link.attributes[i]));
    assert(usable_address(link.attributes[j]));
}

} // verus!
