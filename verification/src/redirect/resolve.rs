//! Interpretation of kernel route, link and neighbor messages.
use crate::redirect::message::{
    AddressFamily, InfoKind, LinkAttribute, LinkInfo, LinkLayer, LinkMessage, Mac,
    NeighborAttribute, NeighborMessage, NeighborState, RouteAddress, RouteAttribute, RouteKind,
    RouteMessage, RouteMetric, ROUTE_CLONED, ROUTE_ONLINK,
};
use crate::redirect::model::{RouteObservationState, TargetRouteObservation};
use vstd::prelude::*;

verus! {

/// The smallest MTU that IPv4 allows.
pub const MIN_MTU: u32 = 68;

// ---------------------------------------------------------------------------
// Hardware addresses and plain predicates
// ---------------------------------------------------------------------------

/// The unicast hardware address that `bytes` denote.
pub open spec fn unicast(bytes: Seq<u8>) -> Option<Mac> {
    if bytes.len() == 6 && bytes[0] % 2 == 0 && (exists|i: int|
        0 <= i < 6 && #[trigger] bytes[i] != 0) {
        Some((bytes[0], bytes[1], bytes[2], bytes[3], bytes[4], bytes[5]))
    } else {
        None
    }
}

/// Reads a hardware address: six bytes, not all zero, without the group bit.
pub fn unicast_mac(bytes: &[u8]) -> (mac: Option<Mac>)
    ensures
        mac == unicast(bytes@),
{
    if bytes.len() != 6 || bytes[0] % 2 != 0 {
        return None;
    }
    let (a, b, c, d, e, f) = (bytes[0], bytes[1], bytes[2], bytes[3], bytes[4], bytes[5]);
    if a == 0 && b == 0 && c == 0 && d == 0 && e == 0 && f == 0 {
        None
    } else {
        Some((a, b, c, d, e, f))
    }
}

/// Whether an attribute marks a device as enslaved or virtual.
pub open spec fn nonplain_attribute(attribute: LinkAttribute) -> bool {
    match attribute {
        LinkAttribute::Controller(index) => index != 0,
        LinkAttribute::LinkInfo(_) => true,
        _ => false,
    }
}

/// Whether the device is a plain Ethernet device that is up.
pub fn plain_ingress(link: &LinkMessage) -> (plain: bool)
    ensures
        plain == (link.layer == LinkLayer::Ether && link.up && forall|i: int|
            0 <= i < link.attributes.len() ==> !nonplain_attribute(#[trigger] link.attributes[i])),
{
    if link.layer != LinkLayer::Ether || !link.up {
        return false;
    }
    let mut i: usize = 0;
    while i < link.attributes.len()
        invariant
            i <= link.attributes.len(),
            forall|j: int| 0 <= j < i ==> !nonplain_attribute(#[trigger] link.attributes[j]),
        decreases link.attributes.len() - i,
    {
        let nonplain = match &link.attributes[i] {
            LinkAttribute::Controller(index) => *index != 0,
            LinkAttribute::LinkInfo(_) => true,
            _ => false,
        };
        if nonplain {
            assert(nonplain_attribute(link.attributes[i as int]));
            return false;
        }
        i += 1;
    }
    true
}

/// Whether a route is selected by its destination alone.
pub open spec fn destination_only(route: RouteMessage) -> bool {
    route.tos == 0 && route.source_prefix_len == 0
}

/// Whether every route is selected by its destination alone.
pub fn destination_only_fib(routes: &[RouteMessage]) -> (plain: bool)
    ensures
        plain == forall|i: int|
            0 <= i < routes.len() ==> destination_only(#[trigger] routes[i]),
{
    let mut i: usize = 0;
    while i < routes.len()
        invariant
            i <= routes.len(),
            forall|j: int| 0 <= j < i ==> destination_only(#[trigger] routes[j]),
        decreases routes.len() - i,
    {
        if routes[i].tos != 0 || routes[i].source_prefix_len != 0 {
            assert(!destination_only(routes[i as int]));
            return false;
        }
        i += 1;
    }
    true
}

// ---------------------------------------------------------------------------
// Reading the attributes of a route
// ---------------------------------------------------------------------------

/// What the attributes of a route say. `supported` is lost at the first
/// attribute that cannot be followed, and nothing behind it is read.
pub struct RouteScan {
    pub supported: bool,
    pub ifindex: Option<u32>,
    pub next_hop: Option<u32>,
    pub mtu: Option<u32>,
}

/// The last MTU among metrics.
pub open spec fn metrics_mtu(metrics: Seq<RouteMetric>) -> Option<u32>
    decreases metrics.len(),
{
    if metrics.len() == 0 {
        None
    } else {
        match metrics.last() {
            RouteMetric::Mtu(mtu) => Some(mtu),
            RouteMetric::Other => metrics_mtu(metrics.drop_last()),
        }
    }
}

/// What one more attribute adds.
pub open spec fn scan_attribute(scan: RouteScan, attribute: RouteAttribute) -> RouteScan {
    match attribute {
        RouteAttribute::Oif(index) => RouteScan { ifindex: Some(index), ..scan },
        RouteAttribute::Gateway(RouteAddress::Inet(ip)) => RouteScan { next_hop: Some(ip), ..scan },
        RouteAttribute::Metrics(metrics) => RouteScan {
            mtu: match metrics_mtu(metrics@) {
                Some(mtu) => Some(mtu),
                None => scan.mtu,
            },
            ..scan
        },
        RouteAttribute::Destination(RouteAddress::Inet(_)) => scan,
        RouteAttribute::PrefSource(RouteAddress::Inet(_)) => scan,
        RouteAttribute::CacheInfo => scan,
        RouteAttribute::Table(_) => scan,
        RouteAttribute::Uid(_) => scan,
        RouteAttribute::Priority(_) => scan,
        _ => RouteScan { supported: false, ..scan },
    }
}

/// What the attributes say of the way to `target`, read in order.
pub open spec fn scan_route(target: u32, attributes: Seq<RouteAttribute>) -> RouteScan
    decreases attributes.len(),
{
    if attributes.len() == 0 {
        RouteScan { supported: true, ifindex: None, next_hop: Some(target), mtu: None }
    } else {
        let before = scan_route(target, attributes.drop_last());
        if before.supported {
            scan_attribute(before, attributes.last())
        } else {
            before
        }
    }
}

proof fn lemma_scan_route_stops(target: u32, attributes: Seq<RouteAttribute>, n: int)
    requires
        0 <= n <= attributes.len(),
        !scan_route(target, attributes.take(n)).supported,
    ensures
        scan_route(target, attributes) == scan_route(target, attributes.take(n)),
    decreases attributes.len() - n,
{
    if n < attributes.len() {
        assert(attributes.take(n + 1).drop_last() =~= attributes.take(n));
        lemma_scan_route_stops(target, attributes, n + 1);
    } else {
        assert(attributes.take(n) =~= attributes);
    }
}

fn last_mtu(metrics: &[RouteMetric]) -> (mtu: Option<u32>)
    ensures
        mtu == metrics_mtu(metrics@),
{
    let mut mtu: Option<u32> = None;
    let mut i: usize = 0;
    while i < metrics.len()
        invariant
            i <= metrics.len(),
            mtu == metrics_mtu(metrics@.take(i as int)),
        decreases metrics.len() - i,
    {
        assert(metrics@.take(i + 1).drop_last() =~= metrics@.take(i as int));
        if let RouteMetric::Mtu(value) = metrics[i] {
            mtu = Some(value);
        }
        i += 1;
    }
    assert(metrics@.take(metrics@.len() as int) =~= metrics@);
    mtu
}

fn read_route(target: u32, attributes: &[RouteAttribute]) -> (scan: RouteScan)
    ensures
        scan == scan_route(target, attributes@),
{
    let mut scan = RouteScan { supported: true, ifindex: None, next_hop: Some(target), mtu: None };
    let mut i: usize = 0;
    while i < attributes.len()
        invariant
            i <= attributes.len(),
            scan.supported,
            scan == scan_route(target, attributes@.take(i as int)),
        decreases attributes.len() - i,
    {
        assert(attributes@.take(i + 1).drop_last() =~= attributes@.take(i as int));
        match &attributes[i] {
            RouteAttribute::Oif(index) => {
                scan.ifindex = Some(*index);
            },
            RouteAttribute::Gateway(RouteAddress::Inet(ip)) => {
                scan.next_hop = Some(*ip);
            },
            RouteAttribute::Metrics(metrics) => {
                if let Some(mtu) = last_mtu(metrics.as_slice()) {
                    scan.mtu = Some(mtu);
                }
            },
            RouteAttribute::Destination(RouteAddress::Inet(_)) => {},
            RouteAttribute::PrefSource(RouteAddress::Inet(_)) => {},
            RouteAttribute::CacheInfo => {},
            RouteAttribute::Table(_) => {},
            RouteAttribute::Uid(_) => {},
            RouteAttribute::Priority(_) => {},
            _ => {
                scan.supported = false;
                proof {
                    assert(scan == scan_route(target, attributes@.take(i + 1)));
                    lemma_scan_route_stops(target, attributes@, i + 1);
                }
                return scan;
            },
        }
        i += 1;
    }
    assert(attributes@.take(attributes@.len() as int) =~= attributes@);
    scan
}

// ---------------------------------------------------------------------------
// Reading the attributes of a link
// ---------------------------------------------------------------------------

/// What the attributes of a link say. `supported` is lost at the first attribute
/// of an enslaved or unknown virtual device, and nothing behind it is read.
pub struct LinkScan {
    pub supported: bool,
    pub device: Option<String>,
    pub mtu: Option<u32>,
    pub source_mac: Option<Mac>,
}

/// Whether device information names a virtual device other than a VXLAN.
pub open spec fn foreign_kind(info: LinkInfo) -> bool {
    match info {
        LinkInfo::Kind(kind) => kind != InfoKind::Vxlan,
        LinkInfo::Other => false,
    }
}

/// Whether any of the device information names a foreign virtual device.
pub open spec fn foreign_device(infos: Seq<LinkInfo>) -> bool {
    exists|i: int| 0 <= i < infos.len() && foreign_kind(#[trigger] infos[i])
}

/// What one more attribute adds.
pub open spec fn scan_link_attribute(scan: LinkScan, attribute: LinkAttribute) -> LinkScan {
    match attribute {
        LinkAttribute::Controller(index) => LinkScan { supported: index == 0, ..scan },
        LinkAttribute::IfName(name) => LinkScan { device: Some(name), ..scan },
        LinkAttribute::Mtu(mtu) => LinkScan { mtu: Some(mtu), ..scan },
        LinkAttribute::Address(mac) => LinkScan { source_mac: unicast(mac@), ..scan },
        LinkAttribute::LinkInfo(infos) => LinkScan { supported: !foreign_device(infos@), ..scan },
        LinkAttribute::Other => scan,
    }
}

/// What the attributes of a link say, read in order.
pub open spec fn scan_link(attributes: Seq<LinkAttribute>) -> LinkScan
    decreases attributes.len(),
{
    if attributes.len() == 0 {
        LinkScan { supported: true, device: None, mtu: None, source_mac: None }
    } else {
        let before = scan_link(attributes.drop_last());
        if before.supported {
            scan_link_attribute(before, attributes.last())
        } else {
            before
        }
    }
}

proof fn lemma_scan_link_stops(attributes: Seq<LinkAttribute>, n: int)
    requires
        0 <= n <= attributes.len(),
        !scan_link(attributes.take(n)).supported,
    ensures
        scan_link(attributes) == scan_link(attributes.take(n)),
    decreases attributes.len() - n,
{
    if n < attributes.len() {
        assert(attributes.take(n + 1).drop_last() =~= attributes.take(n));
        lemma_scan_link_stops(attributes, n + 1);
    } else {
        assert(attributes.take(n) =~= attributes);
    }
}

fn is_foreign_device(infos: &[LinkInfo]) -> (foreign: bool)
    ensures
        foreign == foreign_device(infos@),
{
    let mut i: usize = 0;
    while i < infos.len()
        invariant
            i <= infos.len(),
            forall|j: int| 0 <= j < i ==> !foreign_kind(#[trigger] infos[j]),
        decreases infos.len() - i,
    {
        if let LinkInfo::Kind(kind) = infos[i] {
            if kind != InfoKind::Vxlan {
                assert(foreign_kind(infos[i as int]));
                return true;
            }
        }
        i += 1;
    }
    false
}

fn read_link(attributes: &[LinkAttribute]) -> (scan: LinkScan)
    ensures
        scan == scan_link(attributes@),
{
    let mut scan = LinkScan { supported: true, device: None, mtu: None, source_mac: None };
    let mut i: usize = 0;
    while i < attributes.len()
        invariant
            i <= attributes.len(),
            scan.supported,
            scan == scan_link(attributes@.take(i as int)),
        decreases attributes.len() - i,
    {
        assert(attributes@.take(i + 1).drop_last() =~= attributes@.take(i as int));
        match &attributes[i] {
            LinkAttribute::Controller(index) => {
                scan.supported = *index == 0;
            },
            LinkAttribute::IfName(name) => {
                scan.device = Some(name.clone());
            },
            LinkAttribute::Mtu(mtu) => {
                scan.mtu = Some(*mtu);
            },
            LinkAttribute::Address(mac) => {
                scan.source_mac = unicast_mac(mac.as_slice());
            },
            LinkAttribute::LinkInfo(infos) => {
                scan.supported = !is_foreign_device(infos.as_slice());
            },
            LinkAttribute::Other => {},
        }
        i += 1;
        if !scan.supported {
            proof {
                lemma_scan_link_stops(attributes@, i as int);
            }
            return scan;
        }
    }
    assert(attributes@.take(attributes@.len() as int) =~= attributes@);
    scan
}

// ---------------------------------------------------------------------------
// Finding the device and the neighbor
// ---------------------------------------------------------------------------

/// The first link with a given index; index zero names no device.
pub open spec fn first_link(links: Seq<LinkMessage>, ifindex: Option<u32>) -> Option<LinkMessage>
    decreases links.len(),
{
    if links.len() == 0 {
        None
    } else if Some(links[0].index) == ifindex && links[0].index != 0 {
        Some(links[0])
    } else {
        first_link(links.skip(1), ifindex)
    }
}

fn find_link(links: &[LinkMessage], ifindex: Option<u32>) -> (at: Option<usize>)
    ensures
        match at {
            Some(i) => i < links.len() && first_link(links@, ifindex) == Some(links@[i as int]),
            None => first_link(links@, ifindex) is None,
        },
{
    let mut i: usize = 0;
    assert(links@.skip(0) =~= links@);
    while i < links.len()
        invariant
            i <= links.len(),
            first_link(links@, ifindex) == first_link(links@.skip(i as int), ifindex),
        decreases links.len() - i,
    {
        assert(links@.skip(i as int).skip(1) =~= links@.skip(i + 1));
        if let Some(index) = ifindex {
            if links[i].index == index && index != 0 {
                return Some(i);
            }
        }
        i += 1;
    }
    None
}

/// Whether a neighbor entry names an address.
pub open spec fn names_hop(attributes: Seq<NeighborAttribute>, hop: u32) -> bool {
    exists|i: int|
        0 <= i < attributes.len() && #[trigger] attributes[i] == NeighborAttribute::Destination(
            RouteAddress::Inet(hop),
        )
}

/// The first IPv4 neighbor of a device with a given address.
pub open spec fn first_neighbor(
    neighbors: Seq<NeighborMessage>,
    ifindex: u32,
    hop: u32,
) -> Option<NeighborMessage>
    decreases neighbors.len(),
{
    if neighbors.len() == 0 {
        None
    } else if neighbors[0].family == AddressFamily::Inet && neighbors[0].ifindex == ifindex
        && names_hop(neighbors[0].attributes@, hop) {
        Some(neighbors[0])
    } else {
        first_neighbor(neighbors.skip(1), ifindex, hop)
    }
}

fn has_hop(attributes: &[NeighborAttribute], hop: u32) -> (b: bool)
    ensures
        b == names_hop(attributes@, hop),
{
    let mut i: usize = 0;
    while i < attributes.len()
        invariant
            i <= attributes.len(),
            forall|j: int|
                0 <= j < i ==> #[trigger] attributes[j] != NeighborAttribute::Destination(
                    RouteAddress::Inet(hop),
                ),
        decreases attributes.len() - i,
    {
        if let NeighborAttribute::Destination(RouteAddress::Inet(ip)) = &attributes[i] {
            if *ip == hop {
                assert(attributes[i as int] == NeighborAttribute::Destination(
                    RouteAddress::Inet(hop),
                ));
                return true;
            }
        }
        i += 1;
    }
    false
}

fn find_neighbor(neighbors: &[NeighborMessage], ifindex: u32, hop: u32) -> (at: Option<usize>)
    ensures
        match at {
            Some(i) => i < neighbors.len() && first_neighbor(neighbors@, ifindex, hop) == Some(
                neighbors@[i as int],
            ),
            None => first_neighbor(neighbors@, ifindex, hop) is None,
        },
{
    let mut i: usize = 0;
    assert(neighbors@.skip(0) =~= neighbors@);
    while i < neighbors.len()
        invariant
            i <= neighbors.len(),
            first_neighbor(neighbors@, ifindex, hop) == first_neighbor(
                neighbors@.skip(i as int),
                ifindex,
                hop,
            ),
        decreases neighbors.len() - i,
    {
        assert(neighbors@.skip(i as int).skip(1) =~= neighbors@.skip(i + 1));
        if neighbors[i].family == AddressFamily::Inet && neighbors[i].ifindex == ifindex && has_hop(
            neighbors[i].attributes.as_slice(),
            hop,
        ) {
            return Some(i);
        }
        i += 1;
    }
    None
}

/// The first usable hardware address of a neighbor entry.
pub open spec fn neighbor_mac(attributes: Seq<NeighborAttribute>) -> Option<Mac>
    decreases attributes.len(),
{
    if attributes.len() == 0 {
        None
    } else {
        match attributes[0] {
            NeighborAttribute::LinkLocalAddress(mac) if unicast(mac@) is Some => unicast(mac@),
            _ => neighbor_mac(attributes.skip(1)),
        }
    }
}

fn find_mac(attributes: &[NeighborAttribute]) -> (mac: Option<Mac>)
    ensures
        mac == neighbor_mac(attributes@),
{
    let mut i: usize = 0;
    assert(attributes@.skip(0) =~= attributes@);
    while i < attributes.len()
        invariant
            i <= attributes.len(),
            neighbor_mac(attributes@) == neighbor_mac(attributes@.skip(i as int)),
        decreases attributes.len() - i,
    {
        assert(attributes@.skip(i as int).skip(1) =~= attributes@.skip(i + 1));
        if let NeighborAttribute::LinkLocalAddress(bytes) = &attributes[i] {
            let mac = unicast_mac(bytes.as_slice());
            if mac.is_some() {
                return mac;
            }
        }
        i += 1;
    }
    None
}

// ---------------------------------------------------------------------------
// The observation
// ---------------------------------------------------------------------------

/// Whether frames may be sent to a neighbor in this state.
pub open spec fn usable_neighbor(state: NeighborState) -> bool {
    ||| state == NeighborState::Reachable
    ||| state == NeighborState::Stale
    ||| state == NeighborState::Delay
    ||| state == NeighborState::Probe
    ||| state == NeighborState::Permanent
}

/// Whether the kernel has confirmed a neighbor in this state.
pub open spec fn confirmed_neighbor(state: NeighborState) -> bool {
    state == NeighborState::Reachable || state == NeighborState::Permanent
}

/// The smaller of a device's MTU and a route's, where both are known.
pub open spec fn path_mtu(device: Option<u32>, route: Option<u32>) -> Option<u32> {
    match (device, route) {
        (Some(d), Some(r)) => Some(if d <= r { d } else { r }),
        _ => device,
    }
}

/// An observation of which nothing is known but its state.
pub open spec fn bare_observation(
    target: u32,
    state: RouteObservationState,
) -> TargetRouteObservation {
    TargetRouteObservation {
        target,
        state,
        ifindex: None,
        device: None,
        mtu: None,
        next_hop: None,
        source_mac: None,
        destination_mac: None,
        neighbor_confirmed: false,
    }
}

/// The last stage: what the neighbor table says of the next hop.
pub open spec fn observed_neighbor(
    so_far: TargetRouteObservation,
    ifindex: u32,
    hop: u32,
    neighbors: Seq<NeighborMessage>,
) -> TargetRouteObservation {
    match first_neighbor(neighbors, ifindex, hop) {
        None => TargetRouteObservation { state: RouteObservationState::MissingNeighbor, ..so_far },
        Some(neighbor) => if !usable_neighbor(neighbor.state) {
            TargetRouteObservation { state: RouteObservationState::UnusableNeighbor, ..so_far }
        } else {
            let mac = neighbor_mac(neighbor.attributes@);
            TargetRouteObservation {
                state: if mac is Some {
                    RouteObservationState::Resolved
                } else {
                    RouteObservationState::InvalidDestinationMac
                },
                destination_mac: mac,
                neighbor_confirmed: confirmed_neighbor(neighbor.state),
                ..so_far
            }
        },
    }
}

/// The middle stage: what the device says.
pub open spec fn observed_link(
    so_far: TargetRouteObservation,
    link: LinkMessage,
    route_mtu: Option<u32>,
    hop: u32,
    neighbors: Seq<NeighborMessage>,
) -> TargetRouteObservation {
    let scan = scan_link(link.attributes@);
    let read = TargetRouteObservation {
        device: scan.device,
        mtu: scan.mtu,
        source_mac: scan.source_mac,
        ..so_far
    };
    let mtu = path_mtu(scan.mtu, route_mtu);
    let sized = TargetRouteObservation { mtu, ..read };
    if !link.up {
        TargetRouteObservation { state: RouteObservationState::DeviceDown, ..so_far }
    } else if link.layer != LinkLayer::Ether {
        TargetRouteObservation { state: RouteObservationState::UnsupportedDevice, ..so_far }
    } else if !scan.supported {
        TargetRouteObservation { state: RouteObservationState::UnsupportedDevice, ..read }
    } else if !(mtu is Some && mtu->0 >= MIN_MTU) {
        TargetRouteObservation { state: RouteObservationState::InvalidMtu, ..sized }
    } else if scan.source_mac is None {
        TargetRouteObservation { state: RouteObservationState::InvalidSourceMac, ..sized }
    } else {
        observed_neighbor(sized, link.index, hop, neighbors)
    }
}

/// The path to `target` that a route, the links and the neighbors describe.
pub open spec fn observed_route(
    target: u32,
    route: RouteMessage,
    links: Seq<LinkMessage>,
    neighbors: Seq<NeighborMessage>,
) -> TargetRouteObservation {
    let scan = scan_route(target, route.attributes@);
    let read = TargetRouteObservation {
        ifindex: scan.ifindex,
        next_hop: scan.next_hop,
        ..bare_observation(target, RouteObservationState::NonUnicast)
    };
    if route.family != AddressFamily::Inet || route.kind != RouteKind::Unicast {
        bare_observation(target, RouteObservationState::NonUnicast)
    } else if !destination_only(route) || route.flags & !(ROUTE_CLONED | ROUTE_ONLINK) != 0 {
        bare_observation(target, RouteObservationState::UnsupportedRoute)
    } else if !scan.supported {
        TargetRouteObservation { state: RouteObservationState::UnsupportedRoute, ..read }
    } else {
        match first_link(links, scan.ifindex) {
            None => TargetRouteObservation { state: RouteObservationState::MissingDevice, ..read },
            Some(link) => observed_link(read, link, scan.mtu, scan.next_hop->0, neighbors),
        }
    }
}

/// Follows a route to its device and its next hop's hardware address.
pub fn observe_route(
    target: u32,
    route: &RouteMessage,
    links: &[LinkMessage],
    neighbors: &[NeighborMessage],
) -> (observation: TargetRouteObservation)
    ensures
        observation == observed_route(target, *route, links@, neighbors@),
{
    let mut observation = TargetRouteObservation {
        target,
        state: RouteObservationState::NonUnicast,
        ifindex: None,
        device: None,
        mtu: None,
        next_hop: None,
        source_mac: None,
        destination_mac: None,
        neighbor_confirmed: false,
    };
    if route.family != AddressFamily::Inet || route.kind != RouteKind::Unicast {
        return observation;
    }
    if route.source_prefix_len != 0 || route.tos != 0 || route.flags & !(ROUTE_CLONED
        | ROUTE_ONLINK) != 0 {
        observation.state = RouteObservationState::UnsupportedRoute;
        return observation;
    }
    let scan = read_route(target, route.attributes.as_slice());
    proof {
        lemma_next_hop(target, route.attributes@);
    }
    observation.ifindex = scan.ifindex;
    observation.next_hop = scan.next_hop;
    if !scan.supported {
        observation.state = RouteObservationState::UnsupportedRoute;
        return observation;
    }
    let at = match find_link(links, scan.ifindex) {
        Some(at) => at,
        None => {
            observation.state = RouteObservationState::MissingDevice;
            return observation;
        },
    };
    let link = &links[at];
    if !link.up {
        observation.state = RouteObservationState::DeviceDown;
        return observation;
    }
    if link.layer != LinkLayer::Ether {
        observation.state = RouteObservationState::UnsupportedDevice;
        return observation;
    }
    let device = read_link(link.attributes.as_slice());
    observation.device = device.device;
    observation.mtu = device.mtu;
    observation.source_mac = device.source_mac;
    if !device.supported {
        observation.state = RouteObservationState::UnsupportedDevice;
        return observation;
    }
    if let (Some(device_mtu), Some(route_mtu)) = (observation.mtu, scan.mtu) {
        observation.mtu = Some(if device_mtu <= route_mtu { device_mtu } else { route_mtu });
    }
    let mtu_ok = match observation.mtu {
        Some(mtu) => mtu >= MIN_MTU,
        None => false,
    };
    if !mtu_ok {
        observation.state = RouteObservationState::InvalidMtu;
        return observation;
    }
    if observation.source_mac.is_none() {
        observation.state = RouteObservationState::InvalidSourceMac;
        return observation;
    }
    let hop = match scan.next_hop {
        Some(hop) => hop,
        None => target,
    };
    let near = match find_neighbor(neighbors, link.index, hop) {
        Some(near) => near,
        None => {
            observation.state = RouteObservationState::MissingNeighbor;
            return observation;
        },
    };
    let neighbor = &neighbors[near];
    let usable = match neighbor.state {
        NeighborState::Reachable => true,
        NeighborState::Stale => true,
        NeighborState::Delay => true,
        NeighborState::Probe => true,
        NeighborState::Permanent => true,
        _ => false,
    };
    if !usable {
        observation.state = RouteObservationState::UnusableNeighbor;
        return observation;
    }
    observation.destination_mac = find_mac(neighbor.attributes.as_slice());
    observation.neighbor_confirmed = neighbor.state == NeighborState::Reachable || neighbor.state
        == NeighborState::Permanent;
    observation.state = if observation.destination_mac.is_some() {
        RouteObservationState::Resolved
    } else {
        RouteObservationState::InvalidDestinationMac
    };
    observation
}

proof fn lemma_next_hop(target: u32, attributes: Seq<RouteAttribute>)
    ensures
        scan_route(target, attributes).next_hop is Some,
    decreases attributes.len(),
{
    if attributes.len() > 0 {
        lemma_next_hop(target, attributes.drop_last());
    }
}

// ---------------------------------------------------------------------------
// Laws
// ---------------------------------------------------------------------------

/// A resolved path is complete: it names a device with an MTU that IPv4 allows,
/// a next hop, and unicast hardware addresses at both ends.
pub proof fn law_resolved_is_complete(
    target: u32,
    route: RouteMessage,
    links: Seq<LinkMessage>,
    neighbors: Seq<NeighborMessage>,
)
    requires
        observed_route(target, route, links, neighbors).state == RouteObservationState::Resolved,
    ensures
        ({
            let seen = observed_route(target, route, links, neighbors);
            &&& seen.target == target
            &&& seen.ifindex is Some && seen.ifindex->0 != 0
            &&& seen.mtu is Some && seen.mtu->0 >= MIN_MTU
            &&& seen.next_hop is Some
            &&& seen.source_mac is Some
            &&& seen.destination_mac is Some
        }),
{
    lemma_next_hop(target, route.attributes@);
    lemma_first_link_index(links, scan_route(target, route.attributes@).ifindex);
}

/// A neighbor counts as confirmed only on a path that was followed to its end.
pub proof fn law_confirmed_needs_neighbor(
    target: u32,
    route: RouteMessage,
    links: Seq<LinkMessage>,
    neighbors: Seq<NeighborMessage>,
)
    requires
        observed_route(target, route, links, neighbors).neighbor_confirmed,
    ensures
        ({
            let state = observed_route(target, route, links, neighbors).state;
            state == RouteObservationState::Resolved || state
                == RouteObservationState::InvalidDestinationMac
        }),
{
}

proof fn lemma_first_link_index(links: Seq<LinkMessage>, ifindex: Option<u32>)
    ensures
        first_link(links, ifindex) matches Some(link) ==> ifindex == Some(link.index)
            && link.index != 0,
    decreases links.len(),
{
    if links.len() > 0 {
        lemma_first_link_index(links.skip(1), ifindex);
    }
}

/// A hardware address is six bytes in their order, the first without the group bit, and not
/// all of them zero; anything else is none.
pub proof fn law_link_addresses_keep_their_bytes(bytes: Seq<u8>)
    ensures
        match unicast(bytes) {
            Some(mac) => {
                &&& bytes == seq![mac.0, mac.1, mac.2, mac.3, mac.4, mac.5]
                &&& mac.0 % 2 == 0
                &&& !(mac.0 == 0 && mac.1 == 0 && mac.2 == 0 && mac.3 == 0 && mac.4 == 0 && mac.5
                    == 0)
            },
            None => bytes.len() != 6 || bytes[0] % 2 == 1 || bytes == seq![
                0u8,
                0u8,
                0u8,
                0u8,
                0u8,
                0u8,
            ],
        },
{
    if let Some(mac) = unicast(bytes) {
        assert(bytes =~= seq![mac.0, mac.1, mac.2, mac.3, mac.4, mac.5]);
        let i = choose|i: int| 0 <= i < 6 && #[trigger] bytes[i] != 0;
        assert(i == 0 || i == 1 || i == 2 || i == 3 || i == 4 || i == 5);
    } else if bytes.len() == 6 && bytes[0] % 2 == 0 {
        assert(forall|i: int| 0 <= i < 6 ==> #[trigger] bytes[i] == 0);
        assert(bytes =~= seq![0u8, 0u8, 0u8, 0u8, 0u8, 0u8]);
    }
}

/// Whether the way that an attribute of a route describes can be followed: it names no
/// address but an IPv4 one, no several paths and nothing unknown.
pub open spec fn can_be_followed(attribute: RouteAttribute) -> bool {
    match attribute {
        RouteAttribute::MultiPath | RouteAttribute::Other => false,
        RouteAttribute::Gateway(RouteAddress::Other) => false,
        RouteAttribute::Destination(RouteAddress::Other) => false,
        RouteAttribute::PrefSource(RouteAddress::Other) => false,
        _ => true,
    }
}

/// A route is followed if and only if every attribute of it can be. The device is the one
/// that it names last, if any; the next hop is the gateway that it names last, or else the
/// target itself.
pub proof fn law_route_attributes_are_read(target: u32, attributes: Seq<RouteAttribute>, j: int)
    ensures
        ({
            let scan = scan_route(target, attributes);
            &&& scan.supported <==> forall|m: int|
                0 <= m < attributes.len() ==> can_be_followed(#[trigger] attributes[m])
            &&& scan.supported && (forall|m: int|
                0 <= m < attributes.len() ==> !(#[trigger] attributes[m] is Oif)) ==> scan.ifindex
                is None
            &&& scan.supported && (forall|m: int|
                0 <= m < attributes.len() ==> !(#[trigger] attributes[m] is Gateway))
                ==> scan.next_hop == Some(target)
            &&& scan.supported && (forall|m: int|
                0 <= m < attributes.len() ==> !(#[trigger] attributes[m] is Metrics)) ==> scan.mtu
                is None
            &&& scan.supported && 0 <= j < attributes.len() && (forall|m: int|
                j < m < attributes.len() ==> !(#[trigger] attributes[m] is Oif)) ==> (
            attributes[j] matches RouteAttribute::Oif(index) ==> scan.ifindex == Some(index))
            &&& scan.supported && 0 <= j < attributes.len() && (forall|m: int|
                j < m < attributes.len() ==> !(#[trigger] attributes[m] is Gateway)) ==> (
            attributes[j] matches RouteAttribute::Gateway(RouteAddress::Inet(ip)) ==> scan.next_hop
                == Some(ip))
            &&& scan.supported && 0 <= j < attributes.len() && (forall|m: int|
                j < m < attributes.len() ==> !(#[trigger] attributes[m] is Metrics)) ==> (
            attributes[j] matches RouteAttribute::Metrics(metrics) ==> (metrics@.len() > 0 ==> (
            metrics@.last() matches RouteMetric::Mtu(mtu) ==> scan.mtu == Some(mtu))))
        }),
    decreases attributes.len(),
{
    if attributes.len() > 0 {
        let front = attributes.drop_last();
        law_route_attributes_are_read(target, front, j);
        assert(forall|m: int| 0 <= m < front.len() ==> front[m] == #[trigger] attributes[m]);
        assert(attributes[attributes.len() - 1] == attributes.last());
    }
}

/// A device is used if and only if it is no part of another one and no virtual device but a
/// VXLAN. Its size is the one that it states last and its address the one that it states
/// last, if that is one.
pub proof fn law_link_attributes_are_read(attributes: Seq<LinkAttribute>, j: int)
    ensures
        ({
            let scan = scan_link(attributes);
            &&& scan.supported <==> forall|m: int|
                0 <= m < attributes.len() ==> match #[trigger] attributes[m] {
                    LinkAttribute::Controller(index) => index == 0,
                    LinkAttribute::LinkInfo(infos) => forall|i: int|
                        0 <= i < infos@.len() ==> (#[trigger] infos@[i] == LinkInfo::Other
                            || infos@[i] == LinkInfo::Kind(InfoKind::Vxlan)),
                    _ => true,
                }
            &&& scan.supported && 0 <= j < attributes.len() && (forall|m: int|
                j < m < attributes.len() ==> !(#[trigger] attributes[m] is Mtu)) ==> (
            attributes[j] matches LinkAttribute::Mtu(mtu) ==> scan.mtu == Some(mtu))
            &&& scan.supported && 0 <= j < attributes.len() && (forall|m: int|
                j < m < attributes.len() ==> !(#[trigger] attributes[m] is IfName)) ==> (
            attributes[j] matches LinkAttribute::IfName(name) ==> scan.device == Some(name))
            &&& scan.supported && 0 <= j < attributes.len() && (forall|m: int|
                j < m < attributes.len() ==> !(#[trigger] attributes[m] is Address)) ==> (
            attributes[j] matches LinkAttribute::Address(mac) ==> scan.source_mac == unicast(mac@))
            &&& scan.supported && (forall|m: int|
                0 <= m < attributes.len() ==> !(#[trigger] attributes[m] is Address))
                ==> scan.source_mac is None
            &&& scan.supported && (forall|m: int|
                0 <= m < attributes.len() ==> !(#[trigger] attributes[m] is Mtu)) ==> scan.mtu
                is None
        }),
    decreases attributes.len(),
{
    if attributes.len() > 0 {
        let front = attributes.drop_last();
        law_link_attributes_are_read(front, j);
        assert(forall|m: int| 0 <= m < front.len() ==> front[m] == #[trigger] attributes[m]);
        let last = attributes[attributes.len() - 1];
        assert(last == attributes.last());
        if let LinkAttribute::LinkInfo(infos) = last {
            let plain = forall|i: int|
                0 <= i < infos@.len() ==> (#[trigger] infos@[i] == LinkInfo::Other || infos@[i]
                    == LinkInfo::Kind(InfoKind::Vxlan));
            if foreign_device(infos@) {
                let i = choose|i: int| 0 <= i < infos@.len() && foreign_kind(#[trigger] infos@[i]);
                assert(!plain);
            } else {
                assert forall|i: int| 0 <= i < infos@.len() implies (#[trigger] infos@[i]
                    == LinkInfo::Other || infos@[i] == LinkInfo::Kind(InfoKind::Vxlan)) by {
                    assert(!foreign_kind(infos@[i]));
                }
            }
        }
    }
}

proof fn lemma_first_link(links: Seq<LinkMessage>, l: int)
    requires
        0 <= l < links.len(),
        links[l].index != 0,
        forall|m: int| 0 <= m < l ==> (#[trigger] links[m]).index != links[l].index,
    ensures
        first_link(links, Some(links[l].index)) == Some(links[l]),
    decreases links.len(),
{
    if l > 0 {
        let rest = links.skip(1);
        assert(links[0].index != links[l].index);
        assert(rest[l - 1] == links[l]);
        assert forall|m: int| 0 <= m < l - 1 implies (#[trigger] rest[m]).index != rest[l
            - 1].index by {
            assert(rest[m] == links[m + 1]);
        }
        lemma_first_link(rest, l - 1);
    }
}

/// Where the first link of an index stands.
proof fn lemma_link_at(links: Seq<LinkMessage>, ifindex: Option<u32>) -> (l: int)
    requires
        first_link(links, ifindex) is Some,
    ensures
        0 <= l < links.len(),
        first_link(links, ifindex) == Some(links[l]),
        ifindex == Some(links[l].index),
        forall|m: int| 0 <= m < l ==> (#[trigger] links[m]).index != links[l].index,
    decreases links.len(),
{
    if Some(links[0].index) == ifindex && links[0].index != 0 {
        0
    } else {
        let rest = links.skip(1);
        let l = lemma_link_at(rest, ifindex) + 1;
        lemma_first_link_index(rest, ifindex);
        assert forall|m: int| 0 <= m < l implies (#[trigger] links[m]).index != links[l].index by {
            if m > 0 {
                assert(rest[m - 1] == links[m]);
            }
        }
        l
    }
}

/// Where the first neighbor of an address stands.
proof fn lemma_neighbor_at(neighbors: Seq<NeighborMessage>, ifindex: u32, hop: u32) -> (n: int)
    requires
        first_neighbor(neighbors, ifindex, hop) is Some,
    ensures
        0 <= n < neighbors.len(),
        first_neighbor(neighbors, ifindex, hop) == Some(neighbors[n]),
        neighbors[n].family == AddressFamily::Inet,
        neighbors[n].ifindex == ifindex,
        names_hop(neighbors[n].attributes@, hop),
    decreases neighbors.len(),
{
    if neighbors[0].family == AddressFamily::Inet && neighbors[0].ifindex == ifindex && names_hop(
        neighbors[0].attributes@,
        hop,
    ) {
        0
    } else {
        lemma_neighbor_at(neighbors.skip(1), ifindex, hop) + 1
    }
}

proof fn lemma_first_neighbor(
    neighbors: Seq<NeighborMessage>,
    ifindex: u32,
    hop: u32,
    n: int,
    a: int,
)
    requires
        0 <= n < neighbors.len(),
        neighbors[n].family == AddressFamily::Inet,
        neighbors[n].ifindex == ifindex,
        0 <= a < neighbors[n].attributes@.len(),
        neighbors[n].attributes@[a] == NeighborAttribute::Destination(RouteAddress::Inet(hop)),
        forall|m: int|
            0 <= m < n ==> (#[trigger] neighbors[m]).family != AddressFamily::Inet
                || neighbors[m].ifindex != ifindex || !neighbors[m].attributes@.contains(
                NeighborAttribute::Destination(RouteAddress::Inet(hop)),
            ),
    ensures
        first_neighbor(neighbors, ifindex, hop) == Some(neighbors[n]),
    decreases neighbors.len(),
{
    if n > 0 {
        let rest = neighbors.skip(1);
        if neighbors[0].family == AddressFamily::Inet && neighbors[0].ifindex == ifindex {
            assert(!neighbors[0].attributes@.contains(
                NeighborAttribute::Destination(RouteAddress::Inet(hop)),
            ));
            assert(!names_hop(neighbors[0].attributes@, hop));
        }
        assert(rest[n - 1] == neighbors[n]);
        assert forall|m: int| 0 <= m < n - 1 implies (#[trigger] rest[m]).family
            != AddressFamily::Inet || rest[m].ifindex != ifindex || !rest[m].attributes@.contains(
            NeighborAttribute::Destination(RouteAddress::Inet(hop)),
        ) by {
            assert(rest[m] == neighbors[m + 1]);
        }
        lemma_first_neighbor(rest, ifindex, hop, n - 1, a);
    } else {
        assert(names_hop(neighbors[0].attributes@, hop));
    }
}

/// A resolved path is the one that the kernel describes: a unicast IPv4 route that is
/// selected by its destination alone, out of an Ethernet device that is up, at the smaller
/// of the sizes of the device and the route and no less than 68, from the address of the
/// device, to the address of a usable neighbor there that has the next hop. The neighbor is
/// confirmed if and only if the kernel says that it is reachable or permanent. The device
/// and the neighbor stand at the places given back.
pub proof fn law_resolved_path_is_the_kernels(
    target: u32,
    route: RouteMessage,
    links: Seq<LinkMessage>,
    neighbors: Seq<NeighborMessage>,
) -> (at: (int, int))
    requires
        observed_route(target, route, links, neighbors).state == RouteObservationState::Resolved,
    ensures
        0 <= at.0 < links.len(),
        0 <= at.1 < neighbors.len(),
        ({
            let seen = observed_route(target, route, links, neighbors);
            let way = scan_route(target, route.attributes@);
            let link = links[at.0];
            let device = scan_link(link.attributes@);
            let neighbor = neighbors[at.1];
            &&& route.family == AddressFamily::Inet
            &&& route.kind == RouteKind::Unicast
            &&& route.tos == 0
            &&& route.source_prefix_len == 0
            &&& seen.target == target
            &&& way.supported
            &&& seen.ifindex == way.ifindex
            &&& seen.next_hop == way.next_hop
            &&& seen.ifindex == Some(link.index)
            &&& link.up
            &&& link.layer == LinkLayer::Ether
            &&& device.supported
            &&& seen.device == device.device
            &&& seen.source_mac == device.source_mac
            &&& seen.mtu matches Some(mtu) && mtu >= 68 && (device.mtu matches Some(own) && mtu
                <= own && (way.mtu matches Some(most) ==> mtu <= most) && (mtu == own || Some(mtu)
                == way.mtu))
            &&& neighbor.family == AddressFamily::Inet
            &&& neighbor.ifindex == link.index
            &&& seen.next_hop matches Some(hop) && neighbor.attributes@.contains(
                NeighborAttribute::Destination(RouteAddress::Inet(hop)),
            )
            &&& neighbor.state == NeighborState::Reachable || neighbor.state == NeighborState::Stale
                || neighbor.state == NeighborState::Delay || neighbor.state == NeighborState::Probe
                || neighbor.state == NeighborState::Permanent
            &&& seen.neighbor_confirmed <==> neighbor.state == NeighborState::Reachable
                || neighbor.state == NeighborState::Permanent
            &&& seen.destination_mac matches Some(mac) && neighbor_mac(neighbor.attributes@)
                == Some(mac)
        }),
        forall|m: int| 0 <= m < at.0 ==> (#[trigger] links[m]).index != links[at.0].index,
{
    let way = scan_route(target, route.attributes@);
    lemma_next_hop(target, route.attributes@);
    let l = lemma_link_at(links, way.ifindex);
    let hop = way.next_hop->0;
    let n = lemma_neighbor_at(neighbors, links[l].index, hop);
    let attributes = neighbors[n].attributes@;
    let a = choose|a: int|
        0 <= a < attributes.len() && #[trigger] attributes[a] == NeighborAttribute::Destination(
            RouteAddress::Inet(hop),
        );
    assert(attributes.contains(NeighborAttribute::Destination(RouteAddress::Inet(hop))));
    (l, n)
}

/// The address of a neighbor is the first one that it states that is one.
pub proof fn law_neighbor_address_is_the_first(
    attributes: Seq<NeighborAttribute>,
    a: int,
    bytes: Vec<u8>,
)
    requires
        0 <= a < attributes.len(),
        attributes[a] == NeighborAttribute::LinkLocalAddress(bytes),
        unicast(bytes@) is Some,
        forall|m: int|
            0 <= m < a ==> (#[trigger] attributes[m] matches NeighborAttribute::LinkLocalAddress(
                other,
            ) ==> unicast(other@) is None),
    ensures
        neighbor_mac(attributes) == unicast(bytes@),
    decreases attributes.len(),
{
    if a > 0 {
        let rest = attributes.skip(1);
        assert(attributes[0] matches NeighborAttribute::LinkLocalAddress(other) ==> unicast(
            other@,
        ) is None);
        assert(rest[a - 1] == attributes[a]);
        assert forall|m: int| 0 <= m < a - 1 implies (#[trigger] rest[m] matches
            NeighborAttribute::LinkLocalAddress(other) ==> unicast(other@) is None) by {
            assert(rest[m] == attributes[m + 1]);
        }
        law_neighbor_address_is_the_first(rest, a - 1, bytes);
    }
}

/// A path is resolved wherever the kernel describes one: with a device that is up and
/// usable, a size of 68 or more, an address of the device, and a usable neighbor that has
/// the next hop and an address. Otherwise the observation says what is wrong.
pub proof fn law_open_path_is_resolved(
    target: u32,
    route: RouteMessage,
    links: Seq<LinkMessage>,
    neighbors: Seq<NeighborMessage>,
    l: int,
    n: int,
    a: int,
    hop: u32,
    own: u32,
)
    requires
        route.family == AddressFamily::Inet,
        route.kind == RouteKind::Unicast,
        route.tos == 0,
        route.source_prefix_len == 0,
        route.flags == 0 || route.flags == 4 || route.flags == 512 || route.flags == 516,
        scan_route(target, route.attributes@).supported,
        scan_route(target, route.attributes@).next_hop == Some(hop),
        0 <= l < links.len(),
        links[l].index != 0,
        scan_route(target, route.attributes@).ifindex == Some(links[l].index),
        forall|m: int| 0 <= m < l ==> (#[trigger] links[m]).index != links[l].index,
        links[l].layer == LinkLayer::Ether,
        scan_link(links[l].attributes@).supported,
        scan_link(links[l].attributes@).mtu == Some(own),
        own >= 68,
        scan_route(target, route.attributes@).mtu matches Some(most) ==> most >= 68,
        scan_link(links[l].attributes@).source_mac is Some,
        0 <= n < neighbors.len(),
        neighbors[n].family == AddressFamily::Inet,
        neighbors[n].ifindex == links[l].index,
        0 <= a < neighbors[n].attributes@.len(),
        neighbors[n].attributes@[a] == NeighborAttribute::Destination(RouteAddress::Inet(hop)),
        forall|m: int|
            0 <= m < n ==> (#[trigger] neighbors[m]).family != AddressFamily::Inet
                || neighbors[m].ifindex != links[l].index || !neighbors[m].attributes@.contains(
                NeighborAttribute::Destination(RouteAddress::Inet(hop)),
            ),
    ensures
        ({
            let seen = observed_route(target, route, links, neighbors);
            let neighbor = neighbors[n];
            let usable = neighbor.state == NeighborState::Reachable || neighbor.state
                == NeighborState::Stale || neighbor.state == NeighborState::Delay || neighbor.state
                == NeighborState::Probe || neighbor.state == NeighborState::Permanent;
            let mac = neighbor_mac(neighbor.attributes@);
            &&& !links[l].up ==> seen.state == RouteObservationState::DeviceDown
            &&& links[l].up && !usable ==> seen.state == RouteObservationState::UnusableNeighbor
            &&& links[l].up && usable && mac is None ==> seen.state
                == RouteObservationState::InvalidDestinationMac
            &&& links[l].up && usable && mac is Some ==> seen.state
                == RouteObservationState::Resolved && seen.destination_mac == mac
        }),
{
    lemma_first_link(links, l);
    lemma_first_neighbor(neighbors, links[l].index, hop, n, a);
    let flags = route.flags;
    assert(flags == 0 || flags == 4 || flags == 512 || flags == 516 ==> flags & !(512u32 | 4u32)
        == 0) by (bit_vector);
}

/// A path that is not followed to its end says where it broke off: at another kind of
/// route, at one that the kernel selects by more than its destination, at a route without a
/// device or with an attribute that cannot be followed.
pub proof fn law_broken_paths_are_told_apart(
    target: u32,
    route: RouteMessage,
    links: Seq<LinkMessage>,
    neighbors: Seq<NeighborMessage>,
)
    ensures
        ({
            let state = observed_route(target, route, links, neighbors).state;
            let inet = route.family == AddressFamily::Inet && route.kind == RouteKind::Unicast;
            let way = scan_route(target, route.attributes@);
            &&& !inet ==> state == RouteObservationState::NonUnicast
            &&& inet && (route.tos != 0 || route.source_prefix_len != 0) ==> state
                == RouteObservationState::UnsupportedRoute
            &&& inet && route.flags & 1 == 1 ==> state == RouteObservationState::UnsupportedRoute
            &&& inet && route.flags & 16 == 16 ==> state == RouteObservationState::UnsupportedRoute
            &&& inet && !way.supported ==> state == RouteObservationState::UnsupportedRoute
            &&& inet && route.tos == 0 && route.source_prefix_len == 0 && route.flags == 0
                && way.supported && way.ifindex is None ==> state
                == RouteObservationState::MissingDevice
            &&& inet && route.tos == 0 && route.source_prefix_len == 0 && route.flags == 0
                && way.supported && (forall|m: int|
                0 <= m < links.len() ==> Some((#[trigger] links[m]).index) != way.ifindex) ==> state
                == RouteObservationState::MissingDevice
        }),
{
    let flags = route.flags;
    assert(flags & 1 == 1 ==> flags & !(512u32 | 4u32) != 0) by (bit_vector);
    assert(flags & 16 == 16 ==> flags & !(512u32 | 4u32) != 0) by (bit_vector);
    assert(0u32 & !(512u32 | 4u32) == 0) by (bit_vector);
    let way = scan_route(target, route.attributes@);
    lemma_first_link_index(links, way.ifindex);
    if first_link(links, way.ifindex) is Some {
        let l = lemma_link_at(links, way.ifindex);
    }
}

} // verus!
