//! The addresses of a backend in the overlay networks of its gateways.
use crate::access::{lemma_two_to_grows, lemma_two_to_wide, two_to};
use crate::config::{ActiveSource, BackendNode, Config, GatewayNode, GatewayReturnPath};
use crate::net::{
    ipv4_text, ipv4_value, law_ipv4_is_digits_and_dots, law_ipv4_reads_back, parse_ipv4, push_ipv4,
    IpAddr,
};
use crate::ranked_set::{ip_set, ip_set_of, text_set, text_set_of};
use crate::text::{
    bounded_value, chars_of, copy_range, decimal, find_first, first_at,
    law_bounded_numbers_are_taken, law_places_are_found, parse_bounded, push_decimal, same_text,
    strings,
};
use vstd::prelude::*;

verus! {

/// The address and the prefix of an overlay address.
pub open spec fn overlay_parts(text: Seq<char>) -> Option<(u32, u8)> {
    match first_at(text, '/') {
        None => None,
        Some(at) => match (
            ipv4_value(text.take(at)),
            bounded_value(text.skip(at + 1), u8::MAX as u64),
        ) {
            (Some(ip), Some(prefix)) => Some((ip, prefix as u8)),
            _ => None,
        },
    }
}

/// The address and the prefix of an overlay address.
pub fn parse_ipv4_cidr(text: &str) -> (parts: Option<(u32, u8)>)
    ensures
        parts == overlay_parts(text@),
{
    let chars = chars_of(text);
    match find_first(chars.as_slice(), '/') {
        None => None,
        Some(at) => {
            let head = copy_range(chars.as_slice(), 0, at);
            assert(head@ =~= text@.take(at as int));
            let tail = copy_range(chars.as_slice(), at + 1, chars.len());
            assert(tail@ =~= text@.skip(at + 1));
            match (parse_ipv4(head.as_slice()), parse_bounded(tail.as_slice(), u8::MAX as u64)) {
                (Some(ip), Some(prefix)) => Some((ip, prefix as u8)),
                _ => None,
            }
        },
    }
}

/// How many addresses a network holds. A prefix above 32 counts as 32.
pub open spec fn block_size(prefix: u8) -> nat {
    two_to(
        (if prefix < 32 {
            32 - prefix
        } else {
            0
        }) as nat,
    )
}

proof fn lemma_two_to_bound(n: nat)
    requires
        n <= 32,
    ensures
        1 <= two_to(n) <= 0x1_0000_0000,
{
    lemma_two_to_wide();
    lemma_two_to_grows(n, 32);
    lemma_two_to_grows(0, n);
    assert(two_to(0) == 1);
}

fn block(prefix: u8) -> (size: u64)
    ensures
        size == block_size(prefix),
        1 <= size <= 0x1_0000_0000,
{
    let bits: u8 = if prefix < 32 {
        32 - prefix
    } else {
        0
    };
    let mut size: u64 = 1;
    let mut i: u8 = 0;
    while i < bits
        invariant
            i <= bits <= 32,
            size == two_to(i as nat),
            size <= 0x1_0000_0000,
        decreases bits - i,
    {
        proof {
            lemma_two_to_bound((i + 1) as nat);
        }
        size = size * 2;
        i += 1;
    }
    proof {
        lemma_two_to_bound(bits as nat);
    }
    size
}

/// The place of an address in its network.
pub open spec fn host_part(ip: u32, prefix: u8) -> nat {
    (ip as nat) % block_size(prefix)
}

/// The first address of a network.
pub open spec fn network_part(ip: u32, prefix: u8) -> nat {
    (ip - host_part(ip, prefix)) as nat
}

fn host_offset(ip: u32, prefix: u8) -> (offset: u32)
    ensures
        offset == host_part(ip, prefix),
{
    let size = block(prefix);
    let offset: u64 = ip as u64 % size;
    assert(offset <= ip) by (nonlinear_arith)
        requires
            offset == ip as u64 % size,
            size >= 1,
    ;
    offset as u32
}

fn network_addr(ip: u32, prefix: u8) -> (network: u32)
    ensures
        network == network_part(ip, prefix),
{
    let offset = host_offset(ip, prefix);
    proof {
        lemma_two_to_bound(
            (if prefix < 32 {
                32 - prefix
            } else {
                0
            }) as nat,
        );
        let size = block_size(prefix) as int;
        assert((ip as int) % size <= ip as int) by (nonlinear_arith)
            requires
                size >= 1,
        ;
    }
    ip - offset
}

/// The address at a place in a network; the last address where there is none.
pub open spec fn at_offset(network: nat, offset: nat) -> u32 {
    if network + offset <= u32::MAX {
        (network + offset) as u32
    } else {
        u32::MAX
    }
}

/// The address that a backend takes in the overlay network of a gateway: the one at
/// its own place there. It leaves out an address that is assigned elsewhere, and the
/// network's own.
pub open spec fn mirror_address(gateway: u32, prefix: u8, offset: nat, taken: Seq<u32>) -> Option<
    u32,
> {
    let network = network_part(gateway, prefix);
    let candidate = at_offset(network, offset);
    if candidate == gateway || taken.contains(candidate) || candidate == network {
        None
    } else {
        Some(candidate)
    }
}

/// The same with its prefix, as text.
pub open spec fn mirror_text(overlay: Seq<char>, offset: nat, taken: Seq<u32>) -> Option<
    Seq<char>,
> {
    match overlay_parts(overlay) {
        None => None,
        Some((gateway, prefix)) => match mirror_address(gateway, prefix, offset, taken) {
            None => None,
            Some(ip) => Some(ipv4_text(ip) + "/"@ + decimal(prefix as nat)),
        },
    }
}

/// The addresses of a backend in the networks of gateways.
pub open spec fn mirrors(gateways: Seq<GatewayNode>, offset: nat, taken: Seq<u32>) -> Seq<Seq<char>>
    decreases gateways.len(),
{
    if gateways.len() == 0 {
        Seq::empty()
    } else {
        let before = mirrors(gateways.drop_last(), offset, taken);
        match mirror_text(gateways.last().overlay_ip@, offset, taken) {
            Some(text) => before.push(text),
            None => before,
        }
    }
}

/// The overlay addresses of all backends but one.
pub open spec fn taken_by_others(nodes: Seq<BackendNode>, name: Seq<char>) -> Seq<u32>
    decreases nodes.len(),
{
    if nodes.len() == 0 {
        Seq::empty()
    } else {
        let before = taken_by_others(nodes.drop_last(), name);
        let node = nodes.last();
        match overlay_parts(node.overlay_ip@) {
            Some((ip, _)) if node.name@ != name => before.push(ip),
            _ => before,
        }
    }
}

/// The overlay addresses of gateways.
pub open spec fn gateway_addresses(gateways: Seq<GatewayNode>) -> Seq<u32>
    decreases gateways.len(),
{
    if gateways.len() == 0 {
        Seq::empty()
    } else {
        let before = gateway_addresses(gateways.drop_last());
        match overlay_parts(gateways.last().overlay_ip@) {
            Some((ip, _)) => before.push(ip),
            None => before,
        }
    }
}

/// The overlay addresses of the whole inventory but one backend.
pub open spec fn assigned_elsewhere(
    nodes: Seq<BackendNode>,
    name: Seq<char>,
    gateways: Seq<GatewayNode>,
) -> Seq<u32> {
    taken_by_others(nodes, name) + gateway_addresses(gateways)
}

fn taken_addresses(nodes: &[BackendNode], name: &str, gateways: &[GatewayNode]) -> (taken: Vec<u32>)
    ensures
        taken@ == assigned_elsewhere(nodes@, name@, gateways@),
{
    let mut taken: Vec<u32> = Vec::new();
    let mut i: usize = 0;
    while i < nodes.len()
        invariant
            i <= nodes.len(),
            taken@ == taken_by_others(nodes@.take(i as int), name@),
        decreases nodes.len() - i,
    {
        assert(nodes@.take(i + 1).drop_last() =~= nodes@.take(i as int));
        assert(nodes@.take(i + 1).last() == nodes@[i as int]);
        if !same_text(nodes[i].name.as_str(), name) {
            if let Some((ip, _)) = parse_ipv4_cidr(nodes[i].overlay_ip.as_str()) {
                taken.push(ip);
            }
        }
        i += 1;
    }
    assert(nodes@.take(nodes@.len() as int) =~= nodes@);
    let ghost others = taken@;
    let mut k: usize = 0;
    assert(taken@ =~= others + gateway_addresses(gateways@.take(0)));
    while k < gateways.len()
        invariant
            k <= gateways.len(),
            taken@ == others + gateway_addresses(gateways@.take(k as int)),
        decreases gateways.len() - k,
    {
        assert(gateways@.take(k + 1).drop_last() =~= gateways@.take(k as int));
        assert(gateways@.take(k + 1).last() == gateways@[k as int]);
        if let Some((ip, _)) = parse_ipv4_cidr(gateways[k].overlay_ip.as_str()) {
            taken.push(ip);
        }
        assert(taken@ =~= others + gateway_addresses(gateways@.take(k + 1)));
        k += 1;
    }
    assert(gateways@.take(gateways@.len() as int) =~= gateways@);
    taken
}

fn is_taken(taken: &[u32], ip: u32) -> (b: bool)
    ensures
        b == taken@.contains(ip),
{
    let mut i: usize = 0;
    while i < taken.len()
        invariant
            i <= taken.len(),
            forall|j: int| 0 <= j < i ==> taken@[j] != ip,
        decreases taken.len() - i,
    {
        if taken[i] == ip {
            assert(taken@[i as int] == ip);
            return true;
        }
        i += 1;
    }
    false
}

fn mirror_in(overlay: &str, offset: u32, taken: &[u32]) -> (text: Option<String>)
    ensures
        match text {
            Some(text) => mirror_text(overlay@, offset as nat, taken@) == Some(text@),
            None => mirror_text(overlay@, offset as nat, taken@) is None,
        },
{
    let (gateway, prefix) = match parse_ipv4_cidr(overlay) {
        None => {
            return None;
        },
        Some(parts) => parts,
    };
    let network = network_addr(gateway, prefix);
    let candidate: u32 = if offset <= u32::MAX - network {
        network + offset
    } else {
        u32::MAX
    };
    if candidate == gateway || is_taken(taken, candidate) || candidate == network {
        return None;
    }
    let mut text = String::new();
    push_ipv4(&mut text, candidate);
    text.append("/");
    push_decimal(&mut text, prefix as u64);
    assert(text@ =~= ipv4_text(candidate) + "/"@ + decimal(prefix as nat));
    Some(text)
}

/// The addresses of a backend in the networks of its gateways, none where its own
/// overlay address is not known.
pub open spec fn backend_mirrors(
    local: Option<BackendNode>,
    nodes: Seq<BackendNode>,
    gateways: Seq<GatewayNode>,
) -> Seq<Seq<char>> {
    match local {
        None => Seq::empty(),
        Some(local) => match overlay_parts(local.overlay_ip@) {
            None => Seq::empty(),
            Some((ip, prefix)) => mirrors(
                gateways,
                host_part(ip, prefix),
                assigned_elsewhere(nodes, local.name@, gateways),
            ),
        },
    }
}

/// The addresses of a backend in the networks of its gateways.
pub fn ha_backend_overlay_addrs(
    local: &Option<BackendNode>,
    nodes: &[BackendNode],
    gateways: &[GatewayNode],
) -> (addrs: Vec<String>)
    ensures
        strings(addrs@) == backend_mirrors(*local, nodes@, gateways@),
{
    let mut addrs: Vec<String> = Vec::new();
    assert(strings(addrs@) =~= Seq::<Seq<char>>::empty());
    let local = match local {
        None => {
            return addrs;
        },
        Some(local) => local,
    };
    let (ip, prefix) = match parse_ipv4_cidr(local.overlay_ip.as_str()) {
        None => {
            return addrs;
        },
        Some(parts) => parts,
    };
    let offset = host_offset(ip, prefix);
    let taken = taken_addresses(nodes, local.name.as_str(), gateways);
    let mut i: usize = 0;
    while i < gateways.len()
        invariant
            i <= gateways.len(),
            strings(addrs@) == mirrors(gateways@.take(i as int), offset as nat, taken@),
        decreases gateways.len() - i,
    {
        assert(gateways@.take(i + 1).drop_last() =~= gateways@.take(i as int));
        assert(gateways@.take(i + 1).last() == gateways@[i as int]);
        if let Some(text) = mirror_in(gateways[i].overlay_ip.as_str(), offset, taken.as_slice()) {
            let ghost before = addrs@;
            let ghost view = text@;
            addrs.push(text);
            assert(strings(addrs@) =~= strings(before).push(view));
        }
        i += 1;
    }
    assert(gateways@.take(gateways@.len() as int) =~= gateways@);
    addrs
}

/// The own addresses that return paths name.
pub open spec fn path_addresses(paths: Seq<GatewayReturnPath>) -> Seq<Seq<char>>
    decreases paths.len(),
{
    if paths.len() == 0 {
        Seq::empty()
    } else {
        let before = path_addresses(paths.drop_last());
        match paths.last().backend_overlay_ip {
            Some(text) => before.push(text@),
            None => before,
        }
    }
}

/// The gateways that return paths lead to.
pub open spec fn path_peers(paths: Seq<GatewayReturnPath>) -> Seq<IpAddr> {
    paths.map_values(|path: GatewayReturnPath| path.gateway_underlay_ip)
}

/// The underlay addresses of gateways.
pub open spec fn gateway_underlays(gateways: Seq<GatewayNode>) -> Seq<IpAddr> {
    gateways.map_values(|gateway: GatewayNode| gateway.underlay_ip)
}

/// The own addresses and the peers of a tunnel toward several gateways, each once and
/// ascending; none where either is empty. Where no return path names an own address
/// and there are several control planes, the mirrored addresses stand in.
pub open spec fn multipoint(cfg: Config, local: Option<BackendNode>, nodes: Seq<BackendNode>) -> Option<
    (Seq<Seq<char>>, Seq<IpAddr>),
> {
    let named = path_addresses(cfg.backend_return_paths@);
    let peers = path_peers(cfg.backend_return_paths@);
    let mirrored = named.len() == 0 && cfg.active_source is Xds && cfg.gateway_nodes@.len() > 1;
    let (addrs, peers) = if mirrored {
        (
            backend_mirrors(local, nodes, cfg.gateway_nodes@),
            peers + gateway_underlays(cfg.gateway_nodes@),
        )
    } else {
        (named, peers)
    };
    if addrs.len() == 0 || peers.len() == 0 {
        None
    } else {
        Some((text_set(addrs), ip_set(peers)))
    }
}

/// The own addresses and the peers of a tunnel toward several gateways.
pub fn multipoint_return_vxlan(
    cfg: &Config,
    local: &Option<BackendNode>,
    nodes: &[BackendNode],
) -> (ends: Option<(Vec<String>, Vec<IpAddr>)>)
    ensures
        match ends {
            Some((addrs, peers)) => multipoint(*cfg, *local, nodes@) == Some(
                (strings(addrs@), peers@),
            ) && addrs@.len() > 0 && peers@.len() > 0,
            None => multipoint(*cfg, *local, nodes@) is None,
        },
{
    let mut addrs: Vec<String> = Vec::new();
    let mut peers: Vec<IpAddr> = Vec::new();
    let paths = &cfg.backend_return_paths;
    let mut i: usize = 0;
    assert(strings(addrs@) =~= path_addresses(paths@.take(0)));
    while i < paths.len()
        invariant
            i <= paths.len(),
            paths == cfg.backend_return_paths,
            strings(addrs@) == path_addresses(paths@.take(i as int)),
            peers@ == path_peers(paths@.take(i as int)),
        decreases paths.len() - i,
    {
        assert(paths@.take(i + 1).drop_last() =~= paths@.take(i as int));
        assert(paths@.take(i + 1).last() == paths@[i as int]);
        if let Some(text) = &paths[i].backend_overlay_ip {
            let ghost before = addrs@;
            addrs.push(text.clone());
            assert(strings(addrs@) =~= strings(before).push(text@));
        }
        peers.push(paths[i].gateway_underlay_ip);
        assert(peers@ =~= path_peers(paths@.take(i + 1)));
        i += 1;
    }
    assert(paths@.take(paths@.len() as int) =~= paths@);
    assert(strings(addrs@).len() == addrs@.len());
    if addrs.len() == 0 && matches!(cfg.active_source, ActiveSource::Xds)
        && cfg.gateway_nodes.len() > 1 {
        addrs = ha_backend_overlay_addrs(local, nodes, cfg.gateway_nodes.as_slice());
        let gateways = &cfg.gateway_nodes;
        let ghost before = peers@;
        let mut k: usize = 0;
        assert(peers@ =~= before + gateway_underlays(gateways@.take(0)));
        while k < gateways.len()
            invariant
                k <= gateways.len(),
                gateways == cfg.gateway_nodes,
                peers@ == before + gateway_underlays(gateways@.take(k as int)),
            decreases gateways.len() - k,
        {
            peers.push(gateways[k].underlay_ip);
            assert(peers@ =~= before + gateway_underlays(gateways@.take(k + 1)));
            k += 1;
        }
        assert(gateways@.take(gateways@.len() as int) =~= gateways@);
    }
    assert(strings(addrs@).len() == addrs@.len());
    if addrs.len() == 0 || peers.len() == 0 {
        return None;
    }
    let ghost first = strings(addrs@)[0];
    let ghost peer = peers@[0];
    assert(strings(addrs@).contains(first));
    assert(peers@.contains(peer));
    let addrs = text_set_of(addrs);
    let peers = ip_set_of(peers.as_slice());
    assert(strings(addrs@).contains(first));
    assert(strings(addrs@).len() == addrs@.len());
    assert(peers@.contains(peer));
    Some((addrs, peers))
}

// ---------------------------------------------------------------------------
// Laws
// ---------------------------------------------------------------------------

proof fn lemma_others_are_taken(nodes: Seq<BackendNode>, name: Seq<char>, k: int)
    requires
        0 <= k < nodes.len(),
        nodes[k].name@ != name,
        overlay_parts(nodes[k].overlay_ip@) is Some,
    ensures
        taken_by_others(nodes, name).contains(overlay_parts(nodes[k].overlay_ip@).unwrap().0),
    decreases nodes.len(),
{
    let ip = overlay_parts(nodes[k].overlay_ip@).unwrap().0;
    let before = taken_by_others(nodes.drop_last(), name);
    if k == nodes.len() - 1 {
        assert(before.push(ip)[before.len() as int] == ip);
    } else {
        assert(nodes.drop_last()[k] == nodes[k]);
        lemma_others_are_taken(nodes.drop_last(), name, k);
        let at = before.index_of(ip);
        assert(taken_by_others(nodes, name)[at] == ip);
    }
}

proof fn lemma_gateways_are_taken(gateways: Seq<GatewayNode>, k: int)
    requires
        0 <= k < gateways.len(),
        overlay_parts(gateways[k].overlay_ip@) is Some,
    ensures
        gateway_addresses(gateways).contains(overlay_parts(gateways[k].overlay_ip@).unwrap().0),
    decreases gateways.len(),
{
    let ip = overlay_parts(gateways[k].overlay_ip@).unwrap().0;
    let before = gateway_addresses(gateways.drop_last());
    if k == gateways.len() - 1 {
        assert(before.push(ip)[before.len() as int] == ip);
    } else {
        assert(gateways.drop_last()[k] == gateways[k]);
        lemma_gateways_are_taken(gateways.drop_last(), k);
        let at = before.index_of(ip);
        assert(gateway_addresses(gateways)[at] == ip);
    }
}

/// Whether an address is nobody else's in the inventory.
pub open spec fn is_free(
    ip: u32,
    nodes: Seq<BackendNode>,
    name: Seq<char>,
    gateways: Seq<GatewayNode>,
) -> bool {
    &&& forall|k: int|
        0 <= k < nodes.len() && nodes[k].name@ != name ==> (overlay_parts(
            #[trigger] nodes[k].overlay_ip@,
        ) matches Some((other, _)) ==> other != ip)
    &&& forall|k: int|
        0 <= k < gateways.len() ==> (overlay_parts(
            #[trigger] gateways[k].overlay_ip@,
        ) matches Some((other, _)) ==> other != ip)
}

/// Whether a text is a free address in the network of one of the gateways, with its
/// prefix, and not that network's own address.
pub open spec fn is_free_mirror(
    text: Seq<char>,
    nodes: Seq<BackendNode>,
    name: Seq<char>,
    gateways: Seq<GatewayNode>,
    offset: nat,
) -> bool {
    exists|g: int, ip: u32| #[trigger]
        mirrors_into(text, gateways, g, offset, ip) && is_free(ip, nodes, name, gateways)
}

/// Whether a text is the address at a place in the network of a gateway, with its prefix.
pub open spec fn mirrors_into(
    text: Seq<char>,
    gateways: Seq<GatewayNode>,
    g: int,
    offset: nat,
    ip: u32,
) -> bool {
    0 <= g < gateways.len() && (overlay_parts(gateways[g].overlay_ip@) matches Some(
        (gateway, prefix),
    ) && ip == at_offset(network_part(gateway, prefix), offset) && ip != network_part(
        gateway,
        prefix,
    ) && text == ipv4_text(ip) + "/"@ + decimal(prefix as nat))
}

proof fn lemma_mirror_source(
    gateways: Seq<GatewayNode>,
    offset: nat,
    taken: Seq<u32>,
    i: int,
) -> (found: (int, u32))
    requires
        0 <= i < mirrors(gateways, offset, taken).len(),
    ensures
        mirrors_into(mirrors(gateways, offset, taken)[i], gateways, found.0, offset, found.1),
        !taken.contains(found.1),
    decreases gateways.len(),
{
    let before = mirrors(gateways.drop_last(), offset, taken);
    if i < before.len() {
        let (g, ip) = lemma_mirror_source(gateways.drop_last(), offset, taken, i);
        assert(gateways.drop_last()[g] == gateways[g]);
        (g, ip)
    } else {
        let (gateway, prefix) = overlay_parts(gateways.last().overlay_ip@)->0;
        (gateways.len() - 1, mirror_address(gateway, prefix, offset, taken)->0)
    }
}

/// Every mirrored address of a backend is nobody else's: it is assigned to no gateway and
/// to no other backend of the inventory, and it is not the own address of a network.
pub proof fn law_mirror_is_free(
    local: BackendNode,
    nodes: Seq<BackendNode>,
    gateways: Seq<GatewayNode>,
    i: int,
)
    requires
        0 <= i < backend_mirrors(Some(local), nodes, gateways).len(),
    ensures
        overlay_parts(local.overlay_ip@) matches Some((ip, prefix)) && is_free_mirror(
            backend_mirrors(Some(local), nodes, gateways)[i],
            nodes,
            local.name@,
            gateways,
            host_part(ip, prefix),
        ),
{
    let (own, prefix) = overlay_parts(local.overlay_ip@)->0;
    let offset = host_part(own, prefix);
    let name = local.name@;
    let taken = assigned_elsewhere(nodes, name, gateways);
    let (g, ip) = lemma_mirror_source(gateways, offset, taken, i);
    assert forall|k: int| 0 <= k < nodes.len() && nodes[k].name@ != name implies (overlay_parts(
        #[trigger] nodes[k].overlay_ip@,
    ) matches Some((other, _)) ==> other != ip) by {
        if let Some((other, _)) = overlay_parts(nodes[k].overlay_ip@) {
            lemma_others_are_taken(nodes, name, k);
            let others = taken_by_others(nodes, name);
            let at = others.index_of(other);
            assert(taken[at] == other);
        }
    }
    assert forall|k: int| 0 <= k < gateways.len() implies (overlay_parts(
        #[trigger] gateways[k].overlay_ip@,
    ) matches Some((other, _)) ==> other != ip) by {
        if let Some((other, _)) = overlay_parts(gateways[k].overlay_ip@) {
            lemma_gateways_are_taken(gateways, k);
            let others = taken_by_others(nodes, name);
            let of_gateways = gateway_addresses(gateways);
            let at = of_gateways.index_of(other);
            assert(taken[others.len() + at] == other);
        }
    }
    assert(mirrors_into(
        backend_mirrors(Some(local), nodes, gateways)[i],
        gateways,
        g,
        offset,
        ip,
    ));
}

/// A mirrored address lies in the network of the gateway, at the same place as the
/// backend's own address in its own network, where that network has such a place.
pub proof fn law_mirror_keeps_place(gateway: u32, prefix: u8, offset: nat, taken: Seq<u32>)
    requires
        offset < block_size(prefix),
    ensures
        mirror_address(gateway, prefix, offset, taken) matches Some(ip) ==> host_part(ip, prefix)
            == offset && network_part(ip, prefix) == network_part(gateway, prefix),
{
    let size = block_size(prefix) as int;
    let g = gateway as int;
    lemma_two_to_bound(
        (if prefix < 32 {
            32 - prefix
        } else {
            0
        }) as nat,
    );
    lemma_block_divides(prefix);
    let network = g - g % size;
    assert(network + size <= 0x1_0000_0000 && network >= 0 && network % size == 0) by {
        lemma_network_end(g, size);
    }
    let ip = network + offset;
    assert(ip % size == offset) by {
        lemma_offset_stays(network, size, offset as int);
    }
}

proof fn lemma_offset_stays(network: int, size: int, offset: int)
    by (nonlinear_arith)
    requires
        size >= 1,
        network >= 0,
        network % size == 0,
        0 <= offset < size,
    ensures
        (network + offset) % size == offset,
{
}

proof fn lemma_two_to_sum(n: nat, m: nat)
    ensures
        two_to(n) * two_to(m) == two_to(n + m),
    decreases n,
{
    if n == 0 {
        assert(two_to(0) * two_to(m) == two_to(m)) by (nonlinear_arith)
            requires
                two_to(0) == 1,
        ;
    } else {
        let k = (n - 1) as nat;
        lemma_two_to_sum(k, m);
        assert(two_to(n) * two_to(m) == 2 * (two_to(k) * two_to(m))) by (nonlinear_arith)
            requires
                two_to(n) == 2 * two_to(k),
        ;
    }
}

proof fn lemma_block_divides(prefix: u8)
    ensures
        0x1_0000_0000int % (block_size(prefix) as int) == 0,
        block_size(prefix) >= 1,
{
    let bits = (if prefix < 32 {
        32 - prefix
    } else {
        0
    }) as nat;
    lemma_two_to_bound(bits);
    lemma_two_to_wide();
    lemma_two_to_sum(bits, (32 - bits) as nat);
    let size = two_to(bits) as int;
    let count = two_to((32 - bits) as nat) as int;
    assert((size * count) % size == 0) by (nonlinear_arith)
        requires
            size >= 1,
    ;
}

proof fn lemma_network_end(g: int, size: int)
    requires
        0 <= g < 0x1_0000_0000,
        size >= 1,
        0x1_0000_0000int % size == 0,
    ensures
        g - g % size >= 0,
        (g - g % size) % size == 0,
        g - g % size + size <= 0x1_0000_0000,
{
    let q = g / size;
    let n = 0x1_0000_0000int / size;
    assert(g - g % size == q * size) by (nonlinear_arith)
        requires
            size >= 1,
            q == g / size,
    ;
    assert(0x1_0000_0000int == n * size) by (nonlinear_arith)
        requires
            size >= 1,
            n == 0x1_0000_0000int / size,
            0x1_0000_0000int % size == 0,
    ;
    assert(q >= 0) by (nonlinear_arith)
        requires
            size >= 1,
            g >= 0,
            q == g / size,
    ;
    assert(q * size >= 0 && (q * size) % size == 0) by (nonlinear_arith)
        requires
            size >= 1,
            q >= 0,
    ;
    assert(q < n) by (nonlinear_arith)
        requires
            size >= 1,
            g < n * size,
            q * size <= g,
    ;
    assert(q * size + size <= n * size) by (nonlinear_arith)
        requires
            q < n,
            size >= 1,
    ;
}

/// An overlay address is an IPv4 address and a prefix with a slash between them.
pub proof fn law_overlay_address_is_read(ip: u32, prefix: u8)
    ensures
        overlay_parts(ipv4_text(ip) + "/"@ + decimal(prefix as nat)) == Some((ip, prefix)),
        overlay_parts(ipv4_text(ip)) is None,
{
    reveal_strlit("/");
    let head = ipv4_text(ip);
    let tail = decimal(prefix as nat);
    let text = head + "/"@ + tail;
    let at = head.len() as int;
    law_ipv4_reads_back(ip);
    law_ipv4_is_digits_and_dots(ip);
    law_bounded_numbers_are_taken(prefix as nat, u8::MAX as u64);
    law_places_are_found(text, '/');
    law_places_are_found(head, '/');
    assert(text[at] == '/');
    assert forall|k: int| 0 <= k < at implies #[trigger] text[k] != '/' by {
        assert(text[k] == head[k]);
    }
    assert(first_at(text, '/') == Some(at));
    assert(text.take(at) =~= head);
    assert(text.skip(at + 1) =~= tail);
}

/// In a network of 256 addresses the place of an address is its last number, and a backend
/// takes the address with its own last number in the network of a gateway.
pub proof fn law_small_networks_are_mirrored(gateway: u32, own: u32)
    ensures
        host_part(own, 24) == own % 256,
        network_part(gateway, 24) == gateway - gateway % 256,
        host_part(own, 32) == 0,
        host_part(own, 16) == own % 65536,
        own % 256 != 0 && own % 256 != gateway % 256 ==> mirror_address(
            gateway,
            24,
            host_part(own, 24),
            Seq::empty(),
        ) == Some((gateway - gateway % 256 + own % 256) as u32),
{
    assert(two_to(8) == 256 && two_to(16) == 65536 && two_to(0) == 1) by {
        reveal_with_fuel(two_to, 17);
    }
}

/// The address that is assigned elsewhere, the gateway's own and the network's own are left
/// out; every other is taken.
pub proof fn law_free_addresses_are_taken(gateway: u32, prefix: u8, offset: nat, taken: Seq<u32>)
    requires
        network_part(gateway, prefix) + offset <= u32::MAX,
    ensures
        ({
            let ip = (network_part(gateway, prefix) + offset) as u32;
            let found = mirror_address(gateway, prefix, offset, taken);
            &&& found is Some ==> found == Some(ip)
            &&& found is None <==> ip == gateway || taken.contains(ip) || offset == 0
        }),
{
}

/// A backend has an address in the network of each gateway in which its place is free.
pub proof fn law_every_gateway_is_mirrored(
    gateways: Seq<GatewayNode>,
    offset: nat,
    taken: Seq<u32>,
    i: int,
) -> (k: int)
    requires
        0 <= i < gateways.len(),
        mirror_text(gateways[i].overlay_ip@, offset, taken) is Some,
    ensures
        0 <= k < mirrors(gateways, offset, taken).len(),
        mirror_text(gateways[i].overlay_ip@, offset, taken) == Some(
            mirrors(gateways, offset, taken)[k],
        ),
    decreases gateways.len(),
{
    let front = gateways.drop_last();
    let before = mirrors(front, offset, taken);
    if i < front.len() {
        assert(front[i] == gateways[i]);
        law_every_gateway_is_mirrored(front, offset, taken, i)
    } else {
        before.len() as int
    }
}

/// The address of a backend in the network of a gateway has the prefix of that network.
pub proof fn law_mirror_has_the_prefix(
    gateway: u32,
    prefix: u8,
    offset: nat,
    taken: Seq<u32>,
    overlay: Seq<char>,
)
    requires
        overlay_parts(overlay) == Some((gateway, prefix)),
    ensures
        match mirror_address(gateway, prefix, offset, taken) {
            Some(ip) => mirror_text(overlay, offset, taken) matches Some(text) && overlay_parts(
                text,
            ) == Some((ip, prefix)),
            None => mirror_text(overlay, offset, taken) is None,
        },
{
    if let Some(ip) = mirror_address(gateway, prefix, offset, taken) {
        law_overlay_address_is_read(ip, prefix);
    }
}

/// Every address of another node of the inventory counts as assigned: of the backends but
/// the one in question, and of the gateways.
pub proof fn law_inventory_is_assigned(
    nodes: Seq<BackendNode>,
    name: Seq<char>,
    gateways: Seq<GatewayNode>,
    i: int,
    ip: u32,
    prefix: u8,
)
    ensures
        0 <= i < nodes.len() && nodes[i].name@ != name && overlay_parts(nodes[i].overlay_ip@)
            == Some((ip, prefix)) ==> assigned_elsewhere(nodes, name, gateways).contains(ip),
        0 <= i < gateways.len() && overlay_parts(gateways[i].overlay_ip@) == Some((ip, prefix))
            ==> assigned_elsewhere(nodes, name, gateways).contains(ip),
{
    let theirs = taken_by_others(nodes, name);
    let gates = gateway_addresses(gateways);
    let whole = assigned_elsewhere(nodes, name, gateways);
    if 0 <= i < nodes.len() && nodes[i].name@ != name && overlay_parts(nodes[i].overlay_ip@)
        == Some((ip, prefix)) {
        let k = lemma_other_is_taken(nodes, name, i);
        assert(whole[k] == theirs[k]);
    }
    if 0 <= i < gateways.len() && overlay_parts(gateways[i].overlay_ip@) == Some((ip, prefix)) {
        let k = lemma_gateway_is_taken(gateways, i);
        assert(whole[theirs.len() + k] == gates[k]);
    }
}

proof fn lemma_other_is_taken(nodes: Seq<BackendNode>, name: Seq<char>, i: int) -> (k: int)
    requires
        0 <= i < nodes.len(),
        nodes[i].name@ != name,
        overlay_parts(nodes[i].overlay_ip@) is Some,
    ensures
        0 <= k < taken_by_others(nodes, name).len(),
        overlay_parts(nodes[i].overlay_ip@) matches Some((ip, _)) && taken_by_others(
            nodes,
            name,
        )[k] == ip,
    decreases nodes.len(),
{
    let front = nodes.drop_last();
    let before = taken_by_others(front, name);
    if i < front.len() {
        assert(front[i] == nodes[i]);
        lemma_other_is_taken(front, name, i)
    } else {
        before.len() as int
    }
}

proof fn lemma_gateway_is_taken(gateways: Seq<GatewayNode>, i: int) -> (k: int)
    requires
        0 <= i < gateways.len(),
        overlay_parts(gateways[i].overlay_ip@) is Some,
    ensures
        0 <= k < gateway_addresses(gateways).len(),
        overlay_parts(gateways[i].overlay_ip@) matches Some((ip, _)) && gateway_addresses(
            gateways,
        )[k] == ip,
    decreases gateways.len(),
{
    let front = gateways.drop_last();
    let before = gateway_addresses(front);
    if i < front.len() {
        assert(front[i] == gateways[i]);
        lemma_gateway_is_taken(front, i)
    } else {
        before.len() as int
    }
}

/// A tunnel toward several gateways has the addresses that the return paths name and leads
/// to their gateways. Only where they name none, control planes say who is active and there
/// are several of them, mirrored addresses stand in and all control planes are peers too.
pub proof fn law_return_paths_come_first(
    cfg: Config,
    local: Option<BackendNode>,
    nodes: Seq<BackendNode>,
)
    ensures
        ({
            let paths = cfg.backend_return_paths@;
            let named = path_addresses(paths);
            let mirrored = backend_mirrors(local, nodes, cfg.gateway_nodes@);
            let many = cfg.active_source is Xds && cfg.gateway_nodes@.len() > 1;
            &&& named.len() > 0 && paths.len() > 0 ==> multipoint(cfg, local, nodes) == Some(
                (text_set(named), ip_set(path_peers(paths))),
            )
            &&& named.len() == 0 && !many ==> multipoint(cfg, local, nodes) is None
            &&& named.len() == 0 && many && mirrored.len() > 0 ==> multipoint(cfg, local, nodes)
                == Some(
                (
                    text_set(mirrored),
                    ip_set(path_peers(paths) + gateway_underlays(cfg.gateway_nodes@)),
                ),
            )
            &&& named.len() == 0 && many && mirrored.len() == 0 ==> multipoint(cfg, local, nodes)
                is None
        }),
{
}

/// The own addresses and the gateways of the return paths are all there.
pub proof fn law_return_paths_are_listed(paths: Seq<GatewayReturnPath>, i: int) -> (k: int)
    requires
        0 <= i < paths.len(),
    ensures
        path_peers(paths)[i] == paths[i].gateway_underlay_ip,
        path_peers(paths).len() == paths.len(),
        paths[i].backend_overlay_ip matches Some(text) ==> 0 <= k < path_addresses(paths).len()
            && path_addresses(paths)[k] == text@,
    decreases paths.len(),
{
    let front = paths.drop_last();
    let before = path_addresses(front);
    if i < front.len() {
        assert(front[i] == paths[i]);
        law_return_paths_are_listed(front, i)
    } else {
        before.len() as int
    }
}

} // verus!
