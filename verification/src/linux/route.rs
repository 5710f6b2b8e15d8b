//! Policy routes of a backend: reading the kernel's, and telling own ones from
//! foreign ones.
//!
//! Ownership is local to one boot and one network namespace. An object that was
//! not recorded as created here is refused, never adopted.
use crate::bytes::{
    align, align4, be_value, copy_bytes, host_bytes, host_value, lemma_pow256, push_host, read_be,
    read_host, read_i32, signed32, ByteOrder,
};
use crate::config::{Config, GatewayReturnPath};
use crate::net::{ip_text, push_ip, IpAddr};
use crate::nla::{
    attr_view, attr_views, attrs, attrs_end, header_at, read_attrs, read_header, Attr, AttrEnd,
    NLMSG_DONE, NLMSG_ERROR, NLM_F_DUMP_INTR,
};
use crate::order::{lex_less, sort, sorted, Ranked};
use crate::text::{decimal, push_decimal};
use vstd::prelude::*;

verus! {

pub const RTM_NEWROUTE: u16 = 24;

pub const RTM_GETROUTE: u16 = 26;

pub const RTM_NEWRULE: u16 = 32;

pub const RTM_GETRULE: u16 = 34;

pub const AF_INET: u8 = 2;

pub const AF_INET6: u8 = 10;

pub const RTN_UNICAST: u8 = 1;

pub const RTPROT_STATIC: u8 = 4;

pub const RT_SCOPE_UNIVERSE: u8 = 0;

pub const RT_SCOPE_LINK: u8 = 253;

pub const RTA_DST: u16 = 1;

pub const RTA_OIF: u16 = 4;

pub const RTA_GATEWAY: u16 = 5;

pub const RTA_PREFSRC: u16 = 7;

pub const RTA_TABLE: u16 = 15;

pub const FR_ACT_TO_TBL: u8 = 1;

pub const FRA_PRIORITY: u16 = 6;

pub const FRA_FWMARK: u16 = 10;

pub const FRA_SUPPRESS_IFGROUP: u16 = 13;

pub const FRA_SUPPRESS_PREFIXLEN: u16 = 14;

pub const FRA_TABLE: u16 = 15;

pub const FRA_FWMASK: u16 = 16;

pub const FRA_PROTOCOL: u16 = 21;

/// The largest differentiated services codepoint.
pub const EDGE_DSCP_LIMIT: u32 = 63;

/// Why routes could not be planned or read.
#[derive(Clone, Copy, Debug, PartialEq, Eq, Structural)]
pub enum RouteError {
    /// A return path has a codepoint above the limit.
    Dscp(u32),
    /// A foreign rule stands in the way of a return path.
    RuleConflict(usize),
    /// A return table holds a foreign route.
    ForeignRoute(usize),
    /// A datagram was longer than the buffer.
    TruncatedDump,
    /// A datagram holds a message that cannot be there.
    ShortDump,
    /// The dump was disturbed; an incomplete snapshot proves nothing.
    InterruptedDump,
    /// The kernel answered with an error.
    Kernel(i32),
    /// A message was too short to be read.
    ShortMessage,
    ShortEntry,
    ShortAttribute,
}

// ---------------------------------------------------------------------------
// Return routes
// ---------------------------------------------------------------------------

/// The route of replies to one gateway.
#[derive(Clone, Copy, Debug, PartialEq, Eq, Structural)]
pub struct ReturnRoute {
    pub gateway_underlay: IpAddr,
    pub gateway_overlay: IpAddr,
    pub mark: u32,
    pub table: u32,
}

/// The place of an address in the order of routes: IPv4 first.
pub open spec fn ip_rank(ip: IpAddr) -> Seq<int> {
    match ip {
        IpAddr::V4(ip) => seq![4, ip as int],
        IpAddr::V6(ip) => seq![6, ip as int],
    }
}

/// The place of an address in the order of routes.
pub fn ip_sort_key(ip: IpAddr) -> (key: (u8, u128))
    ensures
        seq![key.0 as int, key.1 as int] == ip_rank(ip),
{
    match ip {
        IpAddr::V4(ip) => (4, ip as u128),
        IpAddr::V6(ip) => (6, ip),
    }
}

impl Ranked for ReturnRoute {
    open spec fn rank(&self) -> Seq<int> {
        ip_rank(self.gateway_underlay) + ip_rank(self.gateway_overlay) + seq![
            self.mark as int,
            self.table as int,
        ]
    }

    fn comes_before(&self, other: &Self) -> (b: bool) {
        proof {
            reveal_with_fuel(lex_less, 7);
        }
        let a = ip_sort_key(self.gateway_underlay);
        let b = ip_sort_key(other.gateway_underlay);
        let c = ip_sort_key(self.gateway_overlay);
        let d = ip_sort_key(other.gateway_overlay);
        assert(self.rank() =~= seq![
            a.0 as int,
            a.1 as int,
            c.0 as int,
            c.1 as int,
            self.mark as int,
            self.table as int,
        ]) by {
            assert(seq![a.0 as int, a.1 as int][0] == ip_rank(self.gateway_underlay)[0]);
            assert(seq![a.0 as int, a.1 as int][1] == ip_rank(self.gateway_underlay)[1]);
            assert(seq![c.0 as int, c.1 as int][0] == ip_rank(self.gateway_overlay)[0]);
            assert(seq![c.0 as int, c.1 as int][1] == ip_rank(self.gateway_overlay)[1]);
        }
        assert(other.rank() =~= seq![
            b.0 as int,
            b.1 as int,
            d.0 as int,
            d.1 as int,
            other.mark as int,
            other.table as int,
        ]) by {
            assert(seq![b.0 as int, b.1 as int][0] == ip_rank(other.gateway_underlay)[0]);
            assert(seq![b.0 as int, b.1 as int][1] == ip_rank(other.gateway_underlay)[1]);
            assert(seq![d.0 as int, d.1 as int][0] == ip_rank(other.gateway_overlay)[0]);
            assert(seq![d.0 as int, d.1 as int][1] == ip_rank(other.gateway_overlay)[1]);
        }
        if a.0 != b.0 {
            a.0 < b.0
        } else if a.1 != b.1 {
            a.1 < b.1
        } else if c.0 != d.0 {
            c.0 < d.0
        } else if c.1 != d.1 {
            c.1 < d.1
        } else if self.mark != other.mark {
            self.mark < other.mark
        } else {
            self.table < other.table
        }
    }
}

/// The route of a return path.
pub open spec fn path_route(path: GatewayReturnPath) -> ReturnRoute {
    ReturnRoute {
        gateway_underlay: path.gateway_underlay_ip,
        gateway_overlay: path.gateway_overlay_ip,
        mark: path.mark,
        table: path.route_table_id,
    }
}

/// The routes of return paths, in their order.
pub open spec fn path_routes(paths: Seq<GatewayReturnPath>) -> Seq<ReturnRoute> {
    paths.map_values(|path: GatewayReturnPath| path_route(path))
}

/// `s` without elements that repeat the one ahead of them.
pub open spec fn deduped(s: Seq<ReturnRoute>) -> Seq<ReturnRoute>
    decreases s.len(),
{
    if s.len() <= 1 {
        s
    } else if s.last() == s[s.len() - 2] {
        deduped(s.drop_last())
    } else {
        deduped(s.drop_last()).push(s.last())
    }
}

proof fn lemma_deduped_last(s: Seq<ReturnRoute>)
    requires
        s.len() > 0,
    ensures
        deduped(s).len() > 0,
        deduped(s).last() == s.last(),
    decreases s.len(),
{
    if s.len() > 1 {
        lemma_deduped_last(s.drop_last());
    }
}

/// The first codepoint that is above the limit.
pub open spec fn first_bad_dscp(paths: Seq<GatewayReturnPath>) -> Option<u32>
    decreases paths.len(),
{
    if paths.len() == 0 {
        None
    } else if paths[0].dscp > EDGE_DSCP_LIMIT {
        Some(paths[0].dscp)
    } else {
        first_bad_dscp(paths.skip(1))
    }
}

/// The routes that a configuration asks for: sorted, each once. A codepoint
/// above the limit is refused, for the packet filter would silently degrade it.
pub fn return_routes(cfg: &Config) -> (routes: Result<Vec<ReturnRoute>, RouteError>)
    ensures
        match routes {
            Ok(routes) => first_bad_dscp(cfg.backend_return_paths@) is None && routes@ == deduped(
                sorted(path_routes(cfg.backend_return_paths@)),
            ),
            Err(RouteError::Dscp(dscp)) => first_bad_dscp(cfg.backend_return_paths@) == Some(dscp),
            Err(_) => false,
        },
{
    let ghost paths = cfg.backend_return_paths@;
    let mut routes: Vec<ReturnRoute> = Vec::new();
    let mut i: usize = 0;
    assert(paths.skip(0) =~= paths);
    while i < cfg.backend_return_paths.len()
        invariant
            i <= cfg.backend_return_paths.len(),
            paths == cfg.backend_return_paths@,
            routes@ == path_routes(paths.take(i as int)),
            first_bad_dscp(paths) == first_bad_dscp(paths.skip(i as int)),
        decreases cfg.backend_return_paths.len() - i,
    {
        let path = &cfg.backend_return_paths[i];
        assert(paths.skip(i as int).skip(1) =~= paths.skip(i + 1));
        if path.dscp > EDGE_DSCP_LIMIT {
            return Err(RouteError::Dscp(path.dscp));
        }
        routes.push(
            ReturnRoute {
                gateway_underlay: path.gateway_underlay_ip,
                gateway_overlay: path.gateway_overlay_ip,
                mark: path.mark,
                table: path.route_table_id,
            },
        );
        i += 1;
        assert(routes@ =~= path_routes(paths.take(i as int)));
    }
    assert(paths.take(paths.len() as int) =~= paths);
    sort(&mut routes);
    let mut once: Vec<ReturnRoute> = Vec::new();
    let mut k: usize = 0;
    while k < routes.len()
        invariant
            k <= routes.len(),
            once@ == deduped(routes@.take(k as int)),
        decreases routes.len() - k,
    {
        let ghost before = routes@.take(k as int);
        let ghost after = routes@.take(k + 1);
        assert(after.drop_last() =~= before);
        assert(after.last() == routes@[k as int]);
        if k > 0 {
            assert(after[k - 1] == routes@[k - 1]);
        }
        if k == 0 || routes[k] != routes[k - 1] {
            once.push(routes[k]);
            assert(k == 0 ==> once@ =~= deduped(after));
        }
        k += 1;
    }
    assert(routes@.take(routes@.len() as int) =~= routes@);
    Ok(once)
}

// ---------------------------------------------------------------------------
// Entries of the kernel
// ---------------------------------------------------------------------------

/// A route of the kernel. `supported` is lost where the route has a property
/// that own routes never have.
#[derive(Clone, Copy, Debug, PartialEq, Eq, Structural)]
pub struct RouteEntry {
    pub supported: bool,
    pub family: u8,
    pub table: u32,
    pub dst_len: u8,
    pub dst: Option<IpAddr>,
    pub gateway: Option<IpAddr>,
    pub oif: Option<u32>,
    pub prefsrc: Option<IpAddr>,
}

/// A rule of the kernel. `supported` is lost where the rule has a selector that
/// own rules never have.
#[derive(Clone, Copy, Debug, PartialEq, Eq, Structural)]
pub struct PolicyRule {
    pub supported: bool,
    pub protocol: u8,
    pub priority: u32,
    pub mark: Option<u32>,
    pub mask: Option<u32>,
    pub table: u32,
}

/// The number in the first four bytes of an attribute.
pub open spec fn u32_attr(order: ByteOrder, payload: Seq<u8>) -> Option<u32> {
    if payload.len() >= 4 {
        Some(host_value(order, payload.subrange(0, 4)) as u32)
    } else {
        None
    }
}

/// Reads the number in the first four bytes of an attribute.
pub fn parse_u32_attr(order: ByteOrder, payload: &[u8]) -> (value: Option<u32>)
    ensures
        value == u32_attr(order, payload@),
{
    if payload.len() < 4 {
        return None;
    }
    proof {
        lemma_pow256();
    }
    Some(read_host(order, payload, 0, 4) as u32)
}

/// The address in an attribute of a family.
pub open spec fn ip_attr(family: u8, payload: Seq<u8>) -> Option<IpAddr> {
    if family == AF_INET && payload.len() >= 4 {
        Some(IpAddr::V4(be_value(payload.subrange(0, 4)) as u32))
    } else if family == AF_INET6 && payload.len() >= 16 {
        Some(IpAddr::V6(be_value(payload.subrange(0, 16)) as u128))
    } else {
        None
    }
}

/// Reads the address in an attribute of a family.
pub fn parse_ip_attr(family: u8, payload: &[u8]) -> (ip: Option<IpAddr>)
    ensures
        ip == ip_attr(family, payload@),
{
    proof {
        lemma_pow256();
    }
    if family == AF_INET && payload.len() >= 4 {
        Some(IpAddr::V4(read_be(payload, 0, 4) as u32))
    } else if family == AF_INET6 && payload.len() >= 16 {
        Some(IpAddr::V6(read_be(payload, 0, 16)))
    } else {
        None
    }
}

/// What one attribute adds to a rule; `None` where the rule cannot be read.
pub open spec fn rule_with(
    order: ByteOrder,
    rule: PolicyRule,
    attr: (u16, Seq<u8>),
) -> Option<PolicyRule> {
    let number = u32_attr(order, attr.1);
    if attr.0 == FRA_PRIORITY {
        match number {
            Some(n) => Some(PolicyRule { priority: n, ..rule }),
            None => None,
        }
    } else if attr.0 == FRA_FWMARK {
        Some(PolicyRule { mark: number, ..rule })
    } else if attr.0 == FRA_FWMASK {
        Some(PolicyRule { mask: number, ..rule })
    } else if attr.0 == FRA_TABLE {
        match number {
            Some(n) => Some(PolicyRule { table: n, ..rule }),
            None => Some(rule),
        }
    } else if attr.0 == FRA_PROTOCOL {
        if attr.1.len() > 0 {
            Some(PolicyRule { protocol: attr.1[0], ..rule })
        } else {
            None
        }
    } else if (attr.0 == FRA_SUPPRESS_IFGROUP || attr.0 == FRA_SUPPRESS_PREFIXLEN) && number
        == Some(u32::MAX) {
        Some(rule)
    } else {
        Some(PolicyRule { supported: false, ..rule })
    }
}

/// What attributes add to a rule, in order.
pub open spec fn rule_with_all(
    order: ByteOrder,
    rule: PolicyRule,
    list: Seq<(u16, Seq<u8>)>,
) -> Option<PolicyRule>
    decreases list.len(),
{
    if list.len() == 0 {
        Some(rule)
    } else {
        match rule_with_all(order, rule, list.drop_last()) {
            Some(so_far) => rule_with(order, so_far, list.last()),
            None => None,
        }
    }
}

/// The rule that a header stands for.
pub open spec fn header_rule(order: ByteOrder, data: Seq<u8>) -> PolicyRule {
    PolicyRule {
        supported: data[7] == FR_ACT_TO_TBL && data[1] == 0 && data[2] == 0 && data[3] == 0
            && host_value(order, data.subrange(8, 12)) == 0,
        protocol: 0,
        priority: 0,
        mark: None,
        mask: None,
        table: data[4] as u32,
    }
}

/// The IPv4 rule that a message holds.
pub open spec fn policy_rule(order: ByteOrder, data: Seq<u8>) -> Option<PolicyRule> {
    if data.len() < 12 || data[0] != AF_INET || attrs_end(order, data, 12) == AttrEnd::BadLength {
        None
    } else {
        rule_with_all(order, header_rule(order, data), attrs(order, data, 12))
    }
}

fn add_rule_attr(order: ByteOrder, rule: PolicyRule, attr: &Attr) -> (next: Option<PolicyRule>)
    ensures
        next == rule_with(order, rule, attr_view(*attr)),
{
    let number = parse_u32_attr(order, attr.value.as_slice());
    let mut next = rule;
    if attr.kind == FRA_PRIORITY {
        match number {
            Some(n) => {
                next.priority = n;
            },
            None => {
                return None;
            },
        }
    } else if attr.kind == FRA_FWMARK {
        next.mark = number;
    } else if attr.kind == FRA_FWMASK {
        next.mask = number;
    } else if attr.kind == FRA_TABLE {
        if let Some(n) = number {
            next.table = n;
        }
    } else if attr.kind == FRA_PROTOCOL {
        if attr.value.len() == 0 {
            return None;
        }
        next.protocol = attr.value[0];
    } else {
        let unlimited = match number {
            Some(n) => n == u32::MAX,
            None => false,
        };
        if !((attr.kind == FRA_SUPPRESS_IFGROUP || attr.kind == FRA_SUPPRESS_PREFIXLEN)
            && unlimited) {
            next.supported = false;
        }
    }
    Some(next)
}

proof fn lemma_rule_stays_none(
    order: ByteOrder,
    rule: PolicyRule,
    list: Seq<(u16, Seq<u8>)>,
    n: int,
)
    requires
        0 <= n <= list.len(),
        rule_with_all(order, rule, list.take(n)) is None,
    ensures
        rule_with_all(order, rule, list) is None,
    decreases list.len() - n,
{
    if n < list.len() {
        assert(list.take(n + 1).drop_last() =~= list.take(n));
        lemma_rule_stays_none(order, rule, list, n + 1);
    } else {
        assert(list.take(n) =~= list);
    }
}

/// Reads an IPv4 policy rule.
pub fn parse_policy_rule(order: ByteOrder, data: &[u8]) -> (rule: Option<PolicyRule>)
    requires
        data.len() <= usize::MAX - 0x1_0000,
    ensures
        rule == policy_rule(order, data@),
{
    if data.len() < 12 || data[0] != AF_INET {
        return None;
    }
    let start = PolicyRule {
        supported: data[7] == FR_ACT_TO_TBL && data[1] == 0 && data[2] == 0 && data[3] == 0
            && read_host(order, data, 8, 4) == 0,
        protocol: 0,
        priority: 0,
        mark: None,
        mask: None,
        table: data[4] as u32,
    };
    let list = read_attrs(order, data, 12);
    if list.end == AttrEnd::BadLength {
        return None;
    }
    let ghost views = attr_views(list.items@);
    let mut rule = start;
    let mut i: usize = 0;
    while i < list.items.len()
        invariant
            i <= list.items.len(),
            views == attr_views(list.items@),
            views == attrs(order, data@, 12),
            start == header_rule(order, data@),
            data.len() >= 12,
            rule_with_all(order, start, views.take(i as int)) == Some(rule),
        decreases list.items.len() - i,
    {
        assert(views.take(i + 1).drop_last() =~= views.take(i as int));
        assert(views[i as int] == attr_view(list.items@[i as int]));
        match add_rule_attr(order, rule, &list.items[i]) {
            Some(next) => {
                rule = next;
            },
            None => {
                proof {
                    lemma_rule_stays_none(order, start, views, i + 1);
                }
                return None;
            },
        }
        i += 1;
    }
    assert(views.take(views.len() as int) =~= views);
    Some(rule)
}

/// What one attribute adds to a route.
pub open spec fn route_with(
    order: ByteOrder,
    route: RouteEntry,
    attr: (u16, Seq<u8>),
) -> RouteEntry {
    if attr.0 == RTA_DST {
        RouteEntry { dst: ip_attr(route.family, attr.1), ..route }
    } else if attr.0 == RTA_GATEWAY {
        RouteEntry { gateway: ip_attr(route.family, attr.1), ..route }
    } else if attr.0 == RTA_PREFSRC {
        RouteEntry { prefsrc: ip_attr(route.family, attr.1), ..route }
    } else if attr.0 == RTA_OIF {
        RouteEntry { oif: u32_attr(order, attr.1), ..route }
    } else if attr.0 == RTA_TABLE {
        match u32_attr(order, attr.1) {
            Some(table) => RouteEntry { table, ..route },
            None => route,
        }
    } else {
        RouteEntry { supported: false, ..route }
    }
}

/// What attributes add to a route, in order.
pub open spec fn route_with_all(
    order: ByteOrder,
    route: RouteEntry,
    list: Seq<(u16, Seq<u8>)>,
) -> RouteEntry
    decreases list.len(),
{
    if list.len() == 0 {
        route
    } else {
        route_with(order, route_with_all(order, route, list.drop_last()), list.last())
    }
}

/// The route that a header stands for.
pub open spec fn header_route(order: ByteOrder, data: Seq<u8>) -> RouteEntry {
    RouteEntry {
        supported: data[2] == 0 && data[3] == 0 && host_value(order, data.subrange(8, 12)) == 0
            && data[5] == RTPROT_STATIC && data[7] == RTN_UNICAST && data[6] == if data[1] == 0 {
            RT_SCOPE_UNIVERSE
        } else {
            RT_SCOPE_LINK
        },
        family: data[0],
        table: data[4] as u32,
        dst_len: data[1],
        dst: None,
        gateway: None,
        oif: None,
        prefsrc: None,
    }
}

/// The route that a message holds.
pub open spec fn route_entry(order: ByteOrder, data: Seq<u8>) -> Result<RouteEntry, RouteError> {
    if data.len() < 12 {
        Err(RouteError::ShortEntry)
    } else if attrs_end(order, data, 12) == AttrEnd::BadLength {
        Err(RouteError::ShortAttribute)
    } else {
        Ok(route_with_all(order, header_route(order, data), attrs(order, data, 12)))
    }
}

/// Reads a route.
pub fn parse_route_entry(order: ByteOrder, data: &[u8]) -> (route: Result<RouteEntry, RouteError>)
    requires
        data.len() <= usize::MAX - 0x1_0000,
    ensures
        route == route_entry(order, data@),
{
    if data.len() < 12 {
        return Err(RouteError::ShortEntry);
    }
    let scope: u8 = if data[1] == 0 {
        RT_SCOPE_UNIVERSE
    } else {
        RT_SCOPE_LINK
    };
    let start = RouteEntry {
        supported: data[2] == 0 && data[3] == 0 && read_host(order, data, 8, 4) == 0 && data[5]
            == RTPROT_STATIC && data[7] == RTN_UNICAST && data[6] == scope,
        family: data[0],
        table: data[4] as u32,
        dst_len: data[1],
        dst: None,
        gateway: None,
        oif: None,
        prefsrc: None,
    };
    let list = read_attrs(order, data, 12);
    if list.end == AttrEnd::BadLength {
        return Err(RouteError::ShortAttribute);
    }
    let ghost views = attr_views(list.items@);
    let mut route = start;
    let mut i: usize = 0;
    while i < list.items.len()
        invariant
            i <= list.items.len(),
            views == attr_views(list.items@),
            route == route_with_all(order, start, views.take(i as int)),
        decreases list.items.len() - i,
    {
        assert(views.take(i + 1).drop_last() =~= views.take(i as int));
        assert(views[i as int] == attr_view(list.items@[i as int]));
        let attr = &list.items[i];
        let value = attr.value.as_slice();
        if attr.kind == RTA_DST {
            route.dst = parse_ip_attr(route.family, value);
        } else if attr.kind == RTA_GATEWAY {
            route.gateway = parse_ip_attr(route.family, value);
        } else if attr.kind == RTA_PREFSRC {
            route.prefsrc = parse_ip_attr(route.family, value);
        } else if attr.kind == RTA_OIF {
            route.oif = parse_u32_attr(order, value);
        } else if attr.kind == RTA_TABLE {
            if let Some(table) = parse_u32_attr(order, value) {
                route.table = table;
            }
        } else {
            route.supported = false;
        }
        i += 1;
    }
    assert(views.take(views.len() as int) =~= views);
    Ok(route)
}

// ---------------------------------------------------------------------------
// Requests
// ---------------------------------------------------------------------------

/// The byte of a header that holds a table; larger tables stand in an attribute.
pub fn table_field(table: u32) -> (field: u8)
    ensures
        field == if table <= 255 { table as u8 } else { 0u8 },
{
    if table <= 255 {
        table as u8
    } else {
        0
    }
}

/// The body of a rule dump request.
pub fn rule_dump_body() -> (body: Vec<u8>)
    ensures
        body@ == seq![0u8, 0, 0, 0, 0, 0, 0, FR_ACT_TO_TBL, 0, 0, 0, 0],
{
    let mut body: Vec<u8> = Vec::new();
    let mut i: usize = 0;
    while i < 12
        invariant
            i <= 12,
            body.len() == i,
            forall|j: int| 0 <= j < i ==> body@[j] == if j == 7 { FR_ACT_TO_TBL } else { 0u8 },
        decreases 12 - i,
    {
        if i == 7 {
            body.push(FR_ACT_TO_TBL);
        } else {
            body.push(0);
        }
        i += 1;
    }
    assert(body@ =~= seq![0u8, 0, 0, 0, 0, 0, 0, FR_ACT_TO_TBL, 0, 0, 0, 0]);
    body
}

/// The body of a request for the routes of a table.
pub fn route_dump_body(order: ByteOrder, table: u32) -> (body: Vec<u8>)
    ensures
        body@ == seq![
            0u8,
            0,
            0,
            0,
            if table <= 255 { table as u8 } else { 0u8 },
            0,
            0,
            0,
            0,
            0,
            0,
            0,
        ] + host_bytes(order, 8, 2) + host_bytes(order, RTA_TABLE as nat, 2) + host_bytes(
            order,
            table as nat,
            4,
        ),
{
    let mut body: Vec<u8> = Vec::new();
    let mut i: usize = 0;
    let field = table_field(table);
    while i < 12
        invariant
            i <= 12,
            body.len() == i,
            forall|j: int| 0 <= j < i ==> body@[j] == if j == 4 { field } else { 0u8 },
        decreases 12 - i,
    {
        if i == 4 {
            body.push(field);
        } else {
            body.push(0);
        }
        i += 1;
    }
    assert(body@ =~= seq![0u8, 0, 0, 0, field, 0, 0, 0, 0, 0, 0, 0]);
    push_host(order, &mut body, 8, 2);
    push_host(order, &mut body, RTA_TABLE as u64, 2);
    push_host(order, &mut body, table as u64, 4);
    body
}

// ---------------------------------------------------------------------------
// Dumps
// ---------------------------------------------------------------------------

/// What a message of a dump means for the reader.
pub enum DumpStep {
    Skip,
    Fault(RouteError),
    Done,
    Entry,
}

/// What the message at `at` means, in a buffer of which `n` bytes were received.
/// Errors are read from the buffer, whatever the message's length.
pub open spec fn dump_step(
    order: ByteOrder,
    buf: Seq<u8>,
    n: int,
    at: int,
    seq: u32,
    entry_kind: u16,
) -> DumpStep {
    let header = header_at(order, buf, at);
    if header.len < 16 || at + header.len > n {
        DumpStep::Fault(RouteError::ShortDump)
    } else if header.seq != seq {
        DumpStep::Skip
    } else if header.flags & NLM_F_DUMP_INTR != 0 {
        DumpStep::Fault(RouteError::InterruptedDump)
    } else if header.kind == NLMSG_DONE {
        DumpStep::Done
    } else if header.kind == NLMSG_ERROR {
        if at + 20 > buf.len() {
            DumpStep::Fault(RouteError::ShortMessage)
        } else if signed32(host_value(order, buf.subrange(at + 16, at + 20))) == 0 {
            DumpStep::Done
        } else {
            DumpStep::Fault(
                RouteError::Kernel(
                    signed32(host_value(order, buf.subrange(at + 16, at + 20))) as i32,
                ),
            )
        }
    } else if header.kind == entry_kind {
        DumpStep::Entry
    } else {
        DumpStep::Skip
    }
}

/// The payload of the message at `at`.
pub open spec fn dump_payload(order: ByteOrder, buf: Seq<u8>, at: int) -> Seq<u8> {
    buf.subrange(at + 16, at + header_at(order, buf, at).len)
}

/// A rule dump after a datagram: the rules so far and whether it is complete.
pub open spec fn rules_from(
    order: ByteOrder,
    buf: Seq<u8>,
    n: int,
    at: int,
    seq: u32,
    rules: Seq<PolicyRule>,
) -> Result<(Seq<PolicyRule>, bool), RouteError>
    decreases n + 4 - at,
{
    if at + 16 > n {
        Ok((rules, false))
    } else {
        let next = at + align4(header_at(order, buf, at).len as int);
        match dump_step(order, buf, n, at, seq, RTM_NEWRULE) {
            DumpStep::Fault(error) => Err(error),
            DumpStep::Done => Ok((rules, true)),
            DumpStep::Skip => rules_from(order, buf, n, next, seq, rules),
            DumpStep::Entry => match policy_rule(order, dump_payload(order, buf, at)) {
                Some(rule) => rules_from(order, buf, n, next, seq, rules.push(rule)),
                None => rules_from(order, buf, n, next, seq, rules),
            },
        }
    }
}

/// A route dump after a datagram: the routes of a table so far and whether it is
/// complete.
pub open spec fn routes_from(
    order: ByteOrder,
    buf: Seq<u8>,
    n: int,
    at: int,
    seq: u32,
    table: u32,
    routes: Seq<RouteEntry>,
) -> Result<(Seq<RouteEntry>, bool), RouteError>
    decreases n + 4 - at,
{
    if at + 16 > n {
        Ok((routes, false))
    } else {
        let next = at + align4(header_at(order, buf, at).len as int);
        match dump_step(order, buf, n, at, seq, RTM_NEWROUTE) {
            DumpStep::Fault(error) => Err(error),
            DumpStep::Done => Ok((routes, true)),
            DumpStep::Skip => routes_from(order, buf, n, next, seq, table, routes),
            DumpStep::Entry => match route_entry(order, dump_payload(order, buf, at)) {
                Err(error) => Err(error),
                Ok(route) => routes_from(
                    order,
                    buf,
                    n,
                    next,
                    seq,
                    table,
                    if route.table == table {
                        routes.push(route)
                    } else {
                        routes
                    },
                ),
            },
        }
    }
}

/// What the message at `at` means, with its aligned length.
fn read_step(order: ByteOrder, buf: &[u8], n: usize, at: usize, seq: u32, entry_kind: u16) -> (
    step: (DumpStep, usize, usize))
    requires
        at + 16 <= n <= buf.len(),
        buf.len() <= 0x7fff_ffff,
    ensures
        step.0 == dump_step(order, buf@, n as int, at as int, seq, entry_kind),
        !(step.0 is Fault) ==> step.1 == header_at(order, buf@, at as int).len && 16 <= step.1
            && at + step.1 <= n && step.2 == align4(step.1 as int),
{
    let header = read_header(order, buf, at);
    let len: usize = header.len as usize;
    if len < 16 || len > n - at {
        return (DumpStep::Fault(RouteError::ShortDump), 0, 0);
    }
    let aligned: usize = align(len);
    if header.seq != seq {
        return (DumpStep::Skip, len, aligned);
    }
    if header.flags & NLM_F_DUMP_INTR != 0 {
        return (DumpStep::Fault(RouteError::InterruptedDump), 0, 0);
    }
    if header.kind == NLMSG_DONE {
        return (DumpStep::Done, len, aligned);
    }
    if header.kind == NLMSG_ERROR {
        if buf.len() - at < 20 {
            return (DumpStep::Fault(RouteError::ShortMessage), 0, 0);
        }
        let code: i32 = read_i32(order, buf, at + 16);
        if code == 0 {
            return (DumpStep::Done, len, aligned);
        }
        return (DumpStep::Fault(RouteError::Kernel(code)), 0, 0);
    }
    if header.kind == entry_kind {
        (DumpStep::Entry, len, aligned)
    } else {
        (DumpStep::Skip, len, aligned)
    }
}

/// Takes in one datagram of a rule dump. `received` is the length that the
/// kernel reports, which exceeds the buffer where the datagram was cut off.
pub fn read_rule_dump(
    order: ByteOrder,
    buf: &[u8],
    received: usize,
    seq: u32,
    rules: &mut Vec<PolicyRule>,
) -> (done: Result<bool, RouteError>)
    requires
        buf.len() <= 0x7fff_ffff,
    ensures
        match done {
            Err(error) => if received > buf.len() {
                error == RouteError::TruncatedDump
            } else {
                rules_from(order, buf@, received as int, 0, seq, old(rules)@) == Err::<
                    (Seq<PolicyRule>, bool),
                    RouteError,
                >(error)
            },
            Ok(done) => received <= buf.len() && rules_from(
                order,
                buf@,
                received as int,
                0,
                seq,
                old(rules)@,
            ) == Ok::<(Seq<PolicyRule>, bool), RouteError>((final(rules)@, done)),
        },
{
    if received > buf.len() {
        return Err(RouteError::TruncatedDump);
    }
    let ghost whole = rules_from(order, buf@, received as int, 0, seq, rules@);
    let mut at: usize = 0;
    while at <= received && received - at >= 16
        invariant
            received <= buf.len() <= 0x7fff_ffff,
            at <= received + 3,
            whole == rules_from(order, buf@, received as int, 0, seq, old(rules)@),
            whole == rules_from(order, buf@, received as int, at as int, seq, rules@),
        decreases received + 4 - at,
    {
        let (step, len, aligned) = read_step(order, buf, received, at, seq, RTM_NEWRULE);
        match step {
            DumpStep::Fault(error) => {
                return Err(error);
            },
            DumpStep::Done => {
                return Ok(true);
            },
            DumpStep::Skip => {},
            DumpStep::Entry => {
                let payload = copy_bytes(buf, at + 16, at + len);
                if let Some(rule) = parse_policy_rule(order, payload.as_slice()) {
                    rules.push(rule);
                }
            },
        }
        at = at + aligned;
    }
    Ok(false)
}

/// Takes in one datagram of a route dump.
pub fn read_route_dump(
    order: ByteOrder,
    buf: &[u8],
    received: usize,
    seq: u32,
    table: u32,
    routes: &mut Vec<RouteEntry>,
) -> (done: Result<bool, RouteError>)
    requires
        buf.len() <= 0x7fff_ffff,
    ensures
        match done {
            Err(error) => if received > buf.len() {
                error == RouteError::TruncatedDump
            } else {
                routes_from(order, buf@, received as int, 0, seq, table, old(routes)@) == Err::<
                    (Seq<RouteEntry>, bool),
                    RouteError,
                >(error)
            },
            Ok(done) => received <= buf.len() && routes_from(
                order,
                buf@,
                received as int,
                0,
                seq,
                table,
                old(routes)@,
            ) == Ok::<(Seq<RouteEntry>, bool), RouteError>((final(routes)@, done)),
        },
{
    if received > buf.len() {
        return Err(RouteError::TruncatedDump);
    }
    let ghost whole = routes_from(order, buf@, received as int, 0, seq, table, routes@);
    let mut at: usize = 0;
    while at <= received && received - at >= 16
        invariant
            received <= buf.len() <= 0x7fff_ffff,
            at <= received + 3,
            whole == routes_from(order, buf@, received as int, 0, seq, table, old(routes)@),
            whole == routes_from(order, buf@, received as int, at as int, seq, table, routes@),
        decreases received + 4 - at,
    {
        let (step, len, aligned) = read_step(order, buf, received, at, seq, RTM_NEWROUTE);
        match step {
            DumpStep::Fault(error) => {
                return Err(error);
            },
            DumpStep::Done => {
                return Ok(true);
            },
            DumpStep::Skip => {},
            DumpStep::Entry => {
                let payload = copy_bytes(buf, at + 16, at + len);
                match parse_route_entry(order, payload.as_slice()) {
                    Err(error) => {
                        return Err(error);
                    },
                    Ok(route) => {
                        if route.table == table {
                            routes.push(route);
                        }
                    },
                }
            },
        }
        at = at + aligned;
    }
    Ok(false)
}

// ---------------------------------------------------------------------------
// Ownership
// ---------------------------------------------------------------------------

/// The rules and routes that were created here, in one boot and namespace.
#[derive(Clone, Debug)]
pub struct RouteOwnership {
    pub scope: String,
    pub rules: Vec<PolicyRule>,
    pub routes: Vec<RouteEntry>,
}

impl Default for RouteOwnership {
    fn default() -> (ownership: Self)
        ensures
            ownership.scope@.len() == 0,
            ownership.rules@.len() == 0,
            ownership.routes@.len() == 0,
    {
        RouteOwnership { scope: String::new(), rules: Vec::new(), routes: Vec::new() }
    }
}

impl RouteOwnership {
    /// The record for a scope: a stored one counts only in the boot and namespace
    /// that it was written in.
    pub fn decode(stored: Option<RouteOwnership>, scope: String) -> (ownership: Self)
        ensures
            ownership.scope@ == scope@,
            match stored {
                Some(stored) if stored.scope@ == scope@ => ownership.rules@ == stored.rules@
                    && ownership.routes@ == stored.routes@,
                _ => ownership.rules@.len() == 0 && ownership.routes@.len() == 0,
            },
    {
        match stored {
            Some(stored) => if stored.scope == scope {
                stored
            } else {
                RouteOwnership { scope, rules: Vec::new(), routes: Vec::new() }
            },
            None => {
                let empty = RouteOwnership::default();
                if empty.scope == scope {
                    empty
                } else {
                    RouteOwnership { scope, rules: Vec::new(), routes: Vec::new() }
                }
            },
        }
    }

    /// Whether a rule was created here.
    pub open spec fn has_rule(self, rule: PolicyRule) -> bool {
        rule.supported && self.rules@.contains(rule)
    }

    /// Whether a route was created here.
    pub open spec fn has_route(self, route: RouteEntry) -> bool {
        route.supported && self.routes@.contains(route)
    }

    /// Whether a rule was created here: all of it must agree.
    pub fn owns_rule(&self, rule: &PolicyRule) -> (owned: bool)
        ensures
            owned == self.has_rule(*rule),
    {
        if !rule.supported {
            return false;
        }
        let mut i: usize = 0;
        while i < self.rules.len()
            invariant
                i <= self.rules.len(),
                rule.supported,
                forall|j: int| 0 <= j < i ==> self.rules@[j] != *rule,
            decreases self.rules.len() - i,
        {
            if same_rule(&self.rules[i], rule) {
                assert(self.rules@[i as int] == *rule);
                return true;
            }
            i += 1;
        }
        false
    }

    /// Whether a route was created here: all of it must agree.
    pub fn owns_route(&self, route: &RouteEntry) -> (owned: bool)
        ensures
            owned == self.has_route(*route),
    {
        if !route.supported {
            return false;
        }
        let mut i: usize = 0;
        while i < self.routes.len()
            invariant
                i <= self.routes.len(),
                route.supported,
                forall|j: int| 0 <= j < i ==> self.routes@[j] != *route,
            decreases self.routes.len() - i,
        {
            if same_entry(&self.routes[i], route) {
                assert(self.routes@[i as int] == *route);
                return true;
            }
            i += 1;
        }
        false
    }
}

fn same_number(a: Option<u32>, b: Option<u32>) -> (same: bool)
    ensures
        same == (a == b),
{
    match (a, b) {
        (Some(a), Some(b)) => a == b,
        (None, None) => true,
        _ => false,
    }
}

fn same_ip(a: Option<IpAddr>, b: Option<IpAddr>) -> (same: bool)
    ensures
        same == (a == b),
{
    match (a, b) {
        (Some(a), Some(b)) => a == b,
        (None, None) => true,
        _ => false,
    }
}

fn same_rule(a: &PolicyRule, b: &PolicyRule) -> (same: bool)
    ensures
        same == (*a == *b),
{
    a.supported == b.supported && a.protocol == b.protocol && a.priority == b.priority
        && same_number(a.mark, b.mark) && same_number(a.mask, b.mask) && a.table == b.table
}

fn same_entry(a: &RouteEntry, b: &RouteEntry) -> (same: bool)
    ensures
        same == (*a == *b),
{
    a.supported == b.supported && a.family == b.family && a.table == b.table && a.dst_len
        == b.dst_len && same_ip(a.dst, b.dst) && same_ip(a.gateway, b.gateway) && same_number(
        a.oif,
        b.oif,
    ) && same_ip(a.prefsrc, b.prefsrc)
}

/// Whether a rule claims the mark of a return route. An unmarked rule claims
/// none; an absent mask covers the whole mark.
pub open spec fn claims_mark(rule: PolicyRule, mark: u32) -> bool {
    match rule.mark {
        None => false,
        Some(claimed) => {
            let mask = match rule.mask {
                Some(mask) => mask,
                None => u32::MAX,
            };
            mark & mask == claimed & mask
        },
    }
}

/// Whether a rule stands in the way of a return route.
pub open spec fn rule_conflicts(rule: PolicyRule, want: ReturnRoute) -> bool {
    rule.table == want.table || claims_mark(rule, want.mark)
}

/// Whether a foreign rule stands in the way of any return route.
pub open spec fn foreign_conflict(
    rule: PolicyRule,
    desired: Seq<ReturnRoute>,
    ownership: RouteOwnership,
) -> bool {
    !ownership.has_rule(rule) && exists|i: int|
        0 <= i < desired.len() && rule_conflicts(rule, #[trigger] desired[i])
}

fn conflicts_with_any(rule: &PolicyRule, desired: &[ReturnRoute]) -> (b: bool)
    ensures
        b == exists|i: int| 0 <= i < desired.len() && rule_conflicts(*rule, #[trigger] desired@[i]),
{
    let mut i: usize = 0;
    while i < desired.len()
        invariant
            i <= desired.len(),
            forall|j: int| 0 <= j < i ==> !rule_conflicts(*rule, #[trigger] desired@[j]),
        decreases desired.len() - i,
    {
        let want = desired[i];
        let claims = match rule.mark {
            None => false,
            Some(claimed) => {
                let mask: u32 = match rule.mask {
                    Some(mask) => mask,
                    None => u32::MAX,
                };
                want.mark & mask == claimed & mask
            },
        };
        if rule.table == want.table || claims {
            assert(rule_conflicts(*rule, desired@[i as int]));
            return true;
        }
        i += 1;
    }
    false
}

/// Accepts the kernel's rules unless a foreign one stands in the way; the error
/// names the first that does.
pub fn validate_rules(
    rules: &[PolicyRule],
    desired: &[ReturnRoute],
    ownership: &RouteOwnership,
) -> (ok: Result<(), RouteError>)
    ensures
        match ok {
            Ok(()) => forall|i: int|
                0 <= i < rules.len() ==> !foreign_conflict(
                    #[trigger] rules@[i],
                    desired@,
                    *ownership,
                ),
            Err(RouteError::RuleConflict(at)) => at < rules.len() && foreign_conflict(
                rules@[at as int],
                desired@,
                *ownership,
            ) && forall|i: int|
                0 <= i < at ==> !foreign_conflict(#[trigger] rules@[i], desired@, *ownership),
            Err(_) => false,
        },
{
    let mut i: usize = 0;
    while i < rules.len()
        invariant
            i <= rules.len(),
            forall|j: int|
                0 <= j < i ==> !foreign_conflict(#[trigger] rules@[j], desired@, *ownership),
        decreases rules.len() - i,
    {
        if !ownership.owns_rule(&rules[i]) && conflicts_with_any(&rules[i], desired) {
            assert(foreign_conflict(rules@[i as int], desired@, *ownership));
            return Err(RouteError::RuleConflict(i));
        }
        i += 1;
    }
    Ok(())
}

/// Accepts a return table if every route in it was created here; the error names
/// the first that was not.
pub fn validate_table(current: &[RouteEntry], ownership: &RouteOwnership) -> (ok: Result<
    (),
    RouteError,
>)
    ensures
        match ok {
            Ok(()) => forall|i: int|
                0 <= i < current.len() ==> ownership.has_route(#[trigger] current@[i]),
            Err(RouteError::ForeignRoute(at)) => at < current.len() && !ownership.has_route(
                current@[at as int],
            ) && forall|i: int| 0 <= i < at ==> ownership.has_route(#[trigger] current@[i]),
            Err(_) => false,
        },
{
    let mut i: usize = 0;
    while i < current.len()
        invariant
            i <= current.len(),
            forall|j: int| 0 <= j < i ==> ownership.has_route(#[trigger] current@[j]),
        decreases current.len() - i,
    {
        if !ownership.owns_route(&current[i]) {
            return Err(RouteError::ForeignRoute(i));
        }
        i += 1;
    }
    Ok(())
}

/// Whether an own rule serves a return route: its whole mark, its table.
pub open spec fn serves(rule: PolicyRule, route: ReturnRoute, ownership: RouteOwnership) -> bool {
    ownership.has_rule(rule) && rule.mark == Some(route.mark) && rule.mask == Some(u32::MAX)
        && rule.table == route.table
}

/// Whether a return route has an own rule.
pub open spec fn served(
    rules: Seq<PolicyRule>,
    route: ReturnRoute,
    ownership: RouteOwnership,
) -> bool {
    exists|j: int| 0 <= j < rules.len() && serves(#[trigger] rules[j], route, ownership)
}

/// Whether every return route has an own rule.
pub fn policy_rule_present(
    desired: &[ReturnRoute],
    rules: &[PolicyRule],
    ownership: &RouteOwnership,
) -> (present: bool)
    ensures
        present == forall|i: int|
            0 <= i < desired.len() ==> served(rules@, #[trigger] desired@[i], *ownership),
{
    let mut i: usize = 0;
    while i < desired.len()
        invariant
            i <= desired.len(),
            forall|k: int| 0 <= k < i ==> served(rules@, #[trigger] desired@[k], *ownership),
        decreases desired.len() - i,
    {
        let route = desired[i];
        let mut found: bool = false;
        let mut j: usize = 0;
        while j < rules.len() && !found
            invariant
                j <= rules.len(),
                found ==> served(rules@, route, *ownership),
                !found ==> forall|k: int|
                    0 <= k < j ==> !serves(#[trigger] rules@[k], route, *ownership),
            decreases rules.len() - j,
        {
            let rule = &rules[j];
            if ownership.owns_rule(rule) && same_number(rule.mark, Some(route.mark))
                && same_number(rule.mask, Some(u32::MAX)) && rule.table == route.table {
                assert(serves(rules@[j as int], route, *ownership));
                found = true;
            }
            j += 1;
        }
        if !found {
            assert(!served(rules@, desired@[i as int], *ownership));
            return false;
        }
        i += 1;
    }
    true
}

// ---------------------------------------------------------------------------
// Descriptions
// ---------------------------------------------------------------------------

/// The destination of a route in words.
pub open spec fn dst_words(route: RouteEntry) -> Seq<char> {
    match route.dst {
        Some(ip) => ip_text(ip).push('/') + decimal(route.dst_len as nat),
        None => "default"@,
    }
}

/// An optional address in words.
pub open spec fn ip_words(lead: Seq<char>, ip: Option<IpAddr>) -> Seq<char> {
    match ip {
        Some(ip) => lead + ip_text(ip),
        None => Seq::empty(),
    }
}

/// The device of a route in words.
pub open spec fn oif_words(
    oif: Option<u32>,
    vxlan: Option<(Seq<char>, u32)>,
    underlay: Option<(Seq<char>, u32)>,
) -> Seq<char> {
    match oif {
        Some(index) => (" dev "@ + device_words(index, vxlan, underlay)).push('(') + decimal(
            index as nat,
        ).push(')'),
        None => Seq::empty(),
    }
}

/// A route in words. The device is named where its index is known.
pub open spec fn route_words(
    route: RouteEntry,
    vxlan: Option<(Seq<char>, u32)>,
    underlay: Option<(Seq<char>, u32)>,
) -> Seq<char> {
    dst_words(route) + ip_words(" via "@, route.gateway) + oif_words(route.oif, vxlan, underlay)
        + ip_words(" src "@, route.prefsrc) + " table "@ + decimal(route.table as nat)
}

/// The name of a device by its index.
pub open spec fn device_words(
    index: u32,
    vxlan: Option<(Seq<char>, u32)>,
    underlay: Option<(Seq<char>, u32)>,
) -> Seq<char> {
    match (vxlan, underlay) {
        (Some((name, known)), _) if known == index => name,
        (_, Some((name, known))) if known == index => name,
        _ => "ifindex"@,
    }
}

/// A device whose index is known, as plain values.
pub open spec fn known_device(device: Option<(&str, u32)>) -> Option<(Seq<char>, u32)> {
    match device {
        Some((name, index)) => Some((name@, index)),
        None => None,
    }
}

fn push_ip_words(text: &mut String, lead: &str, ip: Option<IpAddr>)
    ensures
        final(text)@ == old(text)@ + ip_words(lead@, ip),
{
    match ip {
        Some(ip) => {
            text.append(lead);
            push_ip(text, ip);
            assert(text@ =~= old(text)@ + ip_words(lead@, Some(ip)));
        },
        None => {
            assert(old(text)@ + Seq::<char>::empty() =~= old(text)@);
        },
    }
}

fn device_name<'a>(
    index: u32,
    vxlan: Option<(&'a str, u32)>,
    underlay: Option<(&'a str, u32)>,
) -> (name: &'a str)
    ensures
        name@ == device_words(index, known_device(vxlan), known_device(underlay)),
{
    if let Some((name, known)) = vxlan {
        if known == index {
            return name;
        }
    }
    if let Some((name, known)) = underlay {
        if known == index {
            return name;
        }
    }
    "ifindex"
}

fn push_oif_words(
    text: &mut String,
    oif: Option<u32>,
    vxlan: Option<(&str, u32)>,
    underlay: Option<(&str, u32)>,
)
    ensures
        final(text)@ == old(text)@ + oif_words(oif, known_device(vxlan), known_device(underlay)),
{
    match oif {
        Some(index) => {
            text.append(" dev ");
            text.append(device_name(index, vxlan, underlay));
            text.push('(');
            push_decimal(text, index as u64);
            text.push(')');
            assert(text@ =~= old(text)@ + oif_words(
                Some(index),
                known_device(vxlan),
                known_device(underlay),
            ));
        },
        None => {
            assert(old(text)@ + Seq::<char>::empty() =~= old(text)@);
        },
    }
}

impl RouteEntry {
    /// This route in words.
    pub fn describe(&self, vxlan: Option<(&str, u32)>, underlay: Option<(&str, u32)>) -> (text:
        String)
        ensures
            text@ == route_words(*self, known_device(vxlan), known_device(underlay)),
    {
        let mut text = String::new();
        match self.dst {
            Some(ip) => {
                push_ip(&mut text, ip);
                text.push('/');
                push_decimal(&mut text, self.dst_len as u64);
            },
            None => {
                text.append("default");
            },
        }
        assert(text@ =~= dst_words(*self));
        push_ip_words(&mut text, " via ", self.gateway);
        push_oif_words(&mut text, self.oif, vxlan, underlay);
        push_ip_words(&mut text, " src ", self.prefsrc);
        text.append(" table ");
        push_decimal(&mut text, self.table as u64);
        text
    }
}

/// Routes in words.
pub fn route_descriptions(
    routes: &[RouteEntry],
    vxlan: Option<(&str, u32)>,
    underlay: Option<(&str, u32)>,
) -> (texts: Vec<String>)
    ensures
        texts.len() == routes.len(),
        forall|i: int|
            0 <= i < routes.len() ==> (#[trigger] texts@[i])@ == route_words(
                routes@[i],
                known_device(vxlan),
                known_device(underlay),
            ),
{
    let mut texts: Vec<String> = Vec::new();
    let mut i: usize = 0;
    while i < routes.len()
        invariant
            i <= routes.len(),
            texts.len() == i,
            forall|j: int|
                0 <= j < i ==> (#[trigger] texts@[j])@ == route_words(
                    routes@[j],
                    known_device(vxlan),
                    known_device(underlay),
                ),
        decreases routes.len() - i,
    {
        texts.push(routes[i].describe(vxlan, underlay));
        i += 1;
    }
    texts
}

// ---------------------------------------------------------------------------
// Laws
// ---------------------------------------------------------------------------

/// Shape establishes no ownership: with an empty record nothing is owned.
pub proof fn law_shape_is_not_ownership(
    ownership: RouteOwnership,
    rule: PolicyRule,
    route: RouteEntry,
)
    requires
        ownership.rules@.len() == 0,
        ownership.routes@.len() == 0,
    ensures
        !ownership.has_rule(rule),
        !ownership.has_route(route),
{
}

/// An object with a selector that own objects never have is never owned, even if
/// the record holds it.
pub proof fn law_unsupported_is_never_owned(
    ownership: RouteOwnership,
    rule: PolicyRule,
    route: RouteEntry,
)
    ensures
        !rule.supported ==> !ownership.has_rule(rule),
        !route.supported ==> !ownership.has_route(route),
{
}

/// Support is lost for good: no later attribute brings it back.
pub proof fn law_selectors_cannot_be_ignored(
    order: ByteOrder,
    rule: PolicyRule,
    route: RouteEntry,
    list: Seq<(u16, Seq<u8>)>,
)
    ensures
        !rule.supported ==> (rule_with_all(order, rule, list) matches Some(read)
            ==> !read.supported),
        !route.supported ==> !route_with_all(order, route, list).supported,
    decreases list.len(),
{
    if list.len() > 0 {
        law_selectors_cannot_be_ignored(order, rule, route, list.drop_last());
    }
}

/// The return routes of a configuration hold each asked-for route, and no other.
pub proof fn law_return_routes_cover_paths(paths: Seq<GatewayReturnPath>, route: ReturnRoute)
    ensures
        deduped(sorted(path_routes(paths))).contains(route) <==> path_routes(paths).contains(route),
{
    broadcast use vstd::seq_lib::group_to_multiset_ensures;

    crate::order::law_sorting_permutes(path_routes(paths));
    let s = sorted(path_routes(paths));
    assert(s.contains(route) <==> s.to_multiset().count(route) > 0);
    assert(path_routes(paths).contains(route) <==> path_routes(paths).to_multiset().count(route)
        > 0);
    lemma_deduped_keeps(s, route);
}

proof fn lemma_deduped_keeps(s: Seq<ReturnRoute>, route: ReturnRoute)
    ensures
        deduped(s).contains(route) <==> s.contains(route),
    decreases s.len(),
{
    if s.len() > 1 {
        let front = s.drop_last();
        lemma_deduped_keeps(front, route);
        assert(s.contains(route) <==> (front.contains(route) || route == s.last())) by {
            if front.contains(route) {
                let i = choose|i: int| 0 <= i < front.len() && front[i] == route;
                assert(s[i] == route);
            }
            if route == s.last() {
                assert(s[s.len() - 1] == route);
            }
            if s.contains(route) && route != s.last() {
                let i = choose|i: int| 0 <= i < s.len() && s[i] == route;
                assert(front[i] == route);
            }
        }
        if s.last() == s[s.len() - 2] {
            assert(front[s.len() - 2] == s.last());
        } else {
            let d = deduped(front);
            assert(d.push(s.last()).contains(route) <==> (d.contains(route) || route == s.last()))
                by {
                if d.contains(route) {
                    let i = choose|i: int| 0 <= i < d.len() && d[i] == route;
                    assert(d.push(s.last())[i] == route);
                }
                if route == s.last() {
                    assert(d.push(s.last())[d.len() as int] == route);
                }
                if d.push(s.last()).contains(route) && route != s.last() {
                    let i = choose|i: int|
                        0 <= i < d.push(s.last()).len() && d.push(s.last())[i] == route;
                    assert(d[i] == route);
                }
            }
        }
    }
}

/// The route of a return path leads to the gateway of the path, under its mark, in its table.
pub proof fn law_paths_have_their_routes(paths: Seq<GatewayReturnPath>, i: int)
    requires
        0 <= i < paths.len(),
    ensures
        path_routes(paths)[i].gateway_underlay == paths[i].gateway_underlay_ip,
        path_routes(paths)[i].gateway_overlay == paths[i].gateway_overlay_ip,
        path_routes(paths)[i].mark == paths[i].mark,
        path_routes(paths)[i].table == paths[i].route_table_id,
{
}

/// A codepoint above 63 is refused, the first of them; where none is, none is.
pub proof fn law_codepoints_have_six_bits(paths: Seq<GatewayReturnPath>, i: int)
    ensures
        0 <= i < paths.len() && paths[i].dscp > 63 ==> first_bad_dscp(paths) is Some,
        first_bad_dscp(paths) matches Some(dscp) ==> dscp > 63,
        0 <= i < paths.len() && paths[i].dscp > 63 && (forall|k: int|
            0 <= k < i ==> (#[trigger] paths[k]).dscp <= 63) ==> first_bad_dscp(paths) == Some(
            paths[i].dscp,
        ),
        (forall|k: int| 0 <= k < paths.len() ==> (#[trigger] paths[k]).dscp <= 63)
            ==> first_bad_dscp(paths) is None,
    decreases paths.len(),
{
    if paths.len() > 0 {
        let rest = paths.skip(1);
        assert(forall|k: int| 0 <= k < rest.len() ==> #[trigger] rest[k] == paths[k + 1]);
        law_codepoints_have_six_bits(rest, i - 1);
        if 0 < i < paths.len() {
            assert(rest[i - 1] == paths[i]);
        }
    }
}

/// Each attribute of a rule is read where the kernel puts it; a selector that own rules never
/// have costs the rule its support.
pub proof fn law_rule_attributes_are_read(
    order: ByteOrder,
    rule: PolicyRule,
    payload: Seq<u8>,
    n: u32,
    kind: u16,
)
    requires
        payload.len() == 4,
        host_value(order, payload) == n,
    ensures
        rule_with(order, rule, (6, payload)) == Some(PolicyRule { priority: n, ..rule }),
        rule_with(order, rule, (10, payload)) == Some(PolicyRule { mark: Some(n), ..rule }),
        rule_with(order, rule, (16, payload)) == Some(PolicyRule { mask: Some(n), ..rule }),
        rule_with(order, rule, (15, payload)) == Some(PolicyRule { table: n, ..rule }),
        rule_with(order, rule, (21, payload)) == Some(PolicyRule { protocol: payload[0], ..rule }),
        n == u32::MAX ==> rule_with(order, rule, (13, payload)) == Some(rule) && rule_with(
            order,
            rule,
            (14, payload),
        ) == Some(rule),
        n != u32::MAX ==> rule_with(order, rule, (14, payload)) == Some(
            PolicyRule { supported: false, ..rule },
        ),
        kind != 6 && kind != 10 && kind != 13 && kind != 14 && kind != 15 && kind != 16 && kind
            != 21 ==> rule_with(order, rule, (kind, payload)) == Some(
            PolicyRule { supported: false, ..rule },
        ),
{
    assert(payload.subrange(0, 4) =~= payload);
}

/// Each attribute of a route is read where the kernel puts it; one that own routes never have
/// costs the route its support.
pub proof fn law_route_attributes_are_read(
    order: ByteOrder,
    route: RouteEntry,
    payload: Seq<u8>,
    n: u32,
    ip: u32,
    kind: u16,
)
    requires
        route.family == 2,
        payload.len() == 4,
        host_value(order, payload) == n,
        be_value(payload) == ip,
    ensures
        route_with(order, route, (1, payload)) == (RouteEntry { dst: Some(IpAddr::V4(ip)), ..route }),
        route_with(order, route, (5, payload)) == (RouteEntry {
            gateway: Some(IpAddr::V4(ip)),
            ..route
        }),
        route_with(order, route, (7, payload)) == (RouteEntry {
            prefsrc: Some(IpAddr::V4(ip)),
            ..route
        }),
        route_with(order, route, (4, payload)) == (RouteEntry { oif: Some(n), ..route }),
        route_with(order, route, (15, payload)) == (RouteEntry { table: n, ..route }),
        kind != 1 && kind != 4 && kind != 5 && kind != 7 && kind != 15 ==> route_with(
            order,
            route,
            (kind, payload),
        ) == (RouteEntry { supported: false, ..route }),
{
    assert(payload.subrange(0, 4) =~= payload);
}

/// The header of a rule holds its table, and supports it only where it leads to a table and
/// selects nothing; rules of another family are not read.
pub proof fn law_rule_headers_are_read(order: ByteOrder, data: Seq<u8>)
    requires
        data.len() == 12,
        attrs(order, data, 12).len() == 0,
        attrs_end(order, data, 12) != AttrEnd::BadLength,
    ensures
        data[0] != 2 ==> policy_rule(order, data) is None,
        data[0] == 2 ==> (policy_rule(order, data) matches Some(rule) && rule.table == data[4]
            && rule.priority == 0 && rule.mark is None && rule.mask is None && (rule.supported
            <==> data[7] == 1 && data[1] == 0 && data[2] == 0 && data[3] == 0 && host_value(
            order,
            data.subrange(8, 12),
        ) == 0)),
{
}

/// The header of a route holds its family, its table and the length of its prefix, and
/// supports it only where it is a static unicast route of the right scope and selects
/// nothing.
pub proof fn law_route_headers_are_read(order: ByteOrder, data: Seq<u8>)
    requires
        data.len() == 12,
        attrs(order, data, 12).len() == 0,
        attrs_end(order, data, 12) != AttrEnd::BadLength,
    ensures
        route_entry(order, data) matches Ok(route) && route.family == data[0] && route.table
            == data[4] && route.dst_len == data[1] && route.dst is None && route.gateway is None
            && route.oif is None && route.prefsrc is None && (route.supported <==> data[2] == 0
            && data[3] == 0 && data[5] == 4 && data[7] == 1 && host_value(
            order,
            data.subrange(8, 12),
        ) == 0 && (data[1] == 0 ==> data[6] == 0) && (data[1] != 0 ==> data[6] == 253)),
{
}

/// An address attribute is read in the length of its family, and in no other family.
pub proof fn law_addresses_have_a_family(payload: Seq<u8>, family: u8)
    ensures
        payload.len() >= 4 ==> ip_attr(2, payload) == Some(
            IpAddr::V4(be_value(payload.subrange(0, 4)) as u32),
        ),
        payload.len() < 4 ==> ip_attr(2, payload) is None,
        payload.len() >= 16 ==> ip_attr(10, payload) == Some(
            IpAddr::V6(be_value(payload.subrange(0, 16)) as u128),
        ),
        payload.len() < 16 ==> ip_attr(10, payload) is None,
        family != 2 && family != 10 ==> ip_attr(family, payload) is None,
{
}

/// A rule claims a mark that agrees with its own in every bit of its mask, and in all bits
/// without one; a rule without a mark claims none.
pub proof fn law_marks_are_claimed(rule: PolicyRule, claimed: u32, mark: u32)
    ensures
        rule.mark is None ==> !claims_mark(rule, mark),
        rule.mark == Some(claimed) && rule.mask is None ==> claims_mark(rule, mark) == (mark
            == claimed),
        rule.mark == Some(claimed) && rule.mask == Some(u32::MAX) ==> claims_mark(rule, mark) == (
        mark == claimed),
        rule.mark == Some(claimed) && rule.mask == Some(0u32) ==> claims_mark(rule, mark),
        rule.mark == Some(claimed) && mark == claimed ==> claims_mark(rule, mark),
{
    assert(mark & 0xffff_ffff == mark && claimed & 0xffff_ffff == claimed && mark & 0 == 0
        && claimed & 0 == 0) by (bit_vector);
}

/// A rule that was not created here stands in the way of a return route whose table or mark it
/// takes; one that was created here never does.
pub proof fn law_foreign_rules_stand_in_the_way(
    rule: PolicyRule,
    desired: Seq<ReturnRoute>,
    ownership: RouteOwnership,
    i: int,
)
    requires
        0 <= i < desired.len(),
    ensures
        !ownership.has_rule(rule) && rule.table == desired[i].table ==> foreign_conflict(
            rule,
            desired,
            ownership,
        ),
        !ownership.has_rule(rule) && rule.mark == Some(desired[i].mark) ==> foreign_conflict(
            rule,
            desired,
            ownership,
        ),
        ownership.has_rule(rule) ==> !foreign_conflict(rule, desired, ownership),
        (forall|k: int|
            0 <= k < desired.len() ==> (#[trigger] desired[k]).table != rule.table) && rule.mark
            is None ==> !foreign_conflict(rule, desired, ownership),
{
    assert(rule.mark == Some(desired[i].mark) ==> claims_mark(rule, desired[i].mark));
    assert(rule_conflicts(rule, desired[i]) ==> exists|k: int|
        0 <= k < desired.len() && rule_conflicts(rule, #[trigger] desired[k]));
}

/// A return route is served by a rule that was created here for its whole mark and its table,
/// and by no other.
pub proof fn law_own_rules_serve(
    rules: Seq<PolicyRule>,
    route: ReturnRoute,
    ownership: RouteOwnership,
    j: int,
)
    requires
        0 <= j < rules.len(),
    ensures
        rules[j].supported && ownership.rules@.contains(rules[j]) && rules[j].mark == Some(
            route.mark,
        ) && rules[j].mask == Some(u32::MAX) && rules[j].table == route.table ==> served(
            rules,
            route,
            ownership,
        ),
        (forall|k: int|
            0 <= k < rules.len() ==> (#[trigger] rules[k]).table != route.table || rules[k].mark
                != Some(route.mark)) ==> !served(rules, route, ownership),
{
    assert(serves(rules[j], route, ownership) ==> served(rules, route, ownership));
}

/// A dump goes by the answers to its own request: what is cut off is refused, what belongs to
/// another request is passed over, a disturbed dump is refused, and the end ends it.
pub proof fn law_dumps_are_followed(
    order: ByteOrder,
    buf: Seq<u8>,
    n: int,
    at: int,
    seq: u32,
    entry_kind: u16,
)
    requires
        entry_kind != 2,
        entry_kind != 3,
    ensures
        ({
            let header = header_at(order, buf, at);
            let step = dump_step(order, buf, n, at, seq, entry_kind);
            let whole = header.len >= 16 && at + header.len <= n;
            let ours = whole && header.seq == seq;
            let sound = ours && header.flags & 16 == 0;
            &&& !whole ==> step == DumpStep::Fault(RouteError::ShortDump)
            &&& whole && header.seq != seq ==> step == DumpStep::Skip
            &&& ours && header.flags & 16 != 0 ==> step == DumpStep::Fault(
                RouteError::InterruptedDump,
            )
            &&& sound && header.kind == 3 ==> step == DumpStep::Done
            &&& sound && header.kind == entry_kind ==> step == DumpStep::Entry
            &&& sound && header.kind != 2 && header.kind != 3 && header.kind != entry_kind ==> step
                == DumpStep::Skip
            &&& sound && header.kind == 2 && at + 20 > buf.len() ==> step == DumpStep::Fault(
                RouteError::ShortMessage,
            )
            &&& sound && header.kind == 2 && at + 20 <= buf.len() && signed32(
                host_value(order, buf.subrange(at + 16, at + 20)),
            ) == 0 ==> step == DumpStep::Done
            &&& sound && header.kind == 2 && at + 20 <= buf.len() && signed32(
                host_value(order, buf.subrange(at + 16, at + 20)),
            ) != 0 ==> step is Fault
        }),
{
}

/// A route is put into words with its destination, its gateway, its device by name, its
/// source and its table; what is missing is left out, and a route without a destination is
/// the default route.
pub proof fn law_routes_are_put_into_words(
    route: RouteEntry,
    name: Seq<char>,
    dst: IpAddr,
    gateway: IpAddr,
    index: u32,
    source: IpAddr,
)
    ensures
        route.dst == Some(dst) && route.gateway == Some(gateway) && route.oif == Some(index)
            && route.prefsrc == Some(source) ==> route_words(route, Some((name, index)), None)
            == ip_text(dst) + "/"@ + decimal(route.dst_len as nat) + (" via "@ + ip_text(gateway))
            + (" dev "@ + name + "("@ + decimal(index as nat) + ")"@) + (" src "@ + ip_text(source))
            + " table "@ + decimal(route.table as nat),
        route.dst is None && route.gateway is None && route.oif is None && route.prefsrc is None
            ==> route_words(route, Some((name, index)), None) == "default"@ + " table "@ + decimal(
            route.table as nat,
        ),
        device_words(index, None, Some((name, index))) == name,
        device_words(index, None, None) == "ifindex"@,
{
    reveal_strlit("/");
    reveal_strlit("(");
    reveal_strlit(")");
    if route.dst == Some(dst) && route.gateway == Some(gateway) && route.oif == Some(index)
        && route.prefsrc == Some(source) {
        assert(dst_words(route) =~= ip_text(dst) + "/"@ + decimal(route.dst_len as nat));
        assert(oif_words(route.oif, Some((name, index)), None) =~= " dev "@ + name + "("@ + decimal(
            index as nat,
        ) + ")"@);
    }
    if route.dst is None && route.gateway is None && route.oif is None && route.prefsrc is None {
        assert(route_words(route, Some((name, index)), None) =~= "default"@ + " table "@ + decimal(
            route.table as nat,
        ));
    }
}

/// A rule dump takes each rule that it can read, in order, up to the end that the kernel tells;
/// without that end it is not complete.
pub proof fn law_rule_dumps_take_each_rule(
    order: ByteOrder,
    buf: Seq<u8>,
    n: int,
    at: int,
    seq: u32,
    rules: Seq<PolicyRule>,
    rule: PolicyRule,
    error: RouteError,
)
    requires
        0 <= at,
    ensures
        ({
            let step = dump_step(order, buf, n, at, seq, 32);
            let read = rules_from(order, buf, n, at, seq, rules);
            let len = header_at(order, buf, at).len;
            let next = at + align4(len as int);
            let data = buf.subrange(at + 16, at + len);
            &&& at + 16 > n ==> read == Ok::<(Seq<PolicyRule>, bool), RouteError>((rules, false))
            &&& at + 16 <= n && step == DumpStep::Done ==> read == Ok::<
                (Seq<PolicyRule>, bool),
                RouteError,
            >((rules, true))
            &&& at + 16 <= n && step == DumpStep::Fault(error) ==> read == Err::<
                (Seq<PolicyRule>, bool),
                RouteError,
            >(error)
            &&& at + 16 <= n && step == DumpStep::Skip ==> read == rules_from(
                order,
                buf,
                n,
                next,
                seq,
                rules,
            )
            &&& at + 16 <= n && step == DumpStep::Entry && policy_rule(order, data) == Some(rule)
                ==> read == rules_from(order, buf, n, next, seq, rules.push(rule))
            &&& at + 16 <= n && step == DumpStep::Entry && policy_rule(order, data) is None ==> read
                == rules_from(order, buf, n, next, seq, rules)
        }),
{
}

/// A route dump takes each route of its table, in order, up to the end that the kernel tells; a
/// route that cannot be read fails it.
pub proof fn law_route_dumps_take_their_table(
    order: ByteOrder,
    buf: Seq<u8>,
    n: int,
    at: int,
    seq: u32,
    table: u32,
    routes: Seq<RouteEntry>,
    route: RouteEntry,
    error: RouteError,
)
    requires
        0 <= at,
    ensures
        ({
            let step = dump_step(order, buf, n, at, seq, 24);
            let read = routes_from(order, buf, n, at, seq, table, routes);
            let len = header_at(order, buf, at).len;
            let next = at + align4(len as int);
            let data = buf.subrange(at + 16, at + len);
            let entry = at + 16 <= n && step == DumpStep::Entry;
            &&& at + 16 > n ==> read == Ok::<(Seq<RouteEntry>, bool), RouteError>((routes, false))
            &&& at + 16 <= n && step == DumpStep::Done ==> read == Ok::<
                (Seq<RouteEntry>, bool),
                RouteError,
            >((routes, true))
            &&& at + 16 <= n && step == DumpStep::Fault(error) ==> read == Err::<
                (Seq<RouteEntry>, bool),
                RouteError,
            >(error)
            &&& entry && route_entry(order, data) == Err::<RouteEntry, RouteError>(error) ==> read
                == Err::<(Seq<RouteEntry>, bool), RouteError>(error)
            &&& entry && route_entry(order, data) == Ok::<RouteEntry, RouteError>(route)
                && route.table == table ==> read == routes_from(
                order,
                buf,
                n,
                next,
                seq,
                table,
                routes.push(route),
            )
            &&& entry && route_entry(order, data) == Ok::<RouteEntry, RouteError>(route)
                && route.table != table ==> read == routes_from(
                order,
                buf,
                n,
                next,
                seq,
                table,
                routes,
            )
        }),
{
}

} // verus!
