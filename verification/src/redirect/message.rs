//! Kernel routing messages, as the redirect rules read them.
use vstd::prelude::*;

verus! {

/// A hardware address.
pub type Mac = (u8, u8, u8, u8, u8, u8);

#[derive(Clone, Copy, Debug, PartialEq, Eq, Structural)]
pub enum AddressFamily {
    Inet,
    Inet6,
    Bridge,
    Other,
}

#[derive(Clone, Copy, Debug, PartialEq, Eq, Structural)]
pub enum RouteKind {
    Unicast,
    Local,
    Blackhole,
    Unreachable,
    Other,
}

/// An address in a route attribute. Only IPv4 addresses are read.
#[derive(Clone, Copy, Debug, PartialEq, Eq, Structural)]
pub enum RouteAddress {
    Inet(u32),
    Other,
}

#[derive(Clone, Copy, Debug, PartialEq, Eq, Structural)]
pub enum RouteMetric {
    Mtu(u32),
    Other,
}

#[derive(Clone, Debug)]
pub enum RouteAttribute {
    Destination(RouteAddress),
    PrefSource(RouteAddress),
    Gateway(RouteAddress),
    Oif(u32),
    Table(u32),
    Priority(u32),
    Uid(u32),
    Metrics(Vec<RouteMetric>),
    CacheInfo,
    MultiPath,
    Other,
}

/// The next hop is not usable.
pub const ROUTE_DEAD: u32 = 1;

/// The next hop is on-link whatever the address says.
pub const ROUTE_ONLINK: u32 = 4;

/// The carrier of the next hop's device is down.
pub const ROUTE_LINKDOWN: u32 = 16;

/// The entry is unresolved.
pub const ROUTE_UNRESOLVED: u32 = 32;

/// The entry is a lookup result.
pub const ROUTE_CLONED: u32 = 512;

/// The entry is a multicast equalizer.
pub const ROUTE_EQUALIZE: u32 = 1024;

/// Return the FIB entry that matches instead of the resolved route.
pub const ROUTE_FIB_MATCH: u32 = 8192;

#[derive(Clone, Debug)]
pub struct RouteMessage {
    pub family: AddressFamily,
    pub kind: RouteKind,
    pub source_prefix_len: u8,
    pub destination_prefix_len: u8,
    pub tos: u8,
    pub flags: u32,
    pub attributes: Vec<RouteAttribute>,
}

#[derive(Clone, Copy, Debug, PartialEq, Eq, Structural)]
pub enum LinkLayer {
    Ether,
    Other,
}

/// The kind of a virtual device.
#[derive(Clone, Copy, Debug, PartialEq, Eq, Structural)]
pub enum InfoKind {
    Vxlan,
    Vlan,
    Other,
}

#[derive(Clone, Copy, Debug, PartialEq, Eq, Structural)]
pub enum LinkInfo {
    Kind(InfoKind),
    Other,
}

#[derive(Clone, Debug)]
pub enum LinkAttribute {
    IfName(String),
    Address(Vec<u8>),
    Mtu(u32),
    Controller(u32),
    LinkInfo(Vec<LinkInfo>),
    Other,
}

#[derive(Clone, Debug)]
pub struct LinkMessage {
    pub index: u32,
    pub up: bool,
    pub layer: LinkLayer,
    pub attributes: Vec<LinkAttribute>,
}

#[derive(Clone, Copy, Debug, PartialEq, Eq, Structural)]
pub enum NeighborState {
    Incomplete,
    Reachable,
    Stale,
    Delay,
    Probe,
    Failed,
    Noarp,
    Permanent,
    Unset,
    Other,
}

#[derive(Clone, Debug)]
pub enum NeighborAttribute {
    Destination(RouteAddress),
    LinkLocalAddress(Vec<u8>),
    Other,
}

#[derive(Clone, Debug)]
pub struct NeighborMessage {
    pub family: AddressFamily,
    pub ifindex: u32,
    pub state: NeighborState,
    pub attributes: Vec<NeighborAttribute>,
}

#[derive(Clone, Copy, Debug, PartialEq, Eq, Structural)]
pub enum RuleAction {
    ToTable,
    Blackhole,
    Other,
}

#[derive(Clone, Debug)]
pub enum RuleAttribute {
    Table(u32),
    Priority(u32),
    Protocol(u8),
    SuppressPrefixLen(u32),
    Source(u32),
    Destination(u32),
    FwMark(u32),
    FwMask(u32),
    Iifname(String),
    Oifname(String),
    L3Mdev(bool),
    UidRange(u32, u32),
    SourcePortRange(u16, u16),
    DestinationPortRange(u16, u16),
    Other,
}

#[derive(Clone, Debug)]
pub struct RuleMessage {
    pub family: AddressFamily,
    pub src_len: u8,
    pub dst_len: u8,
    pub tos: u8,
    pub action: RuleAction,
    pub flags: u32,
    pub table: u8,
    pub attributes: Vec<RuleAttribute>,
}

/// An option of a classifier. Options that are not known keep their bytes.
#[derive(Clone, Debug)]
pub enum TcOption {
    Raw(Vec<u8>),
    Parsed,
}

#[derive(Clone, Debug)]
pub enum TcAttribute {
    Kind(String),
    Chain(u32),
    Options(Vec<TcOption>),
    Other,
}

/// A traffic filter. `info` holds the priority above the protocol; a filter of
/// handle zero stands for its classifier as a whole.
#[derive(Clone, Debug)]
pub struct TcMessage {
    pub handle: u32,
    pub info: u32,
    pub attributes: Vec<TcAttribute>,
}

/// An attribute of an interface address.
#[derive(Clone, Copy, Debug, PartialEq, Eq, Structural)]
pub enum AddressAttribute {
    Local(RouteAddress),
    Address(RouteAddress),
    Broadcast(u32),
    Other,
}

/// An interface address.
#[derive(Clone, Debug)]
pub struct AddressMessage {
    pub attributes: Vec<AddressAttribute>,
}

} // verus!
