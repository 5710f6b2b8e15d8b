//! What the rules read of a node's configuration.
use crate::net::IpAddr;
use crate::text::{opt_text, same_opt_text};
use vstd::prelude::*;

verus! {

#[derive(Clone, Copy, Debug, PartialEq, Eq, Structural)]
pub enum NodeRole {
    Gateway,
    Backend,
}

/// Where a node learns which gateway is active.
#[derive(Clone, Copy, Debug, PartialEq, Eq, Structural)]
pub enum ActiveSource {
    File,
    Xds,
}

/// A transport protocol.
#[derive(Clone, Copy, Debug, PartialEq, Eq, Structural)]
pub enum Protocol {
    Tcp,
    Udp,
}

impl Protocol {
    /// The name of a protocol.
    pub open spec fn name(self) -> Seq<char> {
        match self {
            Protocol::Tcp => "tcp"@,
            Protocol::Udp => "udp"@,
        }
    }

    /// The name of a protocol.
    pub fn as_str(self) -> (name: &'static str)
        ensures
            name@ == self.name(),
    {
        match self {
            Protocol::Tcp => "tcp",
            Protocol::Udp => "udp",
        }
    }
}

#[derive(Clone, Debug)]
pub struct GatewayNode {
    pub name: String,
    pub public_ip: IpAddr,
    pub underlay_ip: IpAddr,
    pub overlay_ip: String,
}

#[derive(Clone, Debug)]
pub struct BackendNode {
    pub name: String,
    pub public_ip: IpAddr,
    pub underlay_ip: IpAddr,
    pub overlay_ip: String,
}

/// The way of replies to one gateway.
#[derive(Clone, Debug)]
pub struct GatewayReturnPath {
    pub gateway: Option<String>,
    pub gateway_underlay_ip: IpAddr,
    pub gateway_overlay_ip: IpAddr,
    pub backend_overlay_ip: Option<String>,
    pub dscp: u32,
    pub mark: u32,
    pub route_table_id: u32,
}

impl GatewayReturnPath {
    /// Whether two return paths say the same.
    pub open spec fn same(self, other: GatewayReturnPath) -> bool {
        &&& opt_text(self.gateway) == opt_text(other.gateway)
        &&& self.gateway_underlay_ip == other.gateway_underlay_ip
        &&& self.gateway_overlay_ip == other.gateway_overlay_ip
        &&& opt_text(self.backend_overlay_ip) == opt_text(other.backend_overlay_ip)
        &&& self.dscp == other.dscp
        &&& self.mark == other.mark
        &&& self.route_table_id == other.route_table_id
    }

    /// Whether two return paths say the same.
    pub fn matches(&self, other: &GatewayReturnPath) -> (same: bool)
        ensures
            same == self.same(*other),
    {
        same_opt_text(&self.gateway, &other.gateway) && self.gateway_underlay_ip
            == other.gateway_underlay_ip && self.gateway_overlay_ip == other.gateway_overlay_ip
            && same_opt_text(&self.backend_overlay_ip, &other.backend_overlay_ip) && self.dscp
            == other.dscp && self.mark == other.mark && self.route_table_id == other.route_table_id
    }
}

#[derive(Clone, Debug)]
pub struct NetworkConfig {
    pub gateway_public_ip: IpAddr,
    pub backend_public_ip: Option<IpAddr>,
    pub gateway_ip: IpAddr,
    pub standby_gateway_ip: Option<IpAddr>,
    pub backend_ip: Option<IpAddr>,
    pub underlay_dev: String,
    pub vxlan_dev: String,
    pub overlay_cidr: String,
    pub vni: u32,
    pub vxlan_port: u16,
    pub vxlan_mtu: u32,
    pub dscp: u32,
}

/// A listener of the gateway.
#[derive(Clone, Debug)]
pub struct Listener {
    pub name: String,
    pub port: u16,
    pub target_port: u16,
    pub target_group: String,
    pub vip_ips: Vec<IpAddr>,
    pub protocols: Vec<Protocol>,
    pub select: u32,
    pub mode: u32,
    pub inactive_timeout: Option<u32>,
}

/// A target. `address` is where the datapath sends, `probe_address` where health
/// is probed; both are resolved already.
#[derive(Clone, Debug)]
pub struct BackendTarget {
    pub backend: Option<String>,
    pub address: IpAddr,
    pub probe_address: IpAddr,
    pub weight: u32,
}

#[derive(Clone, Debug)]
pub struct TargetGroup {
    pub name: String,
    pub monitor: bool,
    pub probe_type: Option<String>,
    pub probe_port: Option<u16>,
    pub probe_req: Option<String>,
    pub probe_resp: Option<String>,
    pub probe_status: Option<u16>,
    pub probe_skip_tls_verify: bool,
    pub period_secs: Option<u32>,
    pub retries: Option<u32>,
    pub targets: Vec<BackendTarget>,
}

/// The metrics endpoint of a gateway.
#[derive(Clone, Debug)]
pub struct MetricsConfig {
    pub enabled: bool,
    pub listen: String,
    pub trusted_source_cidrs: Vec<String>,
}

/// Who carries the shared address of a gateway pair.
#[derive(Clone, Copy, Debug, PartialEq, Eq, Structural)]
pub enum VipProvider {
    Unmanaged,
    L2,
    Hook,
}

/// The device that the shared address is bound to.
#[derive(Clone, Copy, Debug, PartialEq, Eq, Structural)]
pub enum VipBindDevice {
    Underlay,
    Loopback,
}

#[derive(Clone, Debug)]
pub struct VipConfig {
    pub provider: VipProvider,
    pub bind_device: VipBindDevice,
    pub private_vip: Option<String>,
    pub promote_hook: String,
    pub demote_hook: String,
    pub verify_hook: String,
}

#[derive(Clone, Copy, Debug, PartialEq, Eq, Structural)]
pub enum FailoverMode {
    Manual,
    BfdAuto,
}

#[derive(Clone, Debug)]
pub struct GatewayHaPeer {
    pub name: String,
    pub underlay_ip: String,
    pub public_ip: Option<String>,
    pub overlay_ip: Option<String>,
    pub xds_addr: Option<String>,
}

#[derive(Clone, Debug)]
pub struct BfdConfig {
    pub bind_addr: String,
    pub port: u16,
    pub interval_ms: u64,
    pub detect_multiplier: u32,
}

/// How the gateways of a pair work together.
#[derive(Clone, Debug)]
pub struct GatewayHaRuntimeConfig {
    pub enabled: bool,
    pub failover: FailoverMode,
    pub peers: Vec<GatewayHaPeer>,
    pub preferred_active: Option<String>,
    pub vip: VipConfig,
    pub bfd: BfdConfig,
    pub xsync_port: u16,
}

#[derive(Clone, Debug)]
pub struct Config {
    pub node_role: NodeRole,
    pub node_name: String,
    pub public_ip: IpAddr,
    pub underlay_ip: IpAddr,
    pub active_source: ActiveSource,
    pub network: NetworkConfig,
    pub gateway_overlay_ip: String,
    pub api_trusted_source_cidrs: Vec<String>,
    pub metrics: Option<MetricsConfig>,
    pub gateway_nodes: Vec<GatewayNode>,
    pub backend_nodes: Vec<BackendNode>,
    pub backend_return_paths: Vec<GatewayReturnPath>,
    pub nft_table: String,
    pub mss: u32,
    pub listeners: Vec<Listener>,
    pub target_groups: Vec<TargetGroup>,
    pub ha: Option<GatewayHaRuntimeConfig>,
}

} // verus!
