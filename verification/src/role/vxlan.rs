//! The tunnel between gateways and backends.
use crate::config::Config;
use crate::net::IpAddr;
use vstd::prelude::*;

verus! {

/// How the tunnel is set up. Without a remote it takes peers one by one.
#[derive(Clone, Debug)]
pub struct VxlanSpec {
    pub dev: String,
    pub vni: u32,
    pub dstport: u16,
    pub remote: Option<IpAddr>,
    pub underlay_dev: String,
    pub local_addr: String,
    pub mtu: u32,
}

/// How the tunnel is set up, as plain values.
pub struct VxlanSpecView {
    pub dev: Seq<char>,
    pub vni: u32,
    pub dstport: u16,
    pub remote: Option<IpAddr>,
    pub underlay_dev: Seq<char>,
    pub local_addr: Seq<char>,
    pub mtu: u32,
}

impl View for VxlanSpec {
    type V = VxlanSpecView;

    open spec fn view(&self) -> VxlanSpecView {
        VxlanSpecView {
            dev: self.dev@,
            vni: self.vni,
            dstport: self.dstport,
            remote: self.remote,
            underlay_dev: self.underlay_dev@,
            local_addr: self.local_addr@,
            mtu: self.mtu,
        }
    }
}

/// The tunnel of a node, toward a remote and with a local address.
pub open spec fn tunnel(cfg: Config, remote: Option<IpAddr>, local: Seq<char>) -> VxlanSpecView {
    VxlanSpecView {
        dev: cfg.network.vxlan_dev@,
        vni: cfg.network.vni,
        dstport: cfg.network.vxlan_port,
        remote,
        underlay_dev: cfg.network.underlay_dev@,
        local_addr: local,
        mtu: cfg.network.vxlan_mtu,
    }
}

/// The tunnel of a node, toward a remote and with a local address.
pub fn vxlan_spec(cfg: &Config, remote: Option<IpAddr>, local: &str) -> (spec: VxlanSpec)
    ensures
        spec@ == tunnel(*cfg, remote, local@),
{
    VxlanSpec {
        dev: cfg.network.vxlan_dev.clone(),
        vni: cfg.network.vni,
        dstport: cfg.network.vxlan_port,
        remote,
        underlay_dev: cfg.network.underlay_dev.clone(),
        local_addr: String::from_str(local),
        mtu: cfg.network.vxlan_mtu,
    }
}

// ---------------------------------------------------------------------------
// Laws
// ---------------------------------------------------------------------------

/// The tunnel has the device, identifier, port and size of the configuration, runs over the
/// underlay device, and leads to the remote from the local address.
pub proof fn law_tunnel_is_as_configured(cfg: Config, remote: Option<IpAddr>, local: Seq<char>)
    ensures
        tunnel(cfg, remote, local).dev == cfg.network.vxlan_dev@,
        tunnel(cfg, remote, local).vni == cfg.network.vni,
        tunnel(cfg, remote, local).dstport == cfg.network.vxlan_port,
        tunnel(cfg, remote, local).mtu == cfg.network.vxlan_mtu,
        tunnel(cfg, remote, local).underlay_dev == cfg.network.underlay_dev@,
        tunnel(cfg, remote, local).remote == remote,
        tunnel(cfg, remote, local).local_addr == local,
{
}

} // verus!
