//! What was observed of the path to a target.
use crate::redirect::message::Mac;
use vstd::prelude::*;

verus! {

#[derive(Clone, Copy, Debug, PartialEq, Eq, Structural)]
pub enum RouteObservationState {
    Resolved,
    NonUnicast,
    UnsupportedRoute,
    MissingDevice,
    DeviceDown,
    UnsupportedDevice,
    InvalidMtu,
    InvalidSourceMac,
    MissingNeighbor,
    UnusableNeighbor,
    InvalidDestinationMac,
}

/// The path to one target, as far as it could be followed.
#[derive(Clone, Debug)]
pub struct TargetRouteObservation {
    pub target: u32,
    pub state: RouteObservationState,
    pub ifindex: Option<u32>,
    pub device: Option<String>,
    pub mtu: Option<u32>,
    pub next_hop: Option<u32>,
    pub source_mac: Option<Mac>,
    pub destination_mac: Option<Mac>,
    pub neighbor_confirmed: bool,
}

/// What a return lease may be planned from: the overlay device, the devices that
/// may carry replies, and the addresses that may send them.
#[derive(Clone, Debug)]
pub struct ReturnContext {
    pub ingress: u32,
    pub outputs: Vec<u32>,
    pub sources: Vec<u32>,
}

} // verus!
