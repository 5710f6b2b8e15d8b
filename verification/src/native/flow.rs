//! Flows of the datapath and the two directions of each.
use crate::bytes::{be_bytes, host_bytes, le_bytes, ByteOrder};
use vstd::prelude::*;

verus! {

/// What a flow is found by. Ports are as they stand in a packet.
#[derive(Clone, Copy, Debug, PartialEq, Eq, Structural)]
pub struct FlowKey {
    pub src: u32,
    pub dst: u32,
    pub sport: u16,
    pub dport: u16,
    pub proto: u8,
}

/// What is known of a flow. `vip_port` is as it stands in a packet, `target_port`
/// is a plain number.
#[derive(Clone, Copy, Debug, PartialEq, Eq, Structural)]
pub struct FlowValue {
    pub listener_id: u32,
    pub target_id: u32,
    pub vip: u32,
    pub target: u32,
    pub vip_port: u16,
    pub target_port: u16,
    pub timeout_secs: u32,
    pub last_seen_ns: u64,
}

#[derive(Clone, Copy, Debug, PartialEq, Eq, Structural)]
pub struct FlowEntry {
    pub key: FlowKey,
    pub value: FlowValue,
}

/// A port as it stands in a packet, read in the order of the host.
pub open spec fn wire_port(order: ByteOrder, port: u16) -> u16 {
    match order {
        ByteOrder::Little => (port % 256 * 256 + port / 256) as u16,
        ByteOrder::Big => port,
    }
}

/// A port as it stands in a packet, read in the order of the host.
pub fn to_wire(order: ByteOrder, port: u16) -> (wire: u16)
    ensures
        wire == wire_port(order, port),
{
    match order {
        ByteOrder::Little => port % 256 * 256 + port / 256,
        ByteOrder::Big => port,
    }
}

impl FlowKey {
    /// The key of the replies of a flow.
    pub open spec fn reverse(self, order: ByteOrder, value: FlowValue) -> FlowKey {
        FlowKey {
            src: value.target,
            dst: self.src,
            sport: wire_port(order, value.target_port),
            dport: self.sport,
            proto: self.proto,
        }
    }

    /// The key of the requests of a flow, from that of its replies.
    pub open spec fn forward(self, value: FlowValue) -> FlowKey {
        FlowKey {
            src: self.dst,
            dst: value.vip,
            sport: self.dport,
            dport: value.vip_port,
            proto: self.proto,
        }
    }

    /// Whether this is the key of the replies of a flow.
    pub open spec fn is_reply(self, order: ByteOrder, value: FlowValue) -> bool {
        self.src == value.target && self.sport == wire_port(order, value.target_port)
    }

    /// The key of the replies of a flow.
    pub fn reverse_for(self, order: ByteOrder, value: FlowValue) -> (key: FlowKey)
        ensures
            key == self.reverse(order, value),
    {
        FlowKey {
            src: value.target,
            dst: self.src,
            sport: to_wire(order, value.target_port),
            dport: self.sport,
            proto: self.proto,
        }
    }

    /// The key of the requests of a flow, from that of its replies.
    pub fn forward_for(self, value: FlowValue) -> (key: FlowKey)
        ensures
            key == self.forward(value),
    {
        FlowKey {
            src: self.dst,
            dst: value.vip,
            sport: self.dport,
            dport: value.vip_port,
            proto: self.proto,
        }
    }

    /// A key as one number, for putting the keys of a pair in order.
    pub open spec fn rank(self) -> nat {
        ((((self.src as nat * 0x1_0000_0000 + self.dst as nat) * 0x1_0000 + self.sport as nat)
            * 0x1_0000 + self.dport as nat) * 0x100 + self.proto as nat)
    }

    /// Whether a key stands ahead of another.
    pub open spec fn below(self, other: FlowKey) -> bool {
        self.rank() < other.rank()
    }

    /// Whether a key stands ahead of another.
    pub fn is_below(self, other: FlowKey) -> (b: bool)
        ensures
            b == self.below(other),
    {
        if self.src != other.src {
            self.src < other.src
        } else if self.dst != other.dst {
            self.dst < other.dst
        } else if self.sport != other.sport {
            self.sport < other.sport
        } else if self.dport != other.dport {
            self.dport < other.dport
        } else {
            self.proto < other.proto
        }
    }
}

/// The keys of both directions of a flow: requests first.
pub open spec fn directions(order: ByteOrder, key: FlowKey, value: FlowValue) -> (FlowKey, FlowKey) {
    if key.is_reply(order, value) {
        (key.forward(value), key)
    } else {
        (key, key.reverse(order, value))
    }
}

/// The keys of both directions of a flow: requests first.
pub fn forward_reverse_keys(order: ByteOrder, key: FlowKey, value: FlowValue) -> (keys: (
    FlowKey,
    FlowKey,
))
    ensures
        keys == directions(order, key, value),
{
    if key.src == value.target && key.sport == to_wire(order, value.target_port) {
        (key.forward_for(value), key)
    } else {
        (key, key.reverse_for(order, value))
    }
}

/// The keys of both directions of a flow in ascending order: the same whichever
/// direction they are asked of.
pub open spec fn flow_pair(order: ByteOrder, key: FlowKey, value: FlowValue) -> (FlowKey, FlowKey) {
    let (forward, reverse) = directions(order, key, value);
    if reverse.below(forward) {
        (reverse, forward)
    } else {
        (forward, reverse)
    }
}

/// The keys of both directions of a flow in ascending order.
pub fn canonical_flow_pair(order: ByteOrder, key: FlowKey, value: FlowValue) -> (pair: (
    FlowKey,
    FlowKey,
))
    ensures
        pair == flow_pair(order, key, value),
{
    let (forward, reverse) = forward_reverse_keys(order, key, value);
    if reverse.is_below(forward) {
        (reverse, forward)
    } else {
        (forward, reverse)
    }
}

/// How long ago a flow was last seen. A flow that was never seen has no age.
pub open spec fn age_ns(last_seen_ns: u64, now_ns: u64) -> u64 {
    if last_seen_ns == 0 || now_ns < last_seen_ns {
        0
    } else {
        (now_ns - last_seen_ns) as u64
    }
}

/// How long ago a flow was last seen. A flow that was never seen has no age.
pub fn flow_age(last_seen_ns: u64, now_ns: u64) -> (age: u64)
    ensures
        age == age_ns(last_seen_ns, now_ns),
{
    if last_seen_ns == 0 || now_ns < last_seen_ns {
        0
    } else {
        now_ns - last_seen_ns
    }
}

// ---------------------------------------------------------------------------
// Laws
// ---------------------------------------------------------------------------

/// The replies of a flow lead back to its requests, if these go to the address
/// that the listener answers on.
pub proof fn law_directions_invert(order: ByteOrder, key: FlowKey, value: FlowValue)
    requires
        key.dst == value.vip,
        key.dport == value.vip_port,
    ensures
        key.reverse(order, value).forward(value) == key,
        key.reverse(order, value).is_reply(order, value),
{
}

/// Both directions of a flow give the same pair, if the requests go to the
/// address that the listener answers on and do not come from the target.
pub proof fn law_pair_of_both_directions(order: ByteOrder, key: FlowKey, value: FlowValue)
    requires
        key.dst == value.vip,
        key.dport == value.vip_port,
        !key.is_reply(order, value),
    ensures
        flow_pair(order, key.reverse(order, value), value) == flow_pair(order, key, value),
{
}

/// A port that stands in a packet has its two bytes most significant first, whatever the
/// order in which the host stores numbers.
pub proof fn law_ports_stand_in_network_order(order: ByteOrder, port: u16)
    ensures
        host_bytes(order, wire_port(order, port) as nat, 2) == be_bytes(port as nat, 2),
        wire_port(order, wire_port(order, port)) == port,
{
    let wire = wire_port(order, port) as nat;
    reveal_with_fuel(le_bytes, 3);
    reveal_with_fuel(be_bytes, 3);
    assert(port % 256 * 256 + port / 256 < 0x1_0000);
    assert(order == ByteOrder::Little ==> wire == port % 256 * 256 + port / 256);
    assert(order == ByteOrder::Little ==> wire % 256 == port / 256 && wire / 256 == port % 256);
    assert(host_bytes(order, wire, 2) =~= be_bytes(port as nat, 2));
}

/// The replies of a flow come from its target, at the port that the listener forwards to,
/// and go back to where the requests came from, by the same protocol.
pub proof fn law_replies_come_from_the_target(order: ByteOrder, key: FlowKey, value: FlowValue)
    ensures
        ({
            let reply = key.reverse(order, value);
            &&& reply.src == value.target
            &&& host_bytes(order, reply.sport as nat, 2) == be_bytes(value.target_port as nat, 2)
            &&& reply.dst == key.src
            &&& reply.dport == key.sport
            &&& reply.proto == key.proto
        }),
{
    law_ports_stand_in_network_order(order, value.target_port);
}

/// The requests of a flow come from where the replies go, and go to the address and port
/// that its listener answers on, by the same protocol.
pub proof fn law_requests_go_to_the_listener(key: FlowKey, value: FlowValue)
    ensures
        key.forward(value).src == key.dst,
        key.forward(value).sport == key.dport,
        key.forward(value).dst == value.vip,
        key.forward(value).dport == value.vip_port,
        key.forward(value).proto == key.proto,
{
}

/// Both directions of a flow are found from either of them, requests first. The requests
/// go to the address that the listener answers on and do not come from the target.
pub proof fn law_directions_are_found_from_either(order: ByteOrder, key: FlowKey, value: FlowValue)
    requires
        key.dst == value.vip,
        key.dport == value.vip_port,
        key.src != value.target || key.sport != wire_port(order, value.target_port),
    ensures
        directions(order, key, value).0 == key,
        directions(order, key, value).1.src == value.target,
        directions(order, key, value).1.dst == key.src,
        directions(order, key, value).1.dport == key.sport,
        directions(order, directions(order, key, value).1, value) == directions(order, key, value),
{
}

/// The age of a flow is the time since it was last seen; one that was never seen, or that
/// was seen later than now, has none.
pub proof fn law_age_is_the_time_since(last_seen_ns: u64, now_ns: u64)
    ensures
        0 < last_seen_ns <= now_ns ==> last_seen_ns + age_ns(last_seen_ns, now_ns) == now_ns,
        last_seen_ns == 0 || last_seen_ns > now_ns ==> age_ns(last_seen_ns, now_ns) == 0,
{
}

} // verus!
