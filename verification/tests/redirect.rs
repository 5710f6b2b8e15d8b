use edge_lb::bytes::ByteOrder;
use edge_lb::redirect::admission::{
    bpf_id, check_network_policy, check_output, check_program_maps, check_return_tc, check_tc,
    check_tcx, ingress_programs, read_filters, read_sysctl, FilterReply, LoadedProgram,
    NetworkPolicy, TcxQuery,
    FORWARD_PRIORITY_OFFSET,
};
use edge_lb::redirect::error::RedirectError;
use edge_lb::redirect::events::{is_change, poll_step, PollStep, POLL_IN, POLL_LOST};
use edge_lb::redirect::kernel_policy::{
    default_policy, nft_type, observe_kernel_policy, on_datagram, parse_reply, policy_request,
    KernelPolicyState, PolicyQuery, XFRM_MSG_GETDEFAULT,
};
use edge_lb::redirect::maps::{
    begin_mutation, candidates, cleared, end_mutation, finish_invalidation, finish_publication,
    hold_mutation, invalidate_routes, publish, snapshot, CacheClear, CacheWriter, ClearAction,
    ClearEvent, ClearFault, ListenerRecord, Publication, SnapshotToken, TargetRecord, Turn, Written,
};
use edge_lb::redirect::message::{
    AddressAttribute, AddressFamily, AddressMessage, InfoKind, LinkAttribute, LinkInfo, LinkLayer,
    LinkMessage, NeighborAttribute,
    NeighborMessage, NeighborState, RouteAddress, RouteAttribute, RouteKind, RouteMessage,
    RouteMetric, RuleAction, RuleAttribute, RuleMessage, TcAttribute, TcMessage, TcOption,
    ROUTE_DEAD, ROUTE_EQUALIZE, ROUTE_FIB_MATCH, ROUTE_LINKDOWN, ROUTE_UNRESOLVED,
};
use edge_lb::redirect::model::{ReturnContext, RouteObservationState, TargetRouteObservation};
use edge_lb::redirect::netlink::{
    check_ingress_and_route_context, local_addresses, lookup_route, lookup_targets, observe_fib,
    observe_target, route_lookup_request, FibStep, LookupReply,
};
use edge_lb::redirect::planner::{
    plan, NativeTargetKey, NativeTargetRoute, TargetCandidate, LEASE_NS,
};
use edge_lb::redirect::policy::{inspect_rules, RoutingPolicyState};
use edge_lb::redirect::publication::{CacheWrite, WriteAction, WriteEvent};
use edge_lb::redirect::reconcile::{
    conclude, monotonic_ns, plan_forward, plan_return, publication_digest, RedirectContext,
    RefreshEnd, RETURN_PRIORITY_OFFSET,
};
use edge_lb::redirect::resolve::{
    destination_only_fib, observe_route, plain_ingress, unicast_mac,
};
use edge_lb::redirect::return_admission::{fib_supported, is_reply_source, observe, output, overlay, reply_sources};
use edge_lb::redirect::return_planner::{plan as plan_replies, ReturnLease, ReturnLeaseKey};
use edge_lb::redirect::stats::{
    return_stats, stats, NativeRedirectStats, ReturnRedirectStats,
};
use edge_lb::redirect::status::{
    classify_error, current, record_blocked, record_published, AdmissionState,
    RedirectAdmissionStatus,
};
use edge_lb::redirect::worker::{failure_text, InvalidationWorker, WorkerAction, WorkerEvent};

const ORDER: ByteOrder = ByteOrder::Little;
const CAPACITY: usize = 4096;

fn addr(a: u8, b: u8, c: u8, d: u8) -> u32 {
    u32::from_be_bytes([a, b, c, d])
}

// Planning

fn fixture() -> (TargetCandidate, TargetRouteObservation) {
    let target = TargetCandidate {
        key: NativeTargetKey {
            listener_id: 1,
            target_id: 2,
        },
        target: addr(192, 0, 2, 20),
        port: 8080,
        dscp: 46,
    };
    let route = TargetRouteObservation {
        target: target.target,
        state: RouteObservationState::Resolved,
        ifindex: Some(7),
        device: Some("edge-hub".into()),
        mtu: Some(1450),
        next_hop: Some(addr(192, 0, 2, 1)),
        source_mac: Some((2, 0, 0, 0, 0, 1)),
        destination_mac: Some((2, 0, 0, 0, 0, 2)),
        neighbor_confirmed: true,
    };
    (target, route)
}

#[test]
fn lease_starts_at_observation_and_keeps_actual_target_binding() {
    let (target, route) = fixture();
    let desired = plan(&[target], &[route], 3, 100, CAPACITY).unwrap();
    assert_eq!(desired[0].0, target.key);
    assert_eq!(desired[0].1.expires_ns, 100 + LEASE_NS);
    assert_eq!(desired[0].1.target, target.target);
    assert_eq!(desired[0].1.target_port, 8080);
    assert_eq!(desired[0].1.ifindex, 7);
}

#[test]
fn stale_neighbors_and_incomplete_observations_are_not_renewed() {
    let (target, route) = fixture();
    for change in 0..4 {
        let mut route = route.clone();
        match change {
            0 => route.neighbor_confirmed = false,
            1 => route.state = RouteObservationState::MissingNeighbor,
            2 => route.destination_mac = None,
            _ => route.target = addr(192, 0, 2, 21),
        }
        assert!(plan(&[target], &[route], 3, 100, CAPACITY)
            .unwrap()
            .is_empty());
    }
    assert!(plan(&[target], &[], 3, 100, CAPACITY).unwrap().is_empty());
}

#[test]
fn capacity_and_invalid_epoch_fail_closed() {
    let (target, route) = fixture();
    assert!(plan(&[target], &[route.clone()], 0, 100, CAPACITY).is_err());
    assert!(plan(&[target], &[route.clone()], 3, u64::MAX, CAPACITY).is_err());
    assert!(plan(&vec![target; CAPACITY + 1], &[route], 3, 100, CAPACITY).is_err());
}

#[test]
fn a_refresh_tells_the_devices_to_admit_and_the_priority_to_find() {
    let (target, route) = fixture();
    let forward = plan_forward(&[target, target], &[route], 3, 100, CAPACITY).unwrap();
    assert_eq!(forward.desired.len(), 2);
    assert_eq!(forward.outputs, vec![7]);
    let plan = plan_return(&return_context(), 30, 100, CAPACITY).unwrap();
    assert_eq!(plan.priority, 30 + RETURN_PRIORITY_OFFSET);
    assert_eq!(
        plan_return(&return_context(), u16::MAX, 100, CAPACITY).err(),
        Some(RedirectError::ReturnPriorityOverflow)
    );
}

// Routing rules

fn rules() -> Vec<RuleMessage> {
    [(255u8, 0u32), (254, 32766), (253, 32767)]
        .into_iter()
        .map(|(table, priority)| RuleMessage {
            family: AddressFamily::Inet,
            src_len: 0,
            dst_len: 0,
            tos: 0,
            action: RuleAction::ToTable,
            flags: 0,
            table,
            attributes: vec![
                RuleAttribute::Table(u32::from(table)),
                RuleAttribute::Priority(priority),
                RuleAttribute::Protocol(2),
                RuleAttribute::SuppressPrefixLen(u32::MAX),
            ],
        })
        .collect()
}

#[test]
fn standard_rules_allow_optional_default_and_omitted_zero_priority() {
    let mut rules = rules();
    assert_eq!(inspect_rules(&rules), RoutingPolicyState::StandardRules);
    rules.pop();
    rules[0]
        .attributes
        .retain(|attr| !matches!(attr, RuleAttribute::Priority(_)));
    rules.reverse();
    assert_eq!(inspect_rules(&rules), RoutingPolicyState::StandardRules);
}

#[test]
fn selectors_cannot_authorize_destination_only_routes() {
    for attribute in [
        RuleAttribute::Source(addr(192, 0, 2, 1)),
        RuleAttribute::Destination(addr(192, 0, 2, 2)),
        RuleAttribute::FwMark(1),
        RuleAttribute::FwMask(0),
        RuleAttribute::Iifname("eth0".into()),
        RuleAttribute::Oifname("eth1".into()),
        RuleAttribute::L3Mdev(true),
        RuleAttribute::UidRange(0, 100),
        RuleAttribute::SourcePortRange(1, 2),
        RuleAttribute::DestinationPortRange(80, 80),
        RuleAttribute::SuppressPrefixLen(0),
    ] {
        let mut rules = rules();
        rules[1].attributes.push(attribute);
        assert_eq!(inspect_rules(&rules), RoutingPolicyState::UnsupportedRule);
    }
}

#[test]
fn changed_headers_and_actions_fail_closed() {
    for index in 0..6 {
        let mut rules = rules();
        let header = &mut rules[1];
        match index {
            0 => header.family = AddressFamily::Inet6,
            1 => header.src_len = 8,
            2 => header.dst_len = 8,
            3 => header.tos = 184,
            4 => header.action = RuleAction::Blackhole,
            _ => header.flags = 2,
        }
        assert_eq!(inspect_rules(&rules), RoutingPolicyState::UnsupportedRule);
    }
}

#[test]
fn incomplete_duplicate_and_reprioritized_rules_are_rejected() {
    assert_eq!(inspect_rules(&[]), RoutingPolicyState::IncompleteRules);
    assert_eq!(
        inspect_rules(&rules()[1..]),
        RoutingPolicyState::IncompleteRules
    );
    let mut duplicate = rules();
    duplicate.push(duplicate[1].clone());
    assert_eq!(
        inspect_rules(&duplicate),
        RoutingPolicyState::NonstandardOrder
    );
    let mut changed = rules();
    changed[1].attributes[1] = RuleAttribute::Priority(100);
    assert_eq!(
        inspect_rules(&changed),
        RoutingPolicyState::NonstandardOrder
    );
    changed[1].attributes[0] = RuleAttribute::Table(100);
    assert_eq!(inspect_rules(&changed), RoutingPolicyState::UnsupportedRule);
}

// Digests

fn route_lease(
    listener_id: u32,
    target_id: u32,
    expires_ns: u64,
) -> (NativeTargetKey, NativeTargetRoute) {
    (
        NativeTargetKey {
            listener_id,
            target_id,
        },
        NativeTargetRoute {
            expires_ns,
            target: 0xc000_020a + target_id,
            ingress_ifindex: 2,
            ifindex: 7,
            mtu: 1450,
            target_port: 8080,
            dscp: 46,
            source_mac: (2, 0, 0, 0, 0, 1),
            destination_mac: (2, 0, 0, 0, 0, 2),
        },
    )
}

fn reply_lease(source: u32, expires_ns: u64) -> (ReturnLeaseKey, ReturnLease) {
    (
        ReturnLeaseKey {
            ingress_ifindex: 9,
            ifindex: 10,
            source,
        },
        ReturnLease { expires_ns },
    )
}

#[test]
fn publication_digest_is_order_stable_and_ignores_lease_deadlines() {
    let left_routes = [route_lease(1, 0, 100), route_lease(1, 1, 100)];
    let right_routes = [route_lease(1, 1, 200), route_lease(1, 0, 200)];
    let left_leases = [reply_lease(0xc000_020a, 100), reply_lease(0xc000_020b, 100)];
    let right_leases = [reply_lease(0xc000_020b, 200), reply_lease(0xc000_020a, 200)];
    assert_eq!(
        publication_digest(&left_routes, &left_leases, &[3, 1, 2]),
        publication_digest(&right_routes, &right_leases, &[2, 3, 1])
    );
}

#[test]
fn publication_digest_changes_when_effective_route_changes() {
    let routes = [route_lease(1, 0, 100)];
    let leases = [reply_lease(0xc000_020a, 100)];
    let baseline = publication_digest(&routes, &leases, &[1]);
    let mut changed = routes;
    changed[0].1.ifindex += 1;
    assert_ne!(baseline, publication_digest(&changed, &leases, &[1]));
    assert_ne!(baseline, publication_digest(&routes, &leases, &[1, 2]));
}

#[test]
fn a_refresh_ends_by_what_came_in_and_how_long_it_took() {
    assert_eq!(
        conclude(true, 100, 100, &[], &[], &[]),
        Ok(RefreshEnd::Invalidate)
    );
    assert_eq!(
        conclude(false, 100, 100 + LEASE_NS - 1, &[], &[], &[]),
        Ok(RefreshEnd::Publish(publication_digest(&[], &[], &[])))
    );
    assert_eq!(
        conclude(false, 100, 100 + LEASE_NS, &[], &[], &[]),
        Err(RedirectError::ObservationExceededLease)
    );
    assert_eq!(monotonic_ns(2, 5), Ok(2_000_000_005));
    assert!(monotonic_ns(i64::MAX, 0).is_err());
}

// Replies

fn physical() -> LinkMessage {
    LinkMessage {
        index: 2,
        up: true,
        layer: LinkLayer::Ether,
        attributes: vec![
            LinkAttribute::Mtu(1500),
            LinkAttribute::Address(vec![2, 0, 0, 0, 0, 1]),
        ],
    }
}

fn neighbor_on(ifindex: u32, state: NeighborState) -> NeighborMessage {
    NeighborMessage {
        family: AddressFamily::Inet,
        ifindex,
        state,
        attributes: vec![],
    }
}

#[test]
fn only_unenslaved_vxlan_ingress_and_plain_ethernet_outputs_are_candidates() {
    let mut link = physical();
    assert!(output(&link, &[]));
    assert!(!overlay(&link));
    link.attributes
        .push(LinkAttribute::LinkInfo(vec![LinkInfo::Kind(
            InfoKind::Vxlan,
        )]));
    assert!(overlay(&link));
    assert!(!output(&link, &[]));
    link.attributes.push(LinkAttribute::Controller(9));
    assert!(!overlay(&link));
    let mut veth = physical();
    veth.attributes
        .push(LinkAttribute::LinkInfo(vec![LinkInfo::Kind(
            InfoKind::Other,
        )]));
    assert!(!output(&veth, &[]));
    assert!(!overlay(&veth));
}

#[test]
fn nonconfirmed_ipv4_neighbor_withdraws_entire_output_until_nud_recovers() {
    let link = physical();
    for state in [
        NeighborState::Stale,
        NeighborState::Delay,
        NeighborState::Probe,
        NeighborState::Failed,
        NeighborState::Incomplete,
    ] {
        assert!(!output(&link, &[neighbor_on(2, state)]));
        assert!(output(&link, &[neighbor_on(3, state)]));
    }
    for state in [NeighborState::Reachable, NeighborState::Permanent] {
        assert!(output(&link, &[neighbor_on(2, state)]));
    }
}

fn plain_route() -> RouteMessage {
    RouteMessage {
        family: AddressFamily::Inet,
        kind: RouteKind::Unicast,
        source_prefix_len: 0,
        destination_prefix_len: 0,
        tos: 0,
        flags: 0,
        attributes: vec![],
    }
}

#[test]
fn return_fib_rejects_selectors_and_multipath_even_with_full_lookup() {
    let mut route = plain_route();
    assert!(fib_supported(&[route.clone()]));
    route.tos = 4;
    assert!(!fib_supported(&[route.clone()]));
    route.tos = 0;
    route.source_prefix_len = 24;
    assert!(!fib_supported(&[route.clone()]));
    route.source_prefix_len = 0;
    route.attributes.push(RouteAttribute::MultiPath);
    assert!(!fib_supported(&[route]));
}

#[test]
fn the_context_of_replies_names_devices_and_addresses() {
    let mut hub = physical();
    hub.index = 9;
    hub.attributes
        .push(LinkAttribute::IfName("edge-hub".to_string()));
    hub.attributes
        .push(LinkAttribute::LinkInfo(vec![LinkInfo::Kind(
            InfoKind::Vxlan,
        )]));
    let links = [hub, physical()];
    let message = |attributes: Vec<AddressAttribute>| AddressMessage { attributes };
    let own = |ip: u32| AddressAttribute::Local(RouteAddress::Inet(ip));
    let addresses = [
        message(vec![
            own(addr(192, 0, 2, 2)),
            own(addr(127, 0, 0, 1)),
            // Neither peers nor broadcast addresses send replies.
            AddressAttribute::Address(RouteAddress::Inet(addr(192, 0, 2, 77))),
            AddressAttribute::Broadcast(addr(192, 0, 2, 255)),
        ]),
        message(vec![
            own(addr(192, 0, 2, 1)),
            own(addr(192, 0, 2, 2)),
            own(addr(169, 254, 1, 1)),
            own(addr(224, 0, 0, 1)),
        ]),
    ];
    let context = observe("edge-hub", &policy(), 1, &links, &[], &[], &addresses).unwrap();
    assert_eq!(context.ingress, 9);
    assert_eq!(context.outputs, vec![2]);
    assert_eq!(context.sources, vec![addr(192, 0, 2, 1), addr(192, 0, 2, 2)]);
    assert_eq!(reply_sources(&addresses), context.sources);
    assert_eq!(
        observe("edge-hub", &policy(), 0, &links, &[], &[], &addresses).err(),
        Some(RedirectError::AcceptLocal)
    );
    assert_eq!(
        observe("other", &policy(), 1, &links, &[], &[], &addresses).err(),
        Some(RedirectError::ReturnOverlayMissing)
    );
    let filtered = NetworkPolicy {
        rp_filter_ingress: 1,
        ..policy()
    };
    assert_eq!(
        observe("edge-hub", &filtered, 0, &links, &[], &[], &addresses).err(),
        Some(RedirectError::RpFilter)
    );
    assert!(is_reply_source(addr(10, 0, 0, 1)));
    assert!(!is_reply_source(addr(0, 0, 0, 1)));
}

fn return_context() -> ReturnContext {
    ReturnContext {
        ingress: 7,
        outputs: vec![2, 3],
        sources: vec![0xc000_0201, 0xc000_0202],
    }
}

#[test]
fn leases_bind_source_and_both_interfaces_without_target_health() {
    let desired = plan_replies(&return_context(), 100, CAPACITY).unwrap();
    assert_eq!(desired.len(), 4);
    for (key, lease) in desired {
        assert_eq!(key.ingress_ifindex, 7);
        assert!([2, 3].contains(&key.ifindex));
        assert!([0xc000_0201, 0xc000_0202].contains(&key.source));
        assert_eq!(lease.expires_ns, 100 + LEASE_NS);
    }
}

#[test]
fn invalid_context_and_capacity_do_not_publish_partial_policy() {
    assert!(plan_replies(&return_context(), 0, CAPACITY).is_err());
    assert!(plan_replies(&return_context(), u64::MAX, CAPACITY).is_err());
    let mut context = return_context();
    context.outputs.push(context.ingress);
    assert!(plan_replies(&context, 1, CAPACITY).is_err());
    context.outputs = vec![2];
    context.sources = vec![1; CAPACITY + 1];
    assert!(plan_replies(&context, 1, CAPACITY).is_err());
    context.sources.clear();
    assert!(plan_replies(&context, 1, CAPACITY).unwrap().is_empty());
}

// Counters

#[test]
fn return_counters_sum_saturates_without_scanning_leases() {
    let value = ReturnRedirectStats {
        submitted: u64::MAX,
        policy: 1,
        expired: 2,
        route: 3,
        neighbor: 4,
        ttl: 5,
        mtu: 6,
        unsupported: 7,
        mutation_error: 8,
    };
    assert_eq!(
        return_stats(&[value, value]),
        ReturnRedirectStats {
            submitted: u64::MAX,
            policy: 2,
            expired: 4,
            route: 6,
            neighbor: 8,
            ttl: 10,
            mtu: 12,
            unsupported: 14,
            mutation_error: 16
        }
    );
    assert_eq!(return_stats(&[]), ReturnRedirectStats::default());
}

#[test]
fn all_per_cpu_counters_are_summed_without_wrapping() {
    let value = NativeRedirectStats {
        submitted: u64::MAX,
        route_miss: 2,
        route_invalid: 3,
        expired: 4,
        target_changed: 5,
        ttl: 6,
        mtu: 7,
        unsupported: 8,
        mutation_error: 9,
    };
    assert_eq!(
        stats(&[value, value]),
        NativeRedirectStats {
            submitted: u64::MAX,
            route_miss: 4,
            route_invalid: 6,
            expired: 8,
            target_changed: 10,
            ttl: 12,
            mtu: 14,
            unsupported: 16,
            mutation_error: 18,
        }
    );
    assert_eq!(stats(&[]), NativeRedirectStats::default());
}

// Status

#[test]
fn admission_errors_are_bounded_reasons() {
    assert_eq!(
        classify_error("rp_filter requires kernel path").text(),
        "rp_filter"
    );
    assert_eq!(
        classify_error("nonstandard routing rules").text(),
        "routing_policy"
    );
    assert_eq!(
        classify_error("netfilter/XFRM policy present").text(),
        "kernel_policy"
    );
    assert_eq!(
        classify_error("route observation exceeded lease").text(),
        "lease"
    );
    assert_eq!(classify_error("unexpected TC priority").text(), "tc");
    assert_eq!(classify_error("something surprising").text(), "other");
}

#[test]
fn the_status_keeps_the_last_digest_while_blocked() {
    let mut status = RedirectAdmissionStatus::default();
    assert_eq!(status.state.text(), "unknown");
    record_published(&mut status, 77, 5);
    record_blocked(&mut status, "ip forwarding is off", 6);
    let shown = current(&status);
    assert_eq!(shown.state, AdmissionState::Blocked);
    assert_eq!(shown.reason.text(), "forwarding");
    assert_eq!(shown.map_digest, 77);
    assert_eq!(shown.updated_unix_seconds, 6);
}

// Kernel policies

fn reply(kind: u16, flags: u16, payload: &[u8]) -> Vec<u8> {
    let length = 16 + payload.len();
    let mut bytes = vec![0; (length + 3) & !3];
    bytes[..4].copy_from_slice(&(length as u32).to_le_bytes());
    bytes[4..6].copy_from_slice(&kind.to_le_bytes());
    bytes[6..8].copy_from_slice(&flags.to_le_bytes());
    bytes[8..12].copy_from_slice(&1u32.to_le_bytes());
    bytes[16..length].copy_from_slice(payload);
    bytes
}

const NLMSG_ERROR: u16 = 2;
const NLMSG_DONE: u16 = 3;
const NLMSG_OVERRUN: u16 = 4;
const NLM_F_DUMP_INTR: u16 = 16;

#[test]
fn dump_requires_successful_completion_not_just_no_objects() {
    let mut results = Vec::new();
    assert!(!parse_reply(ORDER, &[], 100, true, &mut results).unwrap());
    assert!(parse_reply(
        ORDER,
        &reply(NLMSG_DONE, 0, &[0; 4]),
        100,
        true,
        &mut results
    )
    .unwrap());
    for bytes in [
        reply(NLMSG_DONE, NLM_F_DUMP_INTR, &[0; 4]),
        reply(NLMSG_DONE, 0, &(-4i32).to_le_bytes()),
        reply(NLMSG_ERROR, 0, &(-1i32).to_le_bytes()),
        reply(NLMSG_OVERRUN, 0, &[]),
        vec![0; 4],
    ] {
        assert!(parse_reply(ORDER, &bytes, 100, true, &mut results).is_err());
    }
}

#[test]
fn default_policy_reply_preserves_all_three_directions() {
    let mut results = Vec::new();
    assert!(parse_reply(
        ORDER,
        &reply(XFRM_MSG_GETDEFAULT, 0, &[2, 1, 2]),
        XFRM_MSG_GETDEFAULT,
        false,
        &mut results
    )
    .unwrap());
    assert_eq!(results, vec![vec![2, 1, 2]]);
    for payload in [vec![2, 2, 2], vec![2, 2, 2, 0]] {
        assert_eq!(default_policy(&payload).unwrap(), KernelPolicyState::Clear);
    }
    for payload in [[1, 2, 2, 0], [2, 1, 2, 0], [2, 2, 1, 0], [0, 2, 2, 0]] {
        assert_eq!(
            default_policy(&payload).unwrap(),
            KernelPolicyState::XfrmDefault
        );
    }
    assert!(default_policy(&[2, 2]).is_err());
    assert!(default_policy(&[2; 5]).is_err());
}

#[test]
fn policies_are_looked_at_in_their_order() {
    let clear = [vec![2, 2, 2, 0]];
    let some = [vec![1u8]];
    let legacy = |text: &str| [Some(text.to_string()), None];
    assert_eq!(
        observe_kernel_policy(&[], &legacy(" \n"), &[], &clear),
        Ok(KernelPolicyState::Clear)
    );
    assert_eq!(
        observe_kernel_policy(&some, &legacy("nat"), &some, &clear),
        Ok(KernelPolicyState::NftTables)
    );
    assert_eq!(
        observe_kernel_policy(&[], &legacy("nat"), &some, &clear),
        Ok(KernelPolicyState::LegacyTables)
    );
    assert_eq!(
        observe_kernel_policy(&[], &[], &some, &clear),
        Ok(KernelPolicyState::XfrmPolicies)
    );
    assert_eq!(
        observe_kernel_policy(&[], &[], &[], &[]),
        Err(RedirectError::DefaultPolicyMissing)
    );
    assert_eq!(nft_type(1), 0x0a01);
    let request = policy_request(ORDER, 0x0a01, &[9], true);
    assert_eq!(request[..6], [17, 0, 0, 0, 1, 0x0a]);
}

#[test]
fn datagrams_of_strangers_and_cut_ones_do_not_count() {
    let mut query = PolicyQuery {
        received: 0,
        payloads: vec![],
    };
    let done = reply(NLMSG_DONE, 0, &[0; 4]);
    assert!(on_datagram(&mut query, ORDER, 5, &done, 65536, 100, true).is_err());
    assert!(on_datagram(&mut query, ORDER, 0, &done, done.len(), 100, true).is_err());
    assert_eq!(
        on_datagram(&mut query, ORDER, 0, &done, 65536, 100, true),
        Ok(true)
    );
}

// Routes

fn route_fixture() -> (u32, RouteMessage, LinkMessage, NeighborMessage) {
    let target = addr(192, 0, 2, 20);
    let mut route = plain_route();
    route.attributes.push(RouteAttribute::Oif(7));
    let link = LinkMessage {
        index: 7,
        up: true,
        layer: LinkLayer::Ether,
        attributes: vec![
            LinkAttribute::IfName("edge-hub".into()),
            LinkAttribute::Address(vec![2, 0, 0, 0, 0, 1]),
            LinkAttribute::Mtu(1450),
            LinkAttribute::LinkInfo(vec![LinkInfo::Kind(InfoKind::Vxlan)]),
        ],
    };
    let neighbor = NeighborMessage {
        family: AddressFamily::Inet,
        ifindex: 7,
        state: NeighborState::Reachable,
        attributes: vec![
            NeighborAttribute::Destination(RouteAddress::Inet(target)),
            NeighborAttribute::LinkLocalAddress(vec![2, 0, 0, 0, 0, 2]),
        ],
    };
    (target, route, link, neighbor)
}

#[test]
fn lookup_is_not_a_route_dump() {
    let target = addr(192, 0, 2, 20);
    let request = route_lookup_request(target, false);
    assert_eq!(request.flags & 0x300, 0);
    assert_eq!(request.route.destination_prefix_len, 32);
    assert_eq!(request.route.attributes.len(), 1);
    assert!(matches!(
        request.route.attributes[0],
        RouteAttribute::Destination(RouteAddress::Inet(ip)) if ip == target
    ));
}

#[test]
fn fib_lookup_keeps_multipath_visible_without_dumping_routes() {
    let request = route_lookup_request(addr(192, 0, 2, 20), true);
    assert_eq!(request.flags & 0x300, 0);
    assert_eq!(request.route.flags, ROUTE_FIB_MATCH);
    let (target, mut route, link, neighbor) = route_fixture();
    route.attributes.push(RouteAttribute::MultiPath);
    assert_eq!(
        observe_route(target, &route, &[link], &[neighbor]).state,
        RouteObservationState::UnsupportedRoute
    );
}

#[test]
fn route_flags_and_tos_cannot_be_ignored() {
    let (target, route, link, neighbor) = route_fixture();
    assert!(destination_only_fib(&[route.clone()]));
    for flags in [ROUTE_DEAD, ROUTE_LINKDOWN, ROUTE_UNRESOLVED, ROUTE_EQUALIZE] {
        let mut route = route.clone();
        route.flags = flags;
        assert_eq!(
            observe_route(target, &route, &[link.clone()], &[neighbor.clone()]).state,
            RouteObservationState::UnsupportedRoute
        );
    }
    let mut route = route;
    route.tos = 184;
    assert!(!destination_only_fib(&[route.clone()]));
    assert_eq!(
        observe_route(target, &route, &[link], &[neighbor]).state,
        RouteObservationState::UnsupportedRoute
    );
}

#[test]
fn direct_overlay_keeps_vxlan_output_and_l3_mtu() {
    let (target, route, link, neighbor) = route_fixture();
    let observed = observe_route(target, &route, &[link], &[neighbor]);
    assert_eq!(observed.state, RouteObservationState::Resolved);
    assert_eq!(observed.device.as_deref(), Some("edge-hub"));
    assert_eq!(observed.ifindex, Some(7));
    assert_eq!(observed.next_hop, Some(target));
    assert_eq!(observed.mtu, Some(1450));
    assert_eq!(observed.destination_mac, Some((2, 0, 0, 0, 0, 2)));
}

#[test]
fn gateway_route_resolves_next_hop_neighbor_and_minimum_mtu() {
    let (target, mut route, link, mut neighbor) = route_fixture();
    let gateway = addr(192, 0, 2, 1);
    route
        .attributes
        .push(RouteAttribute::Gateway(RouteAddress::Inet(gateway)));
    route
        .attributes
        .push(RouteAttribute::Metrics(vec![RouteMetric::Mtu(1400)]));
    neighbor.attributes[0] = NeighborAttribute::Destination(RouteAddress::Inet(gateway));
    let observed = observe_route(target, &route, &[link], &[neighbor]);
    assert_eq!(observed.state, RouteObservationState::Resolved);
    assert_eq!(observed.next_hop, Some(gateway));
    assert_eq!(observed.mtu, Some(1400));
}

#[test]
fn neighbors_must_match_device_and_family() {
    let (target, route, link, neighbor) = route_fixture();
    let mut wrong = neighbor.clone();
    wrong.ifindex = 8;
    assert_eq!(
        observe_route(target, &route, &[link.clone()], &[wrong]).state,
        RouteObservationState::MissingNeighbor
    );
    let mut neighbor = neighbor;
    neighbor.family = AddressFamily::Bridge;
    assert_eq!(
        observe_route(target, &route, &[link], &[neighbor]).state,
        RouteObservationState::MissingNeighbor
    );
}

#[test]
fn unresolved_and_failed_neighbors_are_not_usable() {
    let (target, route, link, neighbor) = route_fixture();
    for state in [
        NeighborState::Incomplete,
        NeighborState::Failed,
        NeighborState::Unset,
        NeighborState::Noarp,
    ] {
        let mut neighbor = neighbor.clone();
        neighbor.state = state;
        assert_eq!(
            observe_route(target, &route, &[link.clone()], &[neighbor]).state,
            RouteObservationState::UnusableNeighbor
        );
    }
    for state in [
        NeighborState::Reachable,
        NeighborState::Stale,
        NeighborState::Delay,
        NeighborState::Probe,
        NeighborState::Permanent,
    ] {
        let mut neighbor = neighbor.clone();
        neighbor.state = state;
        assert_eq!(
            observe_route(target, &route, &[link.clone()], &[neighbor]).state,
            RouteObservationState::Resolved
        );
    }
}

#[test]
fn invalid_mac_addresses_are_rejected() {
    for bytes in [
        vec![0; 6],
        vec![255; 6],
        vec![1, 0, 0, 0, 0, 1],
        vec![2; 5],
        vec![2; 8],
    ] {
        assert_eq!(unicast_mac(&bytes), None);
    }
    let (target, route, mut link, mut neighbor) = route_fixture();
    neighbor.attributes[1] = NeighborAttribute::LinkLocalAddress(vec![0; 6]);
    assert_eq!(
        observe_route(target, &route, &[link.clone()], &[neighbor.clone()]).state,
        RouteObservationState::InvalidDestinationMac
    );
    link.attributes[1] = LinkAttribute::Address(vec![0; 6]);
    assert_eq!(
        observe_route(target, &route, &[link], &[neighbor]).state,
        RouteObservationState::InvalidSourceMac
    );
}

#[test]
fn local_and_blackhole_routes_are_not_forwarding_candidates() {
    let (target, mut route, link, neighbor) = route_fixture();
    for kind in [
        RouteKind::Local,
        RouteKind::Blackhole,
        RouteKind::Unreachable,
    ] {
        route.kind = kind;
        assert_eq!(
            observe_route(target, &route, &[link.clone()], &[neighbor.clone()]).state,
            RouteObservationState::NonUnicast
        );
    }
}

#[test]
fn missing_down_and_unsupported_devices_are_reported() {
    let (target, route, mut link, neighbor) = route_fixture();
    assert_eq!(
        observe_route(target, &route, &[], &[neighbor.clone()]).state,
        RouteObservationState::MissingDevice
    );
    link.up = false;
    assert_eq!(
        observe_route(target, &route, &[link.clone()], &[neighbor.clone()]).state,
        RouteObservationState::DeviceDown
    );
    link.up = true;
    link.attributes[3] = LinkAttribute::LinkInfo(vec![LinkInfo::Kind(InfoKind::Vlan)]);
    assert_eq!(
        observe_route(target, &route, &[link], &[neighbor]).state,
        RouteObservationState::UnsupportedDevice
    );
}

#[test]
fn enslaved_outputs_and_nonphysical_ingress_require_kernel_path() {
    let (target, route, mut link, neighbor) = route_fixture();
    link.attributes.push(LinkAttribute::Controller(9));
    assert_eq!(
        observe_route(target, &route, &[link.clone()], &[neighbor]).state,
        RouteObservationState::UnsupportedDevice
    );
    assert!(!plain_ingress(&link));
    link.attributes.retain(|attr| {
        !matches!(
            attr,
            LinkAttribute::Controller(_) | LinkAttribute::LinkInfo(_)
        )
    });
    assert!(plain_ingress(&link));
    link.attributes.push(LinkAttribute::Controller(9));
    assert!(!plain_ingress(&link));
}

#[test]
fn multipath_and_unknown_mtu_do_not_produce_candidates() {
    let (target, mut route, mut link, neighbor) = route_fixture();
    route.attributes.push(RouteAttribute::MultiPath);
    assert_eq!(
        observe_route(target, &route, &[link.clone()], &[neighbor.clone()]).state,
        RouteObservationState::UnsupportedRoute
    );
    route.attributes.pop();
    link.attributes[2] = LinkAttribute::Mtu(0);
    assert_eq!(
        observe_route(target, &route, &[link], &[neighbor]).state,
        RouteObservationState::InvalidMtu
    );
}

#[test]
fn empty_target_list_requires_no_netlink_connection() {
    assert!(lookup_targets(&[]).is_empty());
    assert_eq!(lookup_targets(&[5, 3, 5]), vec![3, 5]);
}

#[test]
fn the_answer_of_a_lookup_is_one_route() {
    let route = || LookupReply::Route(plain_route());
    assert_eq!(lookup_route(&[route()]), Ok(0));
    assert_eq!(lookup_route(&[]), Err(RedirectError::RouteMissing));
    assert_eq!(
        lookup_route(&[route(), route()]),
        Err(RedirectError::RouteMultiple)
    );
    assert_eq!(
        lookup_route(&[LookupReply::Error(-1)]),
        Err(RedirectError::RouteQuery(-1))
    );
    assert_eq!(
        lookup_route(&[LookupReply::Other]),
        Err(RedirectError::RouteUnexpected)
    );
}

#[test]
fn local_addresses_are_those_of_every_interface() {
    let message = |attributes: Vec<AddressAttribute>| AddressMessage { attributes };
    assert_eq!(
        local_addresses(&[
            message(vec![
                AddressAttribute::Local(RouteAddress::Inet(9)),
                AddressAttribute::Address(RouteAddress::Inet(7)),
                AddressAttribute::Broadcast(11),
                AddressAttribute::Other,
            ]),
            message(vec![]),
            message(vec![
                AddressAttribute::Address(RouteAddress::Other),
                AddressAttribute::Local(RouteAddress::Inet(7)),
                AddressAttribute::Local(RouteAddress::Inet(1)),
            ]),
        ]),
        vec![1, 7, 9, 11]
    );
    assert!(local_addresses(&[]).is_empty());
}

#[test]
fn an_unresolved_entry_needs_no_second_lookup() {
    let (target, route, link, neighbor) = route_fixture();
    assert!(matches!(
        observe_fib(target, &route, &[link.clone()], &[neighbor]),
        FibStep::LookUp
    ));
    match observe_fib(target, &route, &[link], &[]) {
        FibStep::Settled(observation) => {
            assert_ne!(observation.state, RouteObservationState::Resolved)
        }
        FibStep::LookUp => panic!("resolved without a neighbour"),
    }
}

#[test]
fn the_two_lookups_of_a_target_must_agree() {
    let (target, route, link, neighbor) = route_fixture();
    let agreed = observe_target(
        target,
        &route,
        &route,
        &[link.clone()],
        &[neighbor.clone()],
    );
    assert_eq!(agreed.state, RouteObservationState::Resolved);
    let mut other = route.clone();
    other
        .attributes
        .push(RouteAttribute::Gateway(RouteAddress::Inet(addr(
            192, 0, 2, 1,
        ))));
    let differing = observe_target(target, &route, &other, &[link], &[neighbor]);
    assert_eq!(differing.state, RouteObservationState::UnsupportedRoute);
    let mut ingress = physical();
    ingress.index = 3;
    assert_eq!(
        check_ingress_and_route_context(&[ingress.clone()], &[plain_route()]),
        Ok(())
    );
    assert_eq!(
        check_ingress_and_route_context(&[], &[plain_route()]),
        Err(RedirectError::IngressTopology)
    );
    let mut selecting = plain_route();
    selecting.tos = 4;
    assert_eq!(
        check_ingress_and_route_context(&[ingress], &[selecting]),
        Err(RedirectError::FibSelectors)
    );
}

// Admission

fn policy() -> NetworkPolicy {
    NetworkPolicy {
        routing: RoutingPolicyState::StandardRules,
        kernel: KernelPolicyState::Clear,
        ip_forward: 1,
        ingress_forwarding: 1,
        rp_filter_all: 0,
        rp_filter_ingress: 0,
        security_modules: "capability,yama\n".to_string(),
    }
}

#[test]
fn the_host_must_leave_packets_alone() {
    assert_eq!(check_network_policy(&policy()), Ok(()));
    let refused = |change: fn(&mut NetworkPolicy)| {
        let mut changed = policy();
        change(&mut changed);
        check_network_policy(&changed).unwrap_err()
    };
    assert_eq!(
        refused(|p| p.routing = RoutingPolicyState::UnsupportedRule),
        RedirectError::RoutingRules
    );
    assert_eq!(
        refused(|p| p.kernel = KernelPolicyState::NftTables),
        RedirectError::KernelPolicy
    );
    assert_eq!(
        refused(|p| p.ip_forward = 0),
        RedirectError::ForwardingDisabled
    );
    assert_eq!(
        refused(|p| p.ingress_forwarding = 0),
        RedirectError::IngressForwardingDisabled
    );
    assert_eq!(refused(|p| p.rp_filter_all = 1), RedirectError::RpFilter);
    assert_eq!(
        refused(|p| p.security_modules = "selinux".to_string()),
        RedirectError::SecurityModule
    );
    assert_eq!(read_sysctl(" 1\n"), Some(1));
    assert_eq!(read_sysctl("on"), None);
}

#[test]
fn devices_must_carry_no_other_programs() {
    assert_eq!(check_tcx(TcxQuery::Programs(0), 6, 8), Ok(()));
    assert_eq!(
        check_tcx(TcxQuery::Programs(1), 6, 8),
        Err(RedirectError::TcxProgram)
    );
    assert_eq!(check_tcx(TcxQuery::Unknown, 6, 5), Ok(()));
    assert_eq!(
        check_tcx(TcxQuery::Unknown, 6, 6),
        Err(RedirectError::TcxQuery)
    );
    assert_eq!(
        check_tcx(TcxQuery::Failed, 5, 0),
        Err(RedirectError::TcxQuery)
    );
    assert_eq!(check_output(&[]), Ok(()));
    assert_eq!(
        check_output(&[summary(10)]),
        Err(RedirectError::EgressFilter)
    );
}

fn attribute(kind: u16, payload: &[u8]) -> Vec<u8> {
    let mut bytes = ((payload.len() + 4) as u16).to_le_bytes().to_vec();
    bytes.extend_from_slice(&kind.to_le_bytes());
    bytes.extend_from_slice(payload);
    bytes
}

fn bpf_options(id: u32, flags: u32) -> Vec<TcOption> {
    vec![
        TcOption::Raw(attribute(8, &flags.to_le_bytes())),
        TcOption::Raw(attribute(11, &id.to_le_bytes())),
    ]
}

fn summary(priority: u32) -> TcMessage {
    TcMessage {
        handle: 0,
        info: priority << 16 | u32::from(3u16.to_be()),
        attributes: vec![TcAttribute::Kind("bpf".to_string())],
    }
}

fn filter(priority: u32, id: u32) -> TcMessage {
    TcMessage {
        handle: 1,
        info: priority << 16 | u32::from(3u16.to_be()),
        attributes: vec![
            TcAttribute::Kind("bpf".to_string()),
            TcAttribute::Options(bpf_options(id, 1)),
        ],
    }
}

#[test]
fn filters_are_matched_to_their_maps_by_priority() {
    let pref = 30u16;
    let forward = u32::from(pref + FORWARD_PRIORITY_OFFSET);
    let filters = [
        summary(30),
        filter(30, 100),
        summary(forward),
        filter(forward, 101),
    ];
    assert_eq!(ingress_programs(&filters, 2), Ok(vec![1, 3]));
    assert_eq!(bpf_id(ORDER, &filters[1]), Ok(100));
    let (first, second) = check_tc(ORDER, &filters, pref, 7, 8).unwrap();
    assert_eq!((first, second), ((100, 7), (101, 8)));
    let doubled = [summary(30), filter(30, 100), summary(31), filter(31, 101)];
    assert_eq!(
        check_tc(ORDER, &doubled, pref, 7, 8),
        Err(RedirectError::TcPriority)
    );
    assert!(check_tc(ORDER, &filters[..2], pref, 7, 8).is_err());
    let alone = [summary(41), filter(41, 55)];
    assert_eq!(check_return_tc(ORDER, &alone, 41, 9), Ok((55, 9)));
    assert_eq!(
        check_return_tc(ORDER, &alone, 42, 9),
        Err(RedirectError::ReturnTcSelector)
    );
}

#[test]
fn only_whole_lists_of_filters_count() {
    let one = || FilterReply::Filter(summary(30));
    assert_eq!(
        read_filters(&[(0, one()), (0, one()), (0, FilterReply::Done(0))]),
        Ok(vec![0, 1])
    );
    assert_eq!(
        read_filters(&[(16, one())]),
        Err(RedirectError::TcInterrupted)
    );
    assert_eq!(
        read_filters(&[(0, FilterReply::Done(-4))]),
        Err(RedirectError::TcDumpFailed)
    );
    assert_eq!(
        read_filters(&[(0, FilterReply::Error(-1))]),
        Err(RedirectError::TcQuery(-1))
    );
    assert_eq!(
        read_filters(&[(0, FilterReply::Other)]),
        Err(RedirectError::TcUnexpected)
    );
}

#[test]
fn programs_must_own_their_maps() {
    let loaded = |id: u32, maps: Option<Vec<u32>>| LoadedProgram { id, map_ids: maps };
    assert_eq!(
        check_program_maps(vec![(100, 7)], &[loaded(100, Some(vec![3, 7]))]),
        Ok(())
    );
    assert_eq!(
        check_program_maps(vec![(100, 7)], &[loaded(100, Some(vec![3]))]),
        Err(RedirectError::ForeignMap)
    );
    assert_eq!(
        check_program_maps(vec![(100, 7)], &[loaded(100, None)]),
        Err(RedirectError::MapIdsUnavailable)
    );
    assert_eq!(
        check_program_maps(vec![(100, 7)], &[loaded(101, Some(vec![7]))]),
        Err(RedirectError::ProgramDisappeared)
    );
}

// The cache

fn token_of(writer: &CacheWriter, map_id: u32, return_map_id: Option<u32>) -> SnapshotToken {
    match snapshot(writer, map_id, return_map_id) {
        Turn::Go(token) => token,
        Turn::Wait => panic!("the writer is held"),
    }
}

fn granted<T: std::fmt::Debug>(turn: Turn<Result<T, RedirectError>>) -> T {
    match turn {
        Turn::Go(result) => result.expect("revisions are left"),
        Turn::Wait => panic!("the writer is held"),
    }
}

/// The two maps, with operations that can fail.
struct Maps {
    replies: Option<Vec<ReturnLeaseKey>>,
    routes: Option<Vec<NativeTargetKey>>,
    broken_replies: bool,
    stuck_route: Option<NativeTargetKey>,
}

impl Maps {
    fn filled() -> Maps {
        let reply = |source: u32| ReturnLeaseKey {
            ingress_ifindex: 7,
            ifindex: 2,
            source,
        };
        let route = |target_id: u32| NativeTargetKey {
            listener_id: 1,
            target_id,
        };
        Maps {
            replies: Some(vec![reply(1), reply(2)]),
            routes: Some(vec![route(0), route(1), route(2)]),
            broken_replies: false,
            stuck_route: None,
        }
    }

    fn carry_out(&mut self, clear: &mut CacheClear) {
        let failed = |error: &str| ClearEvent::Failed {
            error: error.to_string(),
        };
        loop {
            let event = match clear.action() {
                ClearAction::ListReplies => match &self.replies {
                    _ if self.broken_replies => failed("not a map of leases"),
                    None => ClearEvent::Absent,
                    Some(keys) => ClearEvent::Replies(keys.clone()),
                },
                ClearAction::DropReply(key) => {
                    self.replies.as_mut().unwrap().retain(|other| *other != key);
                    ClearEvent::Dropped
                }
                ClearAction::ListRoutes => match &self.routes {
                    None => ClearEvent::Absent,
                    Some(keys) => ClearEvent::Routes(keys.clone()),
                },
                ClearAction::DropRoute(key) if self.stuck_route == Some(key) => failed("stuck"),
                ClearAction::DropRoute(key) => {
                    self.routes.as_mut().unwrap().retain(|other| *other != key);
                    ClearEvent::Dropped
                }
                ClearAction::Finished => return,
            };
            clear.advance(event);
        }
    }

    fn invalidate(&mut self, writer: &mut CacheWriter) -> Result<usize, String> {
        let mut clear = granted(invalidate_routes(writer));
        self.carry_out(&mut clear);
        finish_invalidation(writer, &clear)
    }
}

#[test]
fn a_publication_that_was_overtaken_leaves_the_cache_alone() {
    let mut writer = CacheWriter::new();
    let mut maps = Maps::filled();
    let token = token_of(&writer, 5, Some(6));
    let routes = [route_lease(1, 0, 100)];
    let replies = [reply_lease(1, 100)];
    assert!(matches!(
        granted(publish(&mut writer, token, 5, Some(7), &routes, &replies, 50)),
        Publication::Overtaken
    ));
    assert!(matches!(
        granted(publish(&mut writer, token, 5, Some(6), &routes, &replies, 50)),
        Publication::Write
    ));
    // While the plan is written, no one else has a turn.
    assert!(matches!(snapshot(&writer, 5, Some(6)), Turn::Wait));
    assert!(matches!(invalidate_routes(&mut writer), Turn::Wait));
    assert!(matches!(
        finish_publication(&mut writer, true),
        Ok(Written::Published)
    ));
    assert!(matches!(
        granted(publish(&mut writer, token, 5, Some(6), &routes, &replies, 50)),
        Publication::Overtaken
    ));
    let token = token_of(&writer, 5, Some(6));
    match granted(publish(&mut writer, token, 5, Some(6), &routes, &replies, 100)) {
        Publication::Expired(mut clear) => {
            maps.carry_out(&mut clear);
            assert_eq!(finish_invalidation(&mut writer, &clear), Ok(5));
        }
        other => panic!("{other:?}"),
    }
    // A publication that failed half way is cleared, and its token is used up.
    let token = token_of(&writer, 5, None);
    assert!(matches!(
        granted(publish(&mut writer, token, 5, None, &routes, &[], 50)),
        Publication::Write
    ));
    match finish_publication(&mut writer, false) {
        Ok(Written::Clear(mut clear)) => {
            maps.carry_out(&mut clear);
            assert_eq!(finish_invalidation(&mut writer, &clear), Ok(0));
        }
        other => panic!("{other:?}"),
    }
    assert!(matches!(
        granted(publish(&mut writer, token, 5, None, &routes, &[], 50)),
        Publication::Overtaken
    ));
    let token = token_of(&writer, 5, None);
    assert_eq!(maps.invalidate(&mut writer), Ok(0));
    assert!(matches!(
        granted(publish(&mut writer, token, 5, None, &[], &[], 0)),
        Publication::Overtaken
    ));
    assert_eq!(cleared::<u8>(Ok(2), Ok(3)), Ok(5));
    assert_eq!(cleared::<u8>(Err(1), Err(2)), Err(1));
    assert_eq!(cleared::<u8>(Ok(2), Err(2)), Err(2));
}

#[test]
fn invalidation_empties_both_maps() {
    let mut writer = CacheWriter::new();
    let mut maps = Maps::filled();
    assert_eq!(maps.invalidate(&mut writer), Ok(5));
    assert_eq!(maps.replies, Some(vec![]));
    assert_eq!(maps.routes, Some(vec![]));
    assert_eq!(maps.invalidate(&mut writer), Ok(0));
    maps.replies = None;
    maps.routes = None;
    assert_eq!(maps.invalidate(&mut writer), Ok(0));

    // A failure in one direction does not spare the other.
    let mut broken = Maps::filled();
    broken.broken_replies = true;
    assert_eq!(
        broken.invalidate(&mut writer),
        Err("not a map of leases".to_string())
    );
    assert_eq!(broken.routes, Some(vec![]));
    let mut stuck = Maps::filled();
    stuck.stuck_route = Some(NativeTargetKey {
        listener_id: 1,
        target_id: 1,
    });
    assert_eq!(stuck.invalidate(&mut writer), Err("stuck".to_string()));
    assert_eq!(stuck.replies, Some(vec![]));
    assert_eq!(stuck.routes.as_ref().map(|keys| keys.len()), Some(2));
}

#[test]
fn a_publication_replaces_the_cache() {
    let desired = vec![route_lease(1, 0, 100), route_lease(1, 1, 100)];
    let leases = vec![reply_lease(9, 100)];
    for broken in [None, Some("locals"), Some("leases")] {
        let mut maps = Maps::filled();
        let mut locals: Vec<u32> = vec![1];
        let mut write = CacheWrite::new(desired.clone(), leases.clone(), vec![1, 7]);
        let failed = |error: &str| WriteEvent::Failed {
            error: error.to_string(),
        };
        loop {
            let event = match write.action() {
                WriteAction::ListReplies => WriteEvent::Replies(maps.replies.clone().unwrap()),
                WriteAction::DropReply(key) => {
                    maps.replies.as_mut().unwrap().retain(|other| *other != key);
                    WriteEvent::Passed
                }
                WriteAction::ListRoutes => WriteEvent::Routes(maps.routes.clone().unwrap()),
                WriteAction::DropRoute(key) => {
                    maps.routes.as_mut().unwrap().retain(|other| *other != key);
                    WriteEvent::Passed
                }
                WriteAction::OpenLocals if broken == Some("locals") => failed("no locals"),
                WriteAction::OpenReplies if broken == Some("leases") => failed("no leases"),
                WriteAction::OpenLocals | WriteAction::OpenReplies => WriteEvent::Passed,
                WriteAction::PutLocal(ip) => {
                    if !locals.contains(&ip) {
                        locals.push(ip);
                    }
                    WriteEvent::Passed
                }
                WriteAction::PutRoute((key, _)) => {
                    maps.routes.as_mut().unwrap().push(key);
                    WriteEvent::Passed
                }
                WriteAction::PutReply((key, _)) => {
                    maps.replies.as_mut().unwrap().push(key);
                    WriteEvent::Passed
                }
                WriteAction::Finished | WriteAction::Failed => break,
            };
            write.advance(event);
        }
        assert_eq!(write.written(), broken.is_none());
        match broken {
            None => {
                assert_eq!(maps.routes, Some(desired.iter().map(|(key, _)| *key).collect()));
                assert_eq!(maps.replies, Some(vec![leases[0].0]));
                assert_eq!(locals, vec![1, 7]);
            }
            Some("locals") => {
                assert_eq!(write.error.as_deref(), Some("no locals"));
                assert_eq!(maps.routes, Some(vec![]));
                assert_eq!(locals, vec![1]);
            }
            _ => {
                assert_eq!(write.error.as_deref(), Some("no leases"));
                assert_eq!(maps.replies, Some(vec![]));
            }
        }
    }
    // A cache without return leases needs no map for them.
    let mut bare = CacheWrite::new(vec![], vec![], vec![]);
    bare.advance(WriteEvent::Absent);
    bare.advance(WriteEvent::Routes(vec![]));
    assert_eq!(bare.action(), WriteAction::OpenLocals);
    bare.advance(WriteEvent::Passed);
    assert!(bare.written());
}

#[test]
fn a_business_change_has_the_cache_to_itself() {
    let mut writer = CacheWriter::new();
    let mut maps = Maps::filled();
    let token = token_of(&writer, 5, None);
    let mut clear = granted(begin_mutation(&mut writer));
    maps.carry_out(&mut clear);
    let guard = hold_mutation(&mut writer, &clear).unwrap();
    assert_eq!(maps.replies, Some(vec![]));
    assert_eq!(maps.routes, Some(vec![]));
    assert!(matches!(begin_mutation(&mut writer), Turn::Wait));
    assert!(matches!(invalidate_routes(&mut writer), Turn::Wait));
    assert!(matches!(
        publish(&mut writer, token, 5, None, &[], &[], 0),
        Turn::Wait
    ));
    end_mutation(&mut writer, guard);
    assert!(matches!(
        granted(publish(&mut writer, token, 5, None, &[], &[], 0)),
        Publication::Overtaken
    ));

    // Without a cleared cache there is no guard, and the writer is given back.
    let mut broken = Maps::filled();
    broken.broken_replies = true;
    let mut clear = granted(begin_mutation(&mut writer));
    broken.carry_out(&mut clear);
    assert!(matches!(
        hold_mutation(&mut writer, &clear),
        Err(ClearFault::Failed(error)) if error == "not a map of leases"
    ));
    let clear = granted(begin_mutation(&mut writer));
    assert!(matches!(
        hold_mutation(&mut writer, &clear),
        Err(ClearFault::Unfinished)
    ));
    assert_eq!(Maps::filled().invalidate(&mut writer), Ok(5));
}

#[test]
fn healthy_targets_with_a_weight_may_get_leases() {
    let listeners = [ListenerRecord {
        listener_id: 1,
        dscp: 46,
    }];
    let target = |target_id: u32, weight: u32, healthy: bool| TargetRecord {
        key: NativeTargetKey {
            listener_id: 1,
            target_id,
        },
        address: 9,
        port: 80,
        weight,
        healthy,
    };
    let list = candidates(
        &listeners,
        &[
            target(1, 1, true),
            target(2, 0, true),
            target(3, 1, false),
        ],
    )
    .unwrap();
    assert_eq!(list.len(), 1);
    assert_eq!(list[0].dscp, 46);
    let conflicting = [
        listeners[0],
        ListenerRecord {
            listener_id: 1,
            dscp: 40,
        },
    ];
    assert_eq!(
        candidates(&conflicting, &[]).err(),
        Some(RedirectError::ConflictingDscp)
    );
    let wide = [ListenerRecord {
        listener_id: 1,
        dscp: 256,
    }];
    assert_eq!(
        candidates(&wide, &[target(1, 1, true)]).err(),
        Some(RedirectError::IntegerRange)
    );
}

// Watching

#[test]
fn a_lost_monitor_is_told_and_a_ready_one_is_read() {
    assert_eq!(poll_step(0, &[0, 0]), Ok(PollStep::Quiet));
    assert_eq!(poll_step(1, &[0, POLL_IN]), Ok(PollStep::Receive(1)));
    assert_eq!(
        poll_step(1, &[POLL_IN, POLL_LOST]),
        Err(RedirectError::MonitorLost)
    );
    assert!(is_change(0));
    assert!(!is_change(7));
}

fn context() -> RedirectContext {
    RedirectContext {
        route_pin: "/sys/fs/bpf/routes".to_string(),
        marker_pin: "/sys/fs/bpf/marker".to_string(),
        ingress_device: "eth0".to_string(),
        return_device: "edge-hub".to_string(),
        marker_priority: 30,
    }
}

fn refused(error: &str, now_unix: u64) -> WorkerEvent {
    WorkerEvent::Refused {
        error: error.to_string(),
        now_unix,
    }
}

/// Leads a fresh worker to its first poll of an open monitor.
fn watching_worker() -> InvalidationWorker {
    let mut worker = InvalidationWorker::spawn(context(), RedirectAdmissionStatus::default());
    assert!(matches!(worker.action(), WorkerAction::Withdraw));
    worker.advance(WorkerEvent::Passed);
    assert!(matches!(worker.action(), WorkerAction::AskStop));
    worker.advance(WorkerEvent::Answer(false));
    assert!(matches!(worker.action(), WorkerAction::Withdraw));
    worker.advance(WorkerEvent::Passed);
    assert!(matches!(worker.action(), WorkerAction::OpenMonitor));
    worker.advance(WorkerEvent::Passed);
    assert!(matches!(worker.action(), WorkerAction::Withdraw));
    worker.advance(WorkerEvent::Passed);
    assert!(matches!(worker.action(), WorkerAction::PollMonitor));
    worker
}

/// Leads a worker from a poll through a refresh to its publication.
fn refresh_to_publication(worker: &mut InvalidationWorker, now_ms: u64) {
    worker.advance(WorkerEvent::Answer(false));
    assert!(matches!(worker.action(), WorkerAction::ReadClock));
    worker.advance(WorkerEvent::Now(now_ms));
    assert!(matches!(worker.action(), WorkerAction::FindCache));
    worker.advance(WorkerEvent::Answer(true));
    let mut steps = 0;
    while !matches!(worker.action(), WorkerAction::LookPending) {
        worker.advance(WorkerEvent::Passed);
        steps += 1;
        assert!(steps < 20);
    }
    assert_eq!(steps, 9);
    worker.advance(WorkerEvent::Answer(false));
    assert!(matches!(worker.action(), WorkerAction::Conclude));
    worker.advance(WorkerEvent::Passed);
    assert!(matches!(worker.action(), WorkerAction::Publish));
}

#[test]
fn a_worker_serves_its_context_only() {
    let worker = watching_worker();
    assert!(worker.matches(&context()));
    let mut other = context();
    other.marker_priority = 31;
    assert!(!worker.matches(&other));
}

#[test]
fn a_worker_refreshes_at_its_pace() {
    let mut worker = watching_worker();
    refresh_to_publication(&mut worker, 1_000);
    worker.advance(WorkerEvent::Published {
        digest: Some(5),
        now_unix: 9,
    });
    assert_eq!(worker.status.map_digest, 5);
    assert_eq!(worker.status.state, AdmissionState::Published);
    // Nothing failed before, so there is no recovery to tell of.
    assert!(matches!(worker.action(), WorkerAction::AskStop));
    worker.advance(WorkerEvent::Answer(false));
    worker.advance(WorkerEvent::Answer(false));
    worker.advance(WorkerEvent::Now(1_499));
    assert!(matches!(worker.action(), WorkerAction::AskStop));
    worker.advance(WorkerEvent::Answer(false));
    // A change is withdrawn at once, due or not.
    worker.advance(WorkerEvent::Answer(true));
    assert!(matches!(worker.action(), WorkerAction::Withdraw));
    worker.advance(WorkerEvent::Passed);
    worker.advance(WorkerEvent::Now(1_500));
    assert!(matches!(worker.action(), WorkerAction::FindCache));
    // Without a cache there is nothing to refresh.
    worker.advance(WorkerEvent::Answer(false));
    assert!(matches!(worker.action(), WorkerAction::AskStop));
}

#[test]
fn a_change_during_the_observation_voids_it() {
    let mut worker = watching_worker();
    worker.advance(WorkerEvent::Answer(false));
    worker.advance(WorkerEvent::Now(0));
    worker.advance(WorkerEvent::Answer(true));
    while !matches!(worker.action(), WorkerAction::LookPending) {
        worker.advance(WorkerEvent::Passed);
    }
    worker.advance(WorkerEvent::Answer(true));
    assert!(matches!(worker.action(), WorkerAction::Withdraw));
    worker.advance(WorkerEvent::Passed);
    assert!(matches!(worker.action(), WorkerAction::AskStop));
    assert!(worker.watching);
}

#[test]
fn a_worker_trusts_nothing_behind_a_failure() {
    let mut worker = watching_worker();
    for told in [true, false] {
        worker.advance(refused("neighbor is stale", 7));
        assert!(!worker.watching);
        assert_eq!(worker.status.reason.text(), "neighbor");
        assert_eq!(worker.status.updated_unix_seconds, 7);
        assert!(matches!(worker.action(), WorkerAction::Withdraw));
        worker.advance(WorkerEvent::Passed);
        if told {
            match worker.action() {
                WorkerAction::Warn { text } => {
                    assert_eq!(text, "neighbor is stale; redirect cache invalidated")
                }
                other => panic!("{other:?}"),
            }
            worker.advance(WorkerEvent::Passed);
        }
        for _ in 0..5 {
            assert!(matches!(worker.action(), WorkerAction::AskStop));
            worker.advance(WorkerEvent::Answer(false));
            assert!(matches!(worker.action(), WorkerAction::Wait { ms: 200 }));
            worker.advance(WorkerEvent::Passed);
        }
        assert!(matches!(worker.action(), WorkerAction::AskStop));
        worker.advance(WorkerEvent::Answer(false));
        // The monitor is opened anew, between two withdrawals.
        assert!(matches!(worker.action(), WorkerAction::Withdraw));
        worker.advance(WorkerEvent::Passed);
        assert!(matches!(worker.action(), WorkerAction::OpenMonitor));
        worker.advance(WorkerEvent::Passed);
        assert!(matches!(worker.action(), WorkerAction::Withdraw));
        worker.advance(WorkerEvent::Passed);
        assert!(matches!(worker.action(), WorkerAction::PollMonitor));
    }
    refresh_to_publication(&mut worker, 4_000);
    // A publication that was overtaken is no recovery.
    worker.advance(WorkerEvent::Published {
        digest: None,
        now_unix: 8,
    });
    assert_eq!(worker.status.state, AdmissionState::Blocked);
    worker.advance(WorkerEvent::Answer(false));
    refresh_to_publication(&mut worker, 4_500);
    worker.advance(WorkerEvent::Published {
        digest: Some(6),
        now_unix: 9,
    });
    assert!(matches!(worker.action(), WorkerAction::TellRecovered));
    assert_eq!(worker.previous_error, None);
}

#[test]
fn a_worker_withdraws_everything_when_it_stops() {
    let mut worker = watching_worker();
    worker.advance(WorkerEvent::Answer(false));
    worker.advance(WorkerEvent::Now(0));
    worker.advance(WorkerEvent::Answer(false));
    worker.advance(WorkerEvent::Answer(true));
    assert!(matches!(worker.action(), WorkerAction::Withdraw));
    worker.advance(WorkerEvent::Passed);
    assert!(matches!(worker.action(), WorkerAction::Finished));

    let mut worker = watching_worker();
    worker.advance(refused("route is gone", 1));
    worker.advance(refused("map is gone", 2));
    match worker.action() {
        WorkerAction::Warn { text } => assert_eq!(
            text,
            "route is gone; cache invalidation ALSO failed: map is gone"
        ),
        other => panic!("{other:?}"),
    }
    worker.advance(WorkerEvent::Passed);
    worker.advance(WorkerEvent::Answer(true));
    assert!(matches!(worker.action(), WorkerAction::Withdraw));
    worker.advance(refused("map is gone", 3));
    match worker.action() {
        WorkerAction::TellError { text } => {
            assert_eq!(text, "invalidating cache on monitor exit failed: map is gone")
        }
        other => panic!("{other:?}"),
    }
    worker.advance(WorkerEvent::Passed);
    assert!(matches!(worker.action(), WorkerAction::Finished));
}

#[test]
fn a_worker_does_not_start_on_what_it_cannot_withdraw() {
    let mut worker = InvalidationWorker::spawn(context(), RedirectAdmissionStatus::default());
    worker.advance(refused("map is gone", 3));
    assert!(matches!(worker.action(), WorkerAction::NotStarted));
    worker.advance(WorkerEvent::Answer(false));
    assert!(matches!(worker.action(), WorkerAction::NotStarted));
}

#[test]
fn a_failure_tells_what_became_of_the_cache() {
    assert_eq!(
        failure_text("a", None),
        "a; redirect cache invalidated"
    );
    assert_eq!(
        failure_text("a", Some("b")),
        "a; cache invalidation ALSO failed: b"
    );
}
