use edge_lb::bytes::ByteOrder;
use edge_lb::config::{
    ActiveSource, Config, GatewayNode, GatewayReturnPath, NetworkConfig, NodeRole,
};
use edge_lb::linux::conflict::{ownership_conflicts, return_tables};
use edge_lb::linux::return_path::{
    apply, apply_managed_reusing, cleanup, ensure_policy_routing, heal, heal_after_table,
    heal_result, signature, RoutingAction,
    TableAction,
};
use edge_lb::linux::route::{
    ip_sort_key, parse_ip_attr, parse_policy_rule, parse_route_entry, parse_u32_attr,
    policy_rule_present, read_route_dump, read_rule_dump, return_routes, route_descriptions,
    route_dump_body, rule_dump_body, table_field, validate_rules, validate_table, PolicyRule,
    ReturnRoute, RouteEntry, RouteError, RouteOwnership, AF_INET, AF_INET6, FRA_FWMARK,
    FRA_FWMASK, FRA_PRIORITY, FRA_PROTOCOL, FRA_TABLE, FR_ACT_TO_TBL, RTA_DST, RTA_OIF,
    RTA_PREFSRC, RTA_TABLE, RTM_NEWRULE, RTN_UNICAST, RTPROT_STATIC, RT_SCOPE_LINK,
    RT_SCOPE_UNIVERSE,
};
use edge_lb::linux::tc::{
    add_clsact, add_clsact_best_effort, delete_clsact, delete_clsact_best_effort, delete_egress_pref_best_effort,
    delete_ingress_pref_best_effort, delete_pref, dump_filters, dump_filters_request, receive,
    replace_clsact_best_effort, show_ingress, tc_parent, Direction, FilterInfo, NetlinkMessage,
    TcError, RTM_DELTFILTER, RTM_NEWTFILTER,
};
use edge_lb::net::{parse_ip, IpAddr};
use edge_lb::nla::{push_attr, NLMSG_DONE, NLMSG_ERROR, NLM_F_DUMP_INTR, NLM_F_MULTI};

const ORDER: ByteOrder = ByteOrder::Little;

fn v4(text: &str) -> IpAddr {
    let chars: Vec<char> = text.chars().collect();
    parse_ip(&chars).expect("an address")
}

fn base_config() -> Config {
    Config {
        node_role: NodeRole::Gateway,
        node_name: "node-a".to_string(),
        public_ip: v4("203.0.113.1"),
        underlay_ip: v4("192.0.2.1"),
        active_source: ActiveSource::File,
        network: NetworkConfig {
            gateway_public_ip: v4("203.0.113.1"),
            backend_public_ip: None,
            gateway_ip: v4("192.0.2.1"),
            standby_gateway_ip: None,
            backend_ip: None,
            underlay_dev: "eth0".to_string(),
            vxlan_dev: "edge0".to_string(),
            overlay_cidr: "10.255.0.0/24".to_string(),
            vni: 100,
            vxlan_port: 4789,
            vxlan_mtu: 1450,
            dscp: 46,
        },
        gateway_overlay_ip: "10.255.0.1/24".to_string(),
        api_trusted_source_cidrs: vec![],
        metrics: None,
        gateway_nodes: vec![],
        backend_nodes: vec![],
        backend_return_paths: vec![],
        nft_table: "edge_lb".to_string(),
        mss: 1360,
        listeners: vec![],
        target_groups: vec![],
        ha: None,
    }
}

fn return_mark(dscp: u32, slot: u32) -> u32 {
    0x1000 + (slot + 1) * 64 + dscp
}

fn return_table_id(dscp: u32, slot: u32) -> u32 {
    1000 + (slot + 1) * 64 + dscp
}

fn return_path(name: &str, underlay: &str, overlay: &str, dscp: u32, slot: u32) -> GatewayReturnPath {
    GatewayReturnPath {
        gateway: Some(name.to_string()),
        gateway_underlay_ip: v4(underlay),
        gateway_overlay_ip: v4(overlay),
        backend_overlay_ip: None,
        dscp,
        mark: return_mark(dscp, slot),
        route_table_id: return_table_id(dscp, slot),
    }
}

#[test]
fn return_routes_derive_gateway_slotted_mark_and_table() {
    let mut cfg = base_config();
    cfg.gateway_nodes = vec![
        GatewayNode {
            name: "gateway-a".to_string(),
            public_ip: v4("203.0.113.10"),
            underlay_ip: v4("192.168.0.12"),
            overlay_ip: "10.255.12.1/24".to_string(),
        },
        GatewayNode {
            name: "gateway-b".to_string(),
            public_ip: v4("203.0.113.11"),
            underlay_ip: v4("192.168.0.16"),
            overlay_ip: "10.255.16.1/24".to_string(),
        },
    ];
    cfg.backend_return_paths = vec![
        return_path("gateway-b", "192.168.0.16", "10.255.16.1", 40, 1),
        return_path("gateway-a", "192.168.0.12", "10.255.12.1", 46, 0),
    ];
    assert_eq!(
        return_routes(&cfg)
            .unwrap()
            .iter()
            .map(|route| (route.mark, route.table))
            .collect::<Vec<_>>(),
        vec![(0x106e, 1110), (0x10a8, 1168)]
    );
}

#[test]
fn return_routes_refuse_codepoints_above_the_limit() {
    let mut cfg = base_config();
    cfg.backend_return_paths = vec![return_path("a", "192.168.0.16", "10.255.16.1", 64, 0)];
    assert_eq!(return_routes(&cfg), Err(RouteError::Dscp(64)));
    assert!(ip_sort_key(v4("255.0.0.1")) < ip_sort_key(v4("::1")));
}

fn push_attr_u32(buf: &mut Vec<u8>, kind: u16, value: u32) {
    push_attr(ORDER, buf, kind, &value.to_le_bytes());
}

fn rule_body_for_test(mark: u32, mask: u32, priority: u32, table: u32) -> Vec<u8> {
    let mut body = vec![
        AF_INET,
        0,
        0,
        0,
        table_field(table),
        0,
        0,
        FR_ACT_TO_TBL,
        0,
        0,
        0,
        0,
    ];
    push_attr_u32(&mut body, FRA_PRIORITY, priority);
    push_attr_u32(&mut body, FRA_FWMARK, mark);
    push_attr_u32(&mut body, FRA_FWMASK, mask);
    push_attr_u32(&mut body, FRA_TABLE, table);
    push_attr(ORDER, &mut body, FRA_PROTOCOL, &[RTPROT_STATIC]);
    body
}

fn test_rule() -> PolicyRule {
    parse_policy_rule(
        ORDER,
        &rule_body_for_test(return_mark(46, 0), u32::MAX, 100, return_table_id(46, 0)),
    )
    .unwrap()
}

fn desired_route() -> ReturnRoute {
    ReturnRoute {
        gateway_underlay: v4("192.0.2.1"),
        gateway_overlay: v4("10.44.0.1"),
        mark: return_mark(46, 0),
        table: return_table_id(46, 0),
    }
}

fn default_entry_for_test(table: u32, gateway_overlay: IpAddr, oif: u32) -> RouteEntry {
    RouteEntry {
        supported: true,
        family: AF_INET,
        table,
        dst_len: 0,
        dst: None,
        gateway: Some(gateway_overlay),
        oif: Some(oif),
        prefsrc: None,
    }
}

fn host_entry_for_test(table: u32, dst: IpAddr, oif: u32, preferred_src: IpAddr) -> RouteEntry {
    RouteEntry {
        supported: true,
        family: AF_INET,
        table,
        dst_len: 32,
        dst: Some(dst),
        gateway: None,
        oif: Some(oif),
        prefsrc: Some(preferred_src),
    }
}

fn route_body_for_test(table: u32, family: u8, dst_len: u8, scope: u8) -> Vec<u8> {
    vec![
        family,
        dst_len,
        0,
        0,
        table_field(table),
        RTPROT_STATIC,
        scope,
        RTN_UNICAST,
        0,
        0,
        0,
        0,
    ]
}

fn push_attr_ip_for_test(buf: &mut Vec<u8>, kind: u16, value: IpAddr) {
    match value {
        IpAddr::V4(ip) => push_attr(ORDER, buf, kind, &ip.to_be_bytes()),
        IpAddr::V6(ip) => push_attr(ORDER, buf, kind, &ip.to_be_bytes()),
    }
}

#[test]
fn numeric_ranges_and_expected_shape_do_not_establish_ownership() {
    let ownership = RouteOwnership::default();
    let route = default_entry_for_test(return_table_id(46, 0), v4("10.44.0.1"), 11);
    assert!(!ownership.owns_rule(&test_rule()));
    assert!(!ownership.owns_route(&route));
    assert!(validate_table(&[route], &ownership).is_err());
    assert!(validate_rules(&[test_rule()], &[desired_route()], &ownership).is_err());
}

#[test]
fn ownership_requires_exact_rule_identity() {
    let rule = test_rule();
    let ownership = RouteOwnership {
        rules: vec![rule],
        ..Default::default()
    };
    assert!(ownership.owns_rule(&rule));
    let variants = [
        PolicyRule {
            mark: Some(9),
            ..rule
        },
        PolicyRule {
            mask: Some(0xff),
            ..rule
        },
        PolicyRule { table: 999, ..rule },
        PolicyRule {
            priority: 101,
            ..rule
        },
        PolicyRule {
            protocol: 99,
            ..rule
        },
        PolicyRule {
            supported: false,
            ..rule
        },
    ];
    for foreign in variants {
        assert!(!ownership.owns_rule(&foreign));
        assert!(validate_rules(&[foreign], &[desired_route()], &ownership).is_err());
    }
}

#[test]
fn unrelated_priority_is_not_a_conflict_but_mask_overlap_is() {
    let mut foreign = test_rule();
    foreign.mark = Some(9);
    foreign.table = 999;
    assert!(validate_rules(
        &[foreign],
        &[desired_route()],
        &RouteOwnership::default()
    )
    .is_ok());
    foreign.mark = Some(0x1000);
    foreign.mask = Some(0xf000);
    assert!(validate_rules(&[foreign], &[desired_route()], &RouteOwnership::default()).is_err());
}

#[test]
fn previous_gateway_routes_remain_owned_but_foreign_host_routes_do_not() {
    let old = host_entry_for_test(1110, v4("192.0.2.1"), 2, v4("192.0.2.10"));
    let ownership = RouteOwnership {
        routes: vec![old],
        ..Default::default()
    };
    assert!(validate_table(&[old], &ownership).is_ok());
    for foreign in [
        host_entry_for_test(1110, v4("192.0.2.99"), 2, v4("192.0.2.10")),
        host_entry_for_test(1110, v4("192.0.2.1"), 3, v4("192.0.2.10")),
        RouteEntry {
            supported: false,
            ..old
        },
    ] {
        assert!(validate_table(&[foreign], &ownership).is_err());
    }
}

#[test]
fn a_stored_record_counts_in_its_boot_and_namespace_only() {
    let ownership = RouteOwnership {
        scope: "boot:netns".into(),
        rules: vec![test_rule()],
        routes: vec![default_entry_for_test(1110, v4("10.44.0.1"), 11)],
    };
    let same = RouteOwnership::decode(Some(ownership.clone()), "boot:netns".into());
    assert_eq!(same.scope, ownership.scope);
    assert_eq!(same.rules, ownership.rules);
    assert_eq!(same.routes, ownership.routes);
    let rebooted = RouteOwnership::decode(Some(ownership.clone()), "new-boot:netns".into());
    assert!(rebooted.rules.is_empty());
    assert_eq!(rebooted.scope, "new-boot:netns");
    let elsewhere = RouteOwnership::decode(Some(ownership), "boot:other-netns".into());
    assert!(elsewhere.routes.is_empty());
    assert!(RouteOwnership::decode(None, "boot:netns".into())
        .rules
        .is_empty());
}

#[test]
fn rule_selectors_and_route_attributes_cannot_be_ignored_for_ownership() {
    let mut body = rule_body_for_test(0x106e, u32::MAX, 100, 1110);
    push_attr_u32(&mut body, 3, 42);
    assert!(!parse_policy_rule(ORDER, &body).unwrap().supported);
    let mut body = route_body_for_test(1110, AF_INET, 0, RT_SCOPE_UNIVERSE);
    push_attr_u32(&mut body, 6, 10);
    assert!(!parse_route_entry(ORDER, &body).unwrap().supported);
}

fn header(len: u32, kind: u16, flags: u16, seq: u32) -> Vec<u8> {
    let mut bytes = len.to_le_bytes().to_vec();
    bytes.extend_from_slice(&kind.to_le_bytes());
    bytes.extend_from_slice(&flags.to_le_bytes());
    bytes.extend_from_slice(&seq.to_le_bytes());
    bytes.extend_from_slice(&0u32.to_le_bytes());
    bytes
}

fn dump_error(message: &[u8], route_dump: bool) -> RouteError {
    let mut buf = vec![0u8; 32768];
    let kept = message.len().min(buf.len());
    buf[..kept].copy_from_slice(&message[..kept]);
    if route_dump {
        read_route_dump(ORDER, &buf, message.len(), 1, 1110, &mut vec![]).unwrap_err()
    } else {
        read_rule_dump(ORDER, &buf, message.len(), 1, &mut vec![]).unwrap_err()
    }
}

#[test]
fn interrupted_dump_is_not_an_empty_ownership_snapshot() {
    let message = header(16, NLMSG_DONE, NLM_F_DUMP_INTR, 1);
    for route_dump in [false, true] {
        assert_eq!(
            dump_error(&message, route_dump),
            RouteError::InterruptedDump
        );
    }
}

#[test]
fn truncated_dump_is_not_an_empty_ownership_snapshot() {
    for route_dump in [false, true] {
        assert_eq!(
            dump_error(&vec![0u8; 40000], route_dump),
            RouteError::TruncatedDump
        );
    }
}

#[test]
fn dumps_are_read_up_to_their_end() {
    let body = rule_body_for_test(return_mark(46, 0), u32::MAX, 100, return_table_id(46, 0));
    let mut bytes = header(16 + body.len() as u32, RTM_NEWRULE, NLM_F_MULTI, 1);
    bytes.extend_from_slice(&body);
    while bytes.len() % 4 != 0 {
        bytes.push(0);
    }
    bytes.extend_from_slice(&header(16, NLMSG_DONE, NLM_F_MULTI, 1));
    let mut rules = vec![];
    assert_eq!(
        read_rule_dump(ORDER, &bytes, bytes.len(), 1, &mut rules),
        Ok(true)
    );
    assert_eq!(rules, vec![test_rule()]);
    let ownership = RouteOwnership {
        rules: rules.clone(),
        ..Default::default()
    };
    assert!(policy_rule_present(&[desired_route()], &rules, &ownership));
    assert!(!policy_rule_present(
        &[desired_route()],
        &rules,
        &RouteOwnership::default()
    ));
    assert_eq!(
        dump_error(&header(8, NLMSG_DONE, 0, 1), false),
        RouteError::ShortDump
    );
    let mut refused = header(20, NLMSG_ERROR, 0, 1);
    refused.extend_from_slice(&(-1i32).to_le_bytes());
    assert_eq!(dump_error(&refused, true), RouteError::Kernel(-1));
}

#[test]
fn parses_route_entry_extended_table_attr() {
    let mut body = route_body_for_test(1001, AF_INET, 32, RT_SCOPE_LINK);
    push_attr_ip_for_test(&mut body, RTA_DST, v4("192.168.0.12"));
    push_attr_u32(&mut body, RTA_OIF, 2);
    push_attr_ip_for_test(&mut body, RTA_PREFSRC, v4("192.168.0.14"));
    push_attr_u32(&mut body, RTA_TABLE, 1001);

    let route = parse_route_entry(ORDER, &body).unwrap();
    assert_eq!(route.table, 1001);
    assert_eq!(route.dst, Some(v4("192.168.0.12")));
    assert_eq!(route.oif, Some(2));
    assert_eq!(route.prefsrc, Some(v4("192.168.0.14")));
}

#[test]
fn routes_are_told_in_words() {
    let routes = [
        default_entry_for_test(1110, v4("10.44.0.1"), 11),
        host_entry_for_test(1110, v4("192.0.2.1"), 2, v4("192.0.2.10")),
        host_entry_for_test(1110, v4("192.0.2.2"), 5, v4("192.0.2.10")),
    ];
    assert_eq!(
        route_descriptions(&routes, Some(("edge-hub", 11)), Some(("eth0", 2))),
        vec![
            "default via 10.44.0.1 dev edge-hub(11) table 1110",
            "192.0.2.1/32 dev eth0(2) src 192.0.2.10 table 1110",
            "192.0.2.2/32 dev ifindex(5) src 192.0.2.10 table 1110",
        ]
    );
}

#[test]
fn attributes_too_short_for_their_kind_are_none() {
    assert_eq!(parse_u32_attr(ORDER, &[1, 0, 0, 0, 9]), Some(1));
    assert_eq!(parse_u32_attr(ORDER, &[1, 0, 0]), None);
    assert_eq!(parse_ip_attr(AF_INET, &[10, 0, 0, 1]), Some(v4("10.0.0.1")));
    assert_eq!(parse_ip_attr(AF_INET6, &[10, 0, 0, 1]), None);
    assert_eq!(table_field(254), 254);
    assert_eq!(table_field(1110), 0);
    assert_eq!(rule_dump_body().len(), 12);
    assert_eq!(route_dump_body(ORDER, 1110)[4], 0);
}

fn path_config() -> Config {
    let mut cfg = base_config();
    cfg.nft_table = "edge_lb_backend_test".to_string();
    cfg.mss = 1400;
    cfg.network.vxlan_dev = "edge-return".to_string();
    cfg.backend_return_paths = vec![GatewayReturnPath {
        backend_overlay_ip: Some("10.44.0.2/24".to_string()),
        ..return_path("gateway-a", "192.0.2.1", "10.44.0.1", 46, 0)
    }];
    cfg
}

#[test]
fn managed_signature_tracks_nft_ruleset_inputs() {
    let base = path_config();
    let base_sig = signature(&base);
    assert!(base_sig.matches(&signature(&path_config())));

    let mut changed_mss = path_config();
    changed_mss.mss = 1360;
    assert!(!base_sig.matches(&signature(&changed_mss)));

    let mut changed_dev = path_config();
    changed_dev.network.vxlan_dev = "edge-return-2".to_string();
    assert!(!base_sig.matches(&signature(&changed_dev)));

    let mut changed_path = path_config();
    changed_path.backend_return_paths[0].dscp = 40;
    changed_path.backend_return_paths[0].mark = return_mark(40, 0);
    changed_path.backend_return_paths[0].route_table_id = return_table_id(40, 0);
    assert!(!base_sig.matches(&signature(&changed_path)));
}

#[test]
fn a_table_is_kept_while_its_inputs_stay() {
    let cfg = path_config();
    assert_eq!(apply(&cfg), TableAction::Build);
    let (managed, first) = apply_managed_reusing(&cfg, &None, true);
    assert_eq!(first, TableAction::Build);
    let (_, second) = apply_managed_reusing(&cfg, &Some(managed.clone()), true);
    assert_eq!(second, TableAction::Keep);
    let (_, gone) = apply_managed_reusing(&cfg, &Some(managed), false);
    assert_eq!(gone, TableAction::Build);
    assert_eq!(heal(&cfg, true), (TableAction::Keep, RoutingAction::Ensure));
    assert_eq!(heal(&cfg, false).0, TableAction::Build);
    let bare = base_config();
    assert_eq!(apply(&bare), TableAction::Delete);
    assert_eq!(heal(&bare, true).0, TableAction::Delete);
    // A table that cannot be built leaves policy routing alone.
    assert_eq!(heal_after_table(TableAction::Build, Err("nft")), Err("nft"));
    assert_eq!(
        heal_after_table::<&str>(TableAction::Build, Ok(())),
        Ok(RoutingAction::Ensure)
    );
    assert_eq!(
        heal_after_table::<&str>(TableAction::Keep, Ok(())),
        Ok(RoutingAction::Ensure)
    );
    assert_eq!(
        heal_result(TableAction::Build, Err("nft"), Err("route")),
        Err("nft")
    );
    assert_eq!(
        heal_result(TableAction::Keep, Ok(()), Err("route")),
        Err("route")
    );
    assert_eq!(
        heal_result::<&str>(TableAction::Delete, Ok(()), Ok(())),
        Ok(())
    );
    assert_eq!(cleanup(&cfg), (TableAction::Delete, RoutingAction::Remove));
    assert_eq!(ensure_policy_routing(&cfg), RoutingAction::Ensure);
}

fn filter(pref: u16, handle: u32) -> FilterInfo {
    FilterInfo {
        pref,
        handle,
        kind: "bpf".to_string(),
        name: None,
        prog_id: None,
    }
}

fn kind_of(request: &[u8]) -> u16 {
    u16::from_le_bytes([request[4], request[5]])
}

#[test]
fn deleting_a_priority_spares_the_other_filters() {
    let filters = [filter(30, 1), filter(31, 2), filter(30, 3)];
    let requests = delete_pref(ORDER, 7, Direction::Ingress, 30, &filters);
    assert_eq!(requests.len(), 2);
    for (request, handle) in requests.iter().zip([1u32, 3]) {
        assert_eq!(kind_of(request), RTM_DELTFILTER);
        assert_eq!(request[20..24], 7u32.to_le_bytes());
        assert_eq!(request[24..28], handle.to_le_bytes());
        assert_eq!(request[28..32], 0xffff_fff2u32.to_le_bytes());
        assert_eq!(request[32..36], (30u32 << 16).to_le_bytes());
    }
    assert_eq!(tc_parent(Direction::Egress), 0xffff_fff3);
    assert!(delete_ingress_pref_best_effort(ORDER, 7, 30, &None).is_empty());
    assert_eq!(
        delete_egress_pref_best_effort(ORDER, 7, 31, &Some(filters.to_vec())).len(),
        1
    );
}

#[test]
fn a_fresh_qdisc_takes_the_place_of_an_old_one() {
    let requests = replace_clsact_best_effort(ORDER, 7);
    assert_eq!(
        requests,
        vec![delete_clsact(ORDER, 7), add_clsact(ORDER, 7)]
    );
    assert_eq!(delete_clsact_best_effort(ORDER, 7).len(), 1);
    assert_eq!(
        add_clsact_best_effort(ORDER, 7),
        vec![add_clsact(ORDER, 7)]
    );
    let added = add_clsact(ORDER, 7);
    assert_eq!(added.len(), 48);
    assert_eq!(added[40..47], *b"clsact\0");
}

fn tc_body(handle: u32, pref: u32, kind: &[u8], options: &[u8]) -> Vec<u8> {
    let mut body = vec![0u8; 8];
    body.extend_from_slice(&handle.to_le_bytes());
    body.extend_from_slice(&0u32.to_le_bytes());
    body.extend_from_slice(&(pref << 16).to_le_bytes());
    push_attr(ORDER, &mut body, 1, kind);
    push_attr(ORDER, &mut body, 2, options);
    body
}

#[test]
fn filters_are_read_from_an_answer() {
    let mut options = vec![];
    push_attr(ORDER, &mut options, 7, b"edge_marker\0");
    push_attr_u32(&mut options, 11, 77);
    let body = tc_body(1, 30, b"bpf\0", &options);
    let mut bytes = header(16 + body.len() as u32, RTM_NEWTFILTER, NLM_F_MULTI, 0);
    bytes.extend_from_slice(&body);
    bytes.extend_from_slice(&header(16, NLMSG_DONE, NLM_F_MULTI, 0));
    let mut messages = vec![];
    assert_eq!(receive(ORDER, &bytes, &mut messages), Ok(false));
    assert_eq!(messages.len(), 1);
    let filters = dump_filters(ORDER, &messages).unwrap();
    assert_eq!(filters.len(), 1);
    assert_eq!(filters[0].pref, 30);
    assert_eq!(filters[0].handle, 1);
    assert_eq!(filters[0].kind, "bpf");
    assert_eq!(filters[0].name.as_deref(), Some("edge_marker"));
    assert_eq!(filters[0].prog_id, Some(77));
    assert!(show_ingress(&filters).starts_with("filter pref 30 handle 1"));
    assert_eq!(receive(ORDER, &[], &mut messages), Ok(false));
}

#[test]
fn broken_answers_are_told() {
    let mut refused = header(36, NLMSG_ERROR, 0, 0);
    refused.extend_from_slice(&(-2i32).to_le_bytes());
    refused.extend_from_slice(&[0; 16]);
    assert_eq!(
        receive(ORDER, &refused, &mut vec![]),
        Err(TcError::Kernel(-2))
    );
    let mut body = vec![0u8; 20];
    body.extend_from_slice(&[2, 0, 1, 0]);
    let bad = NetlinkMessage {
        kind: RTM_NEWTFILTER,
        data: body,
    };
    assert_eq!(
        dump_filters(ORDER, &[bad]).err(),
        Some(TcError::BadAttribute)
    );
    let mut body = vec![0u8; 20];
    body.extend_from_slice(&[9, 9]);
    let short = NetlinkMessage {
        kind: RTM_NEWTFILTER,
        data: body,
    };
    assert_eq!(
        dump_filters(ORDER, &[short]).err(),
        Some(TcError::ShortAttributes)
    );
    assert_eq!(
        dump_filters_request(ORDER, 7, Direction::Ingress).len(),
        36
    );
}

#[test]
fn foreign_rules_and_routes_are_named() {
    let desired = [desired_route(), desired_route()];
    assert_eq!(return_tables(&desired), vec![1110]);
    let rule = test_rule();
    let route = default_entry_for_test(1110, v4("10.44.0.1"), 11);
    let found = ownership_conflicts(&[rule], &[route], &desired, &RouteOwnership::default());
    assert_eq!(found.len(), 2);
    assert_eq!(found[0].kind, "route_rule");
    assert_eq!(found[0].subject, "priority 100");
    assert_eq!(
        found[0].message,
        "unowned policy rule conflicts with return path: pref 100 mark Some(4206)/Some(4294967295) table 1110"
    );
    assert_eq!(found[1].kind, "route_table");
    assert_eq!(found[1].subject, "table 1110");
    assert_eq!(
        found[1].message,
        "return table contains unowned route: default via 10.44.0.1 dev ifindex(11) table 1110"
    );
    let ownership = RouteOwnership {
        scope: String::new(),
        rules: vec![rule],
        routes: vec![route],
    };
    assert!(ownership_conflicts(&[rule], &[route], &desired, &ownership).is_empty());
}
