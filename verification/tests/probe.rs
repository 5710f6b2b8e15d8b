use edge_lb::config::{
    ActiveSource, BackendNode, BackendTarget, Config, Listener, NetworkConfig, NodeRole,
    Protocol, TargetGroup,
};
use edge_lb::native::health::target_health_identity;
use edge_lb::native::probe::{
    names_key, probe_is_due, scheduled_targets, ProbeOutcome, ProbeResult, ProbeState,
    ProbeTarget, Scheduled,
};
use edge_lb::native::probe_io::{
    holds_bytes, http_outcome, http_status_is_healthy, http_url, packet_checksum, ping_outcome,
    ping_request, probe_method, probe_target, push_socket, tcp_begin, tcp_read, udp_outcome, ProbeMethod,
    TcpRead, TcpStep, UdpReply,
};
use edge_lb::net::{parse_ip, IpAddr};
use edge_lb::table::Table;

fn v4(text: &str) -> IpAddr {
    let chars: Vec<char> = text.chars().collect();
    parse_ip(&chars).expect("an address")
}

fn base_config() -> Config {
    Config {
        node_role: NodeRole::Gateway,
        node_name: "node-a".to_string(),
        public_ip: v4("203.0.113.1"),
        underlay_ip: v4("192.0.2.1"),
        active_source: ActiveSource::File,
        network: NetworkConfig {
            gateway_public_ip: v4("203.0.113.1"),
            backend_public_ip: None,
            gateway_ip: v4("192.0.2.1"),
            standby_gateway_ip: None,
            backend_ip: None,
            underlay_dev: "eth0".to_string(),
            vxlan_dev: "edge0".to_string(),
            overlay_cidr: "10.255.0.0/24".to_string(),
            vni: 100,
            vxlan_port: 4789,
            vxlan_mtu: 1450,
            dscp: 46,
        },
        gateway_overlay_ip: "10.255.0.1/24".to_string(),
        api_trusted_source_cidrs: vec![],
        metrics: None,
        gateway_nodes: vec![],
        backend_nodes: vec![],
        backend_return_paths: vec![],
        nft_table: "edge_lb".to_string(),
        mss: 1360,
        listeners: vec![],
        target_groups: vec![],
        ha: None,
    }
}

fn local_probe(kind: &str, port: u16) -> ProbeTarget {
    ProbeTarget {
        names: vec!["test".to_string()],
        address: v4("127.0.0.1"),
        port,
        probe_type: kind.to_string(),
        probe_req: Some("health".to_string()),
        probe_resp: Some("healthy".to_string()),
        expected_status: None,
        skip_tls_verify: false,
        timeout_ms: 500,
        period_ms: 15_000,
        retries: 3,
    }
}

#[test]
fn tcp_matching_spans_multiple_reads() {
    let target = local_probe("tcp", 8080);
    assert_eq!(tcp_begin(&target), TcpStep::Read);
    let mut response = Vec::new();
    assert_eq!(
        tcp_read(&target, &mut response, &TcpRead::Data(b"hea".to_vec())),
        TcpStep::Read
    );
    assert_eq!(
        tcp_read(&target, &mut response, &TcpRead::Data(b"lthy".to_vec())),
        TcpStep::Done(ProbeOutcome::Pass)
    );
    let mut response = b"hea".to_vec();
    assert_eq!(
        tcp_read(&target, &mut response, &TcpRead::End),
        TcpStep::Done(ProbeOutcome::Fail)
    );
    let mut silent = local_probe("tcp", 8080);
    silent.probe_resp = None;
    assert_eq!(tcp_begin(&silent), TcpStep::Done(ProbeOutcome::Pass));
}

#[test]
fn udp_silence_fails_only_when_a_response_is_required() {
    let mut target = local_probe("udp", 8080);
    assert_eq!(
        udp_outcome(&target, &UdpReply::Silence),
        ProbeOutcome::Fail
    );
    assert_eq!(
        udp_outcome(&target, &UdpReply::Data(b"is healthy".to_vec())),
        ProbeOutcome::Pass
    );
    target.probe_resp = None;
    assert_eq!(
        udp_outcome(&target, &UdpReply::Silence),
        ProbeOutcome::Pass
    );
    assert_eq!(
        udp_outcome(&target, &UdpReply::Refused),
        ProbeOutcome::Fail
    );
}

#[test]
fn http_uses_exact_path_status_and_response_body() {
    let mut target = local_probe("http", 8080);
    target.probe_req = Some("/health?full=1".to_string());
    target.expected_status = Some(200);
    assert_eq!(
        http_url(&target, false),
        "http://127.0.0.1:8080/health?full=1"
    );
    assert_eq!(http_outcome(&target, 200, &Some(b"healthy".to_vec())), ProbeOutcome::Pass);
    assert_eq!(http_outcome(&target, 200, &Some(b"failure".to_vec())), ProbeOutcome::Fail);
    assert_eq!(http_outcome(&target, 201, &Some(b"healthy".to_vec())), ProbeOutcome::Fail);
}

#[test]
fn independent_probe_periods_and_config_changes_are_respected() {
    let now = 100_000;
    let mut target = local_probe("tcp", 8080);
    let mut schedule = Table::new();
    schedule.insert(
        "test",
        Scheduled {
            target: target.clone(),
            due_ms: now + target.period_ms,
        },
    );
    assert!(!probe_is_due(&schedule, &target, now + 5_000));
    assert!(probe_is_due(&schedule, &target, now + 15_000));
    target.probe_resp = Some("changed".to_string());
    assert!(probe_is_due(&schedule, &target, now));
}

fn cfg_with_group(monitor: bool, probe_type: Option<&str>) -> Config {
    let mut cfg = base_config();
    cfg.target_groups = vec![TargetGroup {
        name: "web".to_string(),
        monitor,
        probe_type: probe_type.map(str::to_string),
        probe_port: None,
        probe_req: None,
        probe_resp: None,
        probe_status: None,
        probe_skip_tls_verify: false,
        period_secs: Some(5),
        retries: Some(2),
        targets: vec![BackendTarget {
            backend: None,
            address: v4("192.0.2.10"),
            probe_address: v4("192.0.2.10"),
            weight: 1,
        }],
    }];
    cfg.listeners = vec![Listener {
        name: "web".to_string(),
        port: 80,
        target_port: 8080,
        target_group: "web".to_string(),
        vip_ips: vec![],
        protocols: vec![Protocol::Tcp],
        select: 0,
        mode: 0,
        inactive_timeout: None,
    }];
    cfg
}

#[test]
fn different_groups_never_share_runtime_identity() {
    let mut cfg = cfg_with_group(true, Some("tcp"));
    let mut group = cfg.target_groups[0].clone();
    group.name = "other".to_string();
    cfg.target_groups.push(group);
    let mut listener = cfg.listeners[0].clone();
    listener.name = "other".to_string();
    listener.target_group = "other".to_string();
    cfg.listeners.push(listener);
    let targets = scheduled_targets(&cfg);
    assert_eq!(targets.len(), 2);
    assert_ne!(names_key(&targets[0].names), names_key(&targets[1].names));
}

#[test]
fn unsupported_probe_types_are_not_scheduled() {
    for probe in ["none", ""] {
        let cfg = cfg_with_group(true, if probe.is_empty() { None } else { Some(probe) });
        assert!(scheduled_targets(&cfg).is_empty(), "probe {probe:?}");
    }
}

#[test]
fn ping_probe_is_scheduled_without_a_port() {
    let cfg = cfg_with_group(true, Some("ping"));
    let targets = scheduled_targets(&cfg);
    assert_eq!(targets.len(), 1);
    assert_eq!(targets[0].port, 0);
    assert_eq!(targets[0].probe_type, "ping");
}

#[test]
fn unmonitored_groups_are_not_scheduled() {
    let cfg = cfg_with_group(false, Some("tcp"));
    assert!(scheduled_targets(&cfg).is_empty());
}

#[test]
fn executable_target_uses_listener_protocol_identity() {
    let cfg = cfg_with_group(true, Some("http"));
    let targets = scheduled_targets(&cfg);
    assert_eq!(targets.len(), 1);
    let target = &targets[0];
    assert_eq!(target.probe_type, "http");
    assert_eq!(target.port, 8080, "probe port falls back to service port");
    assert_eq!(target.retries, 2);
    assert_eq!(target.period_ms, 5_000);
    assert_eq!(
        target.names,
        vec![target_health_identity("web", v4("192.0.2.10"), "tcp", 8080)]
    );
}

#[test]
fn probe_port_does_not_change_listener_target_identity() {
    let mut cfg = cfg_with_group(true, Some("http"));
    cfg.target_groups[0].probe_port = Some(9090);
    let targets = scheduled_targets(&cfg);
    assert_eq!(targets[0].port, 9090);
    assert_eq!(
        targets[0].names,
        vec![target_health_identity("web", v4("192.0.2.10"), "tcp", 8080)]
    );
}

#[test]
fn monitored_backend_target_uses_same_service_address_for_probe_and_health() {
    let mut cfg = cfg_with_group(true, Some("tcp"));
    cfg.backend_nodes.push(BackendNode {
        name: "backend-1".to_string(),
        public_ip: v4("198.51.100.20"),
        underlay_ip: v4("192.0.2.20"),
        overlay_ip: "10.255.255.2/24".to_string(),
    });
    cfg.target_groups[0].targets[0] = BackendTarget {
        backend: Some("backend-1".to_string()),
        address: v4("192.0.2.20"),
        probe_address: v4("192.0.2.20"),
        weight: 1,
    };

    let targets = scheduled_targets(&cfg);
    assert_eq!(targets.len(), 1);
    assert_eq!(targets[0].address, v4("192.0.2.20"));
    assert_eq!(
        targets[0].names,
        vec![target_health_identity("web", v4("192.0.2.20"), "tcp", 8080)]
    );
}

#[test]
fn multiple_listener_protocols_expand_to_one_name_each() {
    let mut cfg = cfg_with_group(true, Some("tcp"));
    cfg.listeners[0].protocols = vec![Protocol::Tcp, Protocol::Udp];
    let targets = scheduled_targets(&cfg);
    assert_eq!(targets.len(), 1);
    assert_eq!(targets[0].names.len(), 2);
}

#[test]
fn unresolvable_auto_addresses_are_skipped() {
    let mut cfg = cfg_with_group(true, Some("tcp"));
    cfg.target_groups[0].targets[0].address = v4("0.0.0.0");
    cfg.target_groups[0].targets[0].probe_address = v4("0.0.0.0");
    assert!(scheduled_targets(&cfg).is_empty());
}

#[test]
fn target_health_identity_matches_store_convention() {
    assert_eq!(
        target_health_identity("web", v4("192.0.2.10"), "TCP", 8080),
        "web:192.0.2.10_tcp_8080"
    );
}

#[test]
fn http_status_rule_accepts_success_redirects_by_default() {
    assert!(http_status_is_healthy(200, None));
    assert!(http_status_is_healthy(302, None));
    assert!(!http_status_is_healthy(199, None));
    assert!(!http_status_is_healthy(400, None));
}

#[test]
fn http_status_rule_supports_exact_expected_status() {
    assert!(http_status_is_healthy(204, Some(204)));
    assert!(!http_status_is_healthy(200, Some(204)));
}

fn result(outcome: ProbeOutcome) -> Vec<ProbeResult> {
    vec![ProbeResult {
        target: local_probe("tcp", 8080),
        outcome,
    }]
}

#[test]
fn failures_must_repeat_before_a_target_is_unhealthy() {
    let current = vec![local_probe("tcp", 8080)];
    let mut state = ProbeState::new();
    state.begin_round(&current);
    assert!(state.begin_probe(&current[0], 0));
    state.end_probe(&current[0], 0);
    assert!(!state.begin_probe(&current[0], 14_999));
    assert!(state.begin_probe(&current[0], 15_000));
    for _ in 0..2 {
        assert!(state
            .apply_results(&result(ProbeOutcome::Fail), &current)
            .is_empty());
    }
    let updates = state.apply_results(&result(ProbeOutcome::Fail), &current);
    assert_eq!(updates.len(), 1);
    assert!(!updates[0].healthy);
    let updates = state.apply_results(&result(ProbeOutcome::Pass), &current);
    assert!(updates[0].healthy);
    assert!(state
        .apply_results(&result(ProbeOutcome::Fail), &current)
        .is_empty());
    assert!(
        state
            .apply_results(&result(ProbeOutcome::Pass), &[])
            .is_empty(),
        "a probe that is gone gives no verdict"
    );
}

#[test]
fn pings_carry_a_checksum() {
    let request = ping_request(0x1234, 1);
    assert_eq!(request[..2], [8, 0]);
    assert_eq!(request[4..8], [0x12, 0x34, 0, 1]);
    assert_eq!(packet_checksum(&request), 0);
    assert_eq!(request[2..4], [0xe5, 0xca]);
    let mut reply = request.clone();
    reply[0] = 0;
    assert_eq!(ping_outcome(&reply, 0x1234, 1), ProbeOutcome::Pass);
    assert_eq!(ping_outcome(&reply, 0x1234, 2), ProbeOutcome::Fail);
    assert_eq!(ping_outcome(&request, 0x1234, 1), ProbeOutcome::Fail);
    let mut framed = vec![0x45; 1];
    framed.resize(20, 0);
    framed.extend_from_slice(&reply);
    assert_eq!(ping_outcome(&framed, 0x1234, 1), ProbeOutcome::Pass);
    assert_eq!(ping_outcome(&framed[..24], 0x1234, 1), ProbeOutcome::Fail);
}

#[test]
fn probes_are_run_by_their_kind() {
    let method = |kind: &str| probe_method(&local_probe(kind, 1));
    assert_eq!(
        method("ping"),
        ProbeMethod::Ping {
            address: 0x7f00_0001
        }
    );
    let mut six = local_probe("ping", 1);
    six.address = v4("::1");
    assert_eq!(probe_method(&six), ProbeMethod::Refuse);
    assert_eq!(method("tcp"), ProbeMethod::Tcp);
    assert_eq!(method("udp"), ProbeMethod::Udp);
    let http = |tls: bool, verify: bool| ProbeMethod::Http { tls, verify };
    assert_eq!(method("http"), http(false, true));
    assert_eq!(method("https"), http(true, true));
    let mut trusting = local_probe("https", 1);
    trusting.skip_tls_verify = true;
    assert_eq!(probe_method(&trusting), http(true, false));
    trusting.probe_type = "http".to_string();
    assert_eq!(probe_method(&trusting), http(false, true));
    let pass = Some(ProbeOutcome::Pass);
    assert_eq!(probe_target(ProbeMethod::Tcp, pass), ProbeOutcome::Pass);
    assert_eq!(probe_target(ProbeMethod::Tcp, None), ProbeOutcome::Fail);
    assert_eq!(probe_target(ProbeMethod::Refuse, pass), ProbeOutcome::Fail);
    assert_eq!(probe_target(ProbeMethod::Skip, None), ProbeOutcome::Pass);
    assert_eq!(method("other"), ProbeMethod::Skip);
    assert!(holds_bytes(b"abc", b"bc"));
    assert!(!holds_bytes(b"abc", b"cb"));
    let mut socket = String::new();
    push_socket(&mut socket, v4("::1"), 8080);
    assert_eq!(socket, "[::1]:8080");
    let mut plain = local_probe("http", 80);
    plain.probe_req = None;
    assert_eq!(http_url(&plain, true), "https://127.0.0.1:80/");
}
