use edge_lb::config::{
    ActiveSource, BackendNode, BackendTarget, BfdConfig, Config, FailoverMode,
    GatewayHaRuntimeConfig, Listener, NetworkConfig, NodeRole, Protocol, TargetGroup,
    VipBindDevice, VipConfig, VipProvider,
};
use edge_lb::native::api_model::{
    HealthProbeConfig, NativeListenerSpec, NativeListenerStateEntry, NativeListenerTarget,
};
use edge_lb::native::health::{
    mutate_target_health, stored_transitions, target_health_identity, target_health_key,
    HealthUpdate,
};
use edge_lb::native::model::{
    effective_vip_ips, ipv4_addr, listeners_from_config, merge_vip_ips, ModelError,
    NativeProtocol,
};
use edge_lb::native::store::{
    default_external_ip, delete_listener, expanded_native_listener_entries,
    is_generated_listener_name, listener_entry, listener_name, merge_entries,
    native_listeners_state, normalize_entry, rebuild_listener_state, reconcile_listener_state,
    same_listener_identity, state_changed, target_group_probe, target_health,
    target_health_native, DirtyFlag, NativeProxyState, StoreError,
};
use edge_lb::net::{parse_ip, IpAddr};

fn v4(text: &str) -> IpAddr {
    let chars: Vec<char> = text.chars().collect();
    parse_ip(&chars).expect("an address")
}

fn base_config() -> Config {
    Config {
        node_role: NodeRole::Gateway,
        node_name: "node-a".to_string(),
        public_ip: v4("203.0.113.1"),
        underlay_ip: v4("192.0.2.1"),
        active_source: ActiveSource::File,
        network: NetworkConfig {
            gateway_public_ip: v4("203.0.113.1"),
            backend_public_ip: None,
            gateway_ip: v4("192.0.2.1"),
            standby_gateway_ip: None,
            backend_ip: None,
            underlay_dev: "eth0".to_string(),
            vxlan_dev: "edge0".to_string(),
            overlay_cidr: "10.255.0.0/24".to_string(),
            vni: 100,
            vxlan_port: 4789,
            vxlan_mtu: 1450,
            dscp: 46,
        },
        gateway_overlay_ip: "10.255.0.1/24".to_string(),
        api_trusted_source_cidrs: vec![],
        metrics: None,
        gateway_nodes: vec![],
        backend_nodes: vec![],
        backend_return_paths: vec![],
        nft_table: "edge_lb".to_string(),
        mss: 1360,
        listeners: vec![],
        target_groups: vec![],
        ha: None,
    }
}

fn number(text: &str) -> u32 {
    match v4(text) {
        IpAddr::V4(n) => n,
        IpAddr::V6(_) => panic!("an IPv4 address"),
    }
}

fn target(address: &str, weight: u32) -> BackendTarget {
    BackendTarget {
        backend: None,
        address: v4(address),
        probe_address: v4(address),
        weight,
    }
}

fn group(name: &str, targets: Vec<BackendTarget>) -> TargetGroup {
    TargetGroup {
        name: name.to_string(),
        monitor: false,
        probe_type: None,
        probe_port: None,
        probe_req: None,
        probe_resp: None,
        probe_status: None,
        probe_skip_tls_verify: false,
        period_secs: None,
        retries: None,
        targets,
    }
}

fn listener(name: &str, port: u16, target_port: u16, group: &str) -> Listener {
    Listener {
        name: name.to_string(),
        port,
        target_port,
        target_group: group.to_string(),
        vip_ips: vec![],
        protocols: vec![Protocol::Tcp],
        select: 0,
        mode: 0,
        inactive_timeout: None,
    }
}

fn gateway_at(ip: &str) -> Config {
    let mut cfg = base_config();
    cfg.network.gateway_ip = v4(ip);
    cfg
}

#[test]
fn registered_backend_does_not_replace_service_address_with_overlay() {
    let mut cfg = gateway_at("192.0.2.10");
    cfg.backend_nodes.push(BackendNode {
        name: "backend-1".into(),
        public_ip: v4("198.51.100.20"),
        underlay_ip: v4("192.0.2.20"),
        overlay_ip: "10.255.255.2/24".into(),
    });
    let mut registered = target("192.0.2.20", 1);
    registered.backend = Some("backend-1".into());
    cfg.target_groups.push(group("service", vec![registered]));
    let mut service = listener("service", 80, 8080, "service");
    service.protocols = vec![Protocol::Tcp, Protocol::Udp];
    cfg.listeners.push(service);
    for select in [0, 1, 2] {
        cfg.listeners[0].select = select;
        let listeners = listeners_from_config(&cfg).unwrap();
        assert_eq!(listeners.len(), 2);
        for listener in listeners {
            assert_eq!(listener.targets[0].address, number("192.0.2.20"));
            assert_eq!(listener.targets[0].port, 8080);
        }
    }
}

#[test]
fn listener_conversion_preserves_default_dnat_shape() {
    let mut cfg = gateway_at("192.0.2.10");
    cfg.network.dscp = 46;
    cfg.target_groups
        .push(group("tcp-8080-targets", vec![target("192.0.2.20", 3)]));
    cfg.listeners
        .push(listener("tcp-8080", 8080, 18080, "tcp-8080-targets"));

    let listeners = listeners_from_config(&cfg).unwrap();

    assert_eq!(listeners.len(), 1);
    assert_eq!(listeners[0].key.vip_ip, number("192.0.2.10"));
    assert_eq!(listeners[0].key.vip_port, 8080);
    assert_eq!(listeners[0].key.protocol, NativeProtocol::Tcp);
    assert_eq!(listeners[0].dscp, 46);
    assert_eq!(listeners[0].targets[0].address, number("192.0.2.20"));
    assert_eq!(listeners[0].targets[0].port, 18080);
    assert_eq!(listeners[0].targets[0].weight, 3);
}

#[test]
fn empty_target_group_is_not_a_datapath_error() {
    let mut cfg = base_config();
    cfg.target_groups.push(group("empty", vec![]));
    cfg.listeners.push(listener("tcp-80", 80, 8080, "empty"));
    assert!(listeners_from_config(&cfg).unwrap().is_empty());
}

#[test]
fn target_group_targets_are_expanded_with_weights() {
    let mut cfg = gateway_at("192.0.2.10");
    cfg.target_groups.push(group(
        "api-targets",
        vec![target("192.0.2.20", 2), target("192.0.2.21", 5)],
    ));
    cfg.listeners.push(listener("api", 8080, 8080, "api-targets"));

    let listeners = listeners_from_config(&cfg).unwrap();

    assert_eq!(listeners.len(), 1);
    assert_eq!(listeners[0].targets.len(), 2);
    assert_eq!(listeners[0].targets[0].weight, 2);
    assert_eq!(listeners[0].targets[1].weight, 5);
}

#[test]
fn listener_vip_list_expands_to_independent_runtime_keys() {
    let mut cfg = gateway_at("192.0.2.1");
    cfg.target_groups
        .push(group("api-targets", vec![target("192.0.2.20", 1)]));
    let mut api = listener("api", 8080, 8080, "api-targets");
    api.vip_ips = vec![v4("192.0.2.10"), v4("192.0.2.11")];
    cfg.listeners.push(api);

    let listeners = listeners_from_config(&cfg).unwrap();

    assert_eq!(listeners.len(), 3);
    assert_eq!(listeners[0].key.vip_ip, number("192.0.2.1"));
    assert_eq!(listeners[1].key.vip_ip, number("192.0.2.10"));
    assert_eq!(listeners[2].key.vip_ip, number("192.0.2.11"));
}

#[test]
fn shared_vip_is_installed_for_backup_datapath() {
    let values = merge_vip_ips(number("192.0.2.1"), &[], Some(number("192.0.2.100"))).unwrap();
    assert_eq!(values, vec![number("192.0.2.1"), number("192.0.2.100")]);
}

#[test]
fn addresses_that_the_datapath_cannot_use_are_refused() {
    assert_eq!(ipv4_addr(v4("0.0.0.0")), Err(ModelError::Unspecified));
    assert_eq!(ipv4_addr(v4("::1")), Err(ModelError::Ipv6(1)));
    assert_eq!(
        merge_vip_ips(1, &[IpAddr::V4(2), IpAddr::V4(1), IpAddr::V4(2)], Some(2)),
        Ok(vec![1, 2])
    );
    assert_eq!(
        merge_vip_ips(1, &[IpAddr::V4(0)], None),
        Err(ModelError::Unspecified)
    );
    let mut cfg = gateway_at("0.0.0.0");
    assert_eq!(effective_vip_ips(&cfg, &[]), Err(ModelError::Gateway));
    cfg.network.gateway_ip = v4("192.0.2.1");
    cfg.listeners.push(listener("web", 80, 80, "gone"));
    assert_eq!(
        listeners_from_config(&cfg).err(),
        Some(ModelError::MissingGroup)
    );
    assert_eq!(NativeProtocol::Tcp.ip_proto(), 6);
    assert_eq!(NativeProtocol::Udp.ip_proto(), 17);
}

#[test]
fn the_shared_address_of_a_pair_is_listened_on() {
    let mut cfg = gateway_at("192.0.2.1");
    cfg.ha = Some(GatewayHaRuntimeConfig {
        enabled: true,
        failover: FailoverMode::Manual,
        peers: vec![],
        preferred_active: None,
        vip: VipConfig {
            provider: VipProvider::L2,
            bind_device: VipBindDevice::Underlay,
            private_vip: Some("192.0.2.100".to_string()),
            promote_hook: String::new(),
            demote_hook: String::new(),
            verify_hook: String::new(),
        },
        bfd: BfdConfig {
            bind_addr: "0.0.0.0".to_string(),
            port: 3784,
            interval_ms: 300,
            detect_multiplier: 3,
        },
        xsync_port: 22222,
    });
    assert_eq!(
        effective_vip_ips(&cfg, &[]),
        Ok(vec![number("192.0.2.1"), number("192.0.2.100")])
    );
}

fn projection_config() -> Config {
    let mut cfg = gateway_at("192.0.2.1");
    let mut web = listener("tcp-8080", 8080, 18080, "web");
    web.vip_ips = vec![v4("192.0.2.10")];
    cfg.listeners.push(web);
    let mut targets = group("web", vec![target("198.51.100.10", 1)]);
    targets.monitor = true;
    targets.probe_type = Some("tcp".into());
    targets.probe_port = Some(18081);
    cfg.target_groups.push(targets);
    cfg
}

#[test]
fn projection_preserves_health_and_removes_deleted_listener_state() {
    let mut cfg = projection_config();
    let mut state = NativeProxyState::default();
    rebuild_listener_state(&cfg, &mut state).unwrap();
    assert!(state.listeners[0]
        .spec
        .vip_ips
        .contains(&"192.0.2.10".to_string()));
    assert_eq!(state.listeners[0].targets[0].target_port, 18080);
    assert_eq!(state.target_health[0].probe_port, Some(18081));
    state.target_health[0].current_state = Some("ok".into());
    let before = Some(state.clone());
    rebuild_listener_state(&cfg, &mut state).unwrap();
    assert!(!state_changed(&before, &state));
    assert_eq!(state.target_health[0].current_state, Some("ok".to_string()));
    cfg.listeners.clear();
    rebuild_listener_state(&cfg, &mut state).unwrap();
    assert!(state.listeners.is_empty());
    assert!(state.target_health.is_empty());
    assert!(state_changed(&before, &state));
}

#[test]
fn a_projection_that_changes_nothing_is_not_stored() {
    let cfg = projection_config();
    let (state, store) = reconcile_listener_state(&cfg, &None).unwrap();
    assert!(store);
    let stored = Some(state);
    let (state, store) = reconcile_listener_state(&cfg, &stored).unwrap();
    assert!(!store);
    assert_eq!(target_health(&state).len(), 1);
    assert_eq!(target_health_native(&state).entries.len(), 1);
    let mut other = cfg.clone();
    other.listeners.clear();
    let (state, store) = reconcile_listener_state(&other, &Some(state)).unwrap();
    assert!(store);
    assert!(state.listeners.is_empty() && state.target_health.is_empty());
}

#[test]
fn a_first_projection_is_stored_though_it_is_empty() {
    let mut cfg = projection_config();
    cfg.listeners.clear();
    let (state, store) = reconcile_listener_state(&cfg, &None).unwrap();
    assert!(store);
    assert!(state.listeners.is_empty() && state.target_health.is_empty());
    let (_, again) = reconcile_listener_state(&cfg, &Some(state)).unwrap();
    assert!(!again);
}

#[test]
fn listeners_that_cannot_be_shown_are_refused() {
    let mut cfg = projection_config();
    cfg.target_groups.clear();
    let mut state = NativeProxyState::default();
    assert_eq!(
        rebuild_listener_state(&cfg, &mut state),
        Err(StoreError::MissingGroup)
    );
    let targets = group("web", vec![target("198.51.100.10", 1)]);
    let mut web = listener("web", 80, 0, "web");
    assert_eq!(
        listener_entry(&web, &targets).err(),
        Some(StoreError::TargetPort)
    );
    web.target_port = 80;
    web.protocols.clear();
    assert_eq!(
        listener_entry(&web, &targets).err(),
        Some(StoreError::NoProtocol)
    );
}

fn entry(ips: &[&str], port: u16, protocol: &str, protocols: &[&str]) -> NativeListenerStateEntry {
    NativeListenerStateEntry {
        spec: NativeListenerSpec {
            vip_ips: ips.iter().map(|ip| ip.to_string()).collect(),
            port,
            protocol: protocol.to_string(),
            ..NativeListenerSpec::default()
        },
        protocols: protocols.iter().map(|p| p.to_string()).collect(),
        ..NativeListenerStateEntry::default()
    }
}

#[test]
fn aggregate_listener_expands_to_both_transport_keys() {
    let entry = entry(&["192.0.2.10"], 9999, "tcp", &["tcp", "udp"]);
    let expanded = expanded_native_listener_entries(&base_config(), &entry);

    assert_eq!(expanded.len(), 2);
    assert_eq!(expanded[0].spec.protocol, "tcp");
    assert_eq!(expanded[1].spec.protocol, "udp");
    assert_eq!(expanded[0].protocols, vec!["tcp"]);
    assert_eq!(expanded[1].protocols, vec!["udp"]);
}

#[test]
fn listeners_without_addresses_take_those_of_the_gateway() {
    let cfg = gateway_at("192.0.2.1");
    assert_eq!(default_external_ip(&cfg), "192.0.2.1");
    let expanded = expanded_native_listener_entries(&cfg, &entry(&[], 80, "tcp", &[]));
    assert_eq!(expanded.len(), 1);
    assert_eq!(expanded[0].spec.vip_ips, vec!["192.0.2.1"]);
    let blank = expanded_native_listener_entries(
        &cfg,
        &entry(&[" ", " 192.0.2.9 "], 80, "tcp", &[]),
    );
    assert_eq!(blank.len(), 1);
    assert_eq!(blank[0].spec.vip_ips, vec!["192.0.2.9"]);
}

#[test]
fn listeners_of_one_service_are_shown_as_one() {
    let tcp = entry(&["192.0.2.10"], 80, "tcp", &["tcp"]);
    let udp = entry(&["192.0.2.10"], 80, "udp", &["udp"]);
    let other = entry(&["192.0.2.11"], 80, "tcp", &["tcp"]);
    assert!(same_listener_identity(&tcp, &udp));
    assert!(!same_listener_identity(&tcp, &other));
    let merged = merge_entries(&tcp, &udp);
    assert_eq!(merged.protocols, vec!["tcp", "udp"]);
    let state = NativeProxyState {
        listeners: vec![tcp, udp, other],
        target_health: vec![],
    };
    assert_eq!(native_listeners_state(&state).listeners.len(), 2);
}

#[test]
fn listeners_are_removed_by_name() {
    let mut named = entry(&["192.0.2.10"], 80, "tcp", &["tcp"]);
    named.spec.name = Some("web".to_string());
    let unnamed = entry(&["192.0.2.10"], 81, "tcp", &["tcp"]);
    assert_eq!(listener_name(&named), "web");
    let mut state = NativeProxyState {
        listeners: vec![named, unnamed],
        target_health: vec![],
    };
    let mut flag = DirtyFlag { dirty: false };
    assert!(!delete_listener(&mut state, &mut flag, "gone"));
    assert!(!flag.take_state_dirty());
    assert!(delete_listener(&mut state, &mut flag, "web"));
    assert_eq!(state.listeners.len(), 1);
    assert!(flag.take_state_dirty());
    assert!(!flag.take_state_dirty());
    flag.mark_state_dirty();
    assert!(flag.dirty);
}

#[test]
fn names_that_were_made_up_are_told_from_chosen_ones() {
    assert!(is_generated_listener_name(&None, 80));
    assert!(is_generated_listener_name(&Some("tcp-80".to_string()), 80));
    assert!(!is_generated_listener_name(&Some("web".to_string()), 80));
    let mut bare = entry(&["192.0.2.10"], 80, "TCP", &[]);
    normalize_entry(&mut bare);
    assert_eq!(bare.spec.protocol, "tcp");
    assert_eq!(bare.protocols, vec!["tcp"]);
}

#[test]
fn probes_are_those_of_monitored_groups() {
    let mut targets = group("web", vec![]);
    assert!(target_group_probe(&targets).is_none());
    targets.monitor = true;
    targets.probe_type = Some("none".to_string());
    targets.probe_type = Some("http".to_string());
    assert!(target_group_probe(&targets).is_some());
    let probe = |kind: Option<&str>| HealthProbeConfig {
        probe_type: kind.map(|text| text.to_string()),
        probe_port: None,
        probe_req: None,
        probe_resp: None,
        skip_tls_verify: false,
        probe_duration: None,
        inactive_retries: None,
    };
    assert!(probe(Some("tcp")).enabled());
    assert!(!probe(Some(" NONE ")).enabled());
    assert!(!probe(Some("  ")).enabled());
    assert!(!probe(None).enabled());
}

#[test]
fn verdicts_are_written_and_counted() {
    let cfg = projection_config();
    let mut state = NativeProxyState::default();
    rebuild_listener_state(&cfg, &mut state).unwrap();
    let name = state.target_health[0].name.clone();
    let update = |healthy: bool| {
        vec![HealthUpdate {
            name: name.clone(),
            healthy,
        }]
    };
    let mut flag = DirtyFlag { dirty: false };
    let first = mutate_target_health(&mut state.target_health, &update(true), &mut flag);
    assert!(first.changed);
    assert!(flag.take_state_dirty());
    assert_eq!(stored_transitions(first, true), 1);
    assert_eq!(stored_transitions(first, false), 0);
    assert_eq!(state.target_health[0].current_state, Some("ok".to_string()));
    let again = mutate_target_health(&mut state.target_health, &update(true), &mut flag);
    assert!(!again.changed);
    assert!(!flag.take_state_dirty());
    assert_eq!(again.transitions, 0);
    flag.mark_state_dirty();
    mutate_target_health(&mut state.target_health, &[], &mut flag);
    assert!(flag.take_state_dirty());
    // A record counts once, however often its state changed on the way.
    let both = [update(false), update(true), update(false), update(true)].concat();
    let twice = mutate_target_health(&mut state.target_health, &both, &mut flag);
    assert_eq!((twice.transitions, twice.changed), (0, false));
    let down = mutate_target_health(&mut state.target_health, &update(false), &mut flag);
    assert_eq!(down.transitions, 1);
    // What was observed stays when the state is made anew, and that alone changes nothing.
    let before = state.clone();
    let (state, store) = reconcile_listener_state(&cfg, &Some(state)).unwrap();
    assert!(!store);
    assert_eq!(
        state.target_health[0].current_state,
        before.target_health[0].current_state
    );
}

#[test]
fn health_records_are_named_alike_from_both_sides() {
    let name = target_health_identity("web", v4("192.0.2.20"), "tcp", 8080);
    let shown = NativeListenerTarget {
        address: "192.0.2.20".to_string(),
        target_port: 8080,
        weight: 1,
        state: None,
        counter: None,
    };
    assert_eq!(
        target_health_key("web", &shown.address, " TCP ", shown.target_port),
        name
    );
}
