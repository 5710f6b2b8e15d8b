use edge_lb::config::{
    ActiveSource, BackendNode, BackendTarget, Config, GatewayNode, GatewayReturnPath, Listener,
    NetworkConfig, NodeRole, Protocol, TargetGroup,
};
use edge_lb::native::model::ModelError;
use edge_lb::net::{parse_ip, IpAddr};
use edge_lb::role::backend::{
    apply, apply_managed, apply_managed_reusing, cleanup, heal, switch_active, BackendAction,
    BackendFault, Surroundings,
};
use edge_lb::role::backend_watch::{backend_driver, BackendDriver, BackendWatch, WatchStep};
use edge_lb::role::gateway::{
    apply as apply_gateway, apply_inner, cleanup as cleanup_gateway, dscp_ports, proxy_plan,
    ApplyAction, ApplyEvent, ApplyOptions, CleanupAction, CleanupOptions, DscpAttachMode,
    DscpUpdate, GatewayApply, GatewayFault,
};
use edge_lb::role::gateway_loop::{
    run, ApplyOutcome, GatewayRun, Observed, ReloadOutcome, RestoreOutcome, RunAction, RunEvent,
    RunFault,
};
use edge_lb::role::mirror::{ha_backend_overlay_addrs, multipoint_return_vxlan, parse_ipv4_cidr};

fn v4(text: &str) -> IpAddr {
    let chars: Vec<char> = text.chars().collect();
    parse_ip(&chars).expect("an address")
}

fn base_config() -> Config {
    Config {
        node_role: NodeRole::Gateway,
        node_name: "node-a".to_string(),
        public_ip: v4("203.0.113.1"),
        underlay_ip: v4("192.0.2.1"),
        active_source: ActiveSource::File,
        network: NetworkConfig {
            gateway_public_ip: v4("203.0.113.1"),
            backend_public_ip: None,
            gateway_ip: v4("192.0.2.1"),
            standby_gateway_ip: None,
            backend_ip: None,
            underlay_dev: "eth0".to_string(),
            vxlan_dev: "edge0".to_string(),
            overlay_cidr: "10.255.0.0/24".to_string(),
            vni: 100,
            vxlan_port: 4789,
            vxlan_mtu: 1450,
            dscp: 46,
        },
        gateway_overlay_ip: "10.255.0.1/24".to_string(),
        api_trusted_source_cidrs: vec![],
        metrics: None,
        gateway_nodes: vec![],
        backend_nodes: vec![],
        backend_return_paths: vec![],
        nft_table: "edge_lb".to_string(),
        mss: 1360,
        listeners: vec![],
        target_groups: vec![],
        ha: None,
    }
}

fn listener(name: &str, port: u16, protocol: Protocol) -> Listener {
    Listener {
        name: name.to_string(),
        port,
        target_port: 8080,
        target_group: "default-targets".to_string(),
        vip_ips: vec![],
        protocols: vec![protocol],
        select: 0,
        mode: 0,
        inactive_timeout: None,
    }
}

fn group(name: &str) -> TargetGroup {
    TargetGroup {
        name: name.to_string(),
        monitor: false,
        probe_type: None,
        probe_port: None,
        probe_req: None,
        probe_resp: None,
        probe_status: None,
        probe_skip_tls_verify: false,
        period_secs: None,
        retries: None,
        targets: vec![BackendTarget {
            backend: None,
            address: v4("10.0.0.9"),
            probe_address: v4("10.0.0.9"),
            weight: 1,
        }],
    }
}

#[test]
fn dscp_ports_include_all_native_listeners() {
    let listeners = vec![
        listener("default", 80, Protocol::Tcp),
        listener("udp", 81, Protocol::Udp),
    ];
    assert_eq!(dscp_ports(&listeners), vec![80, 81]);
    let listeners = vec![
        listener("b", 443, Protocol::Tcp),
        listener("a", 80, Protocol::Tcp),
        listener("c", 443, Protocol::Udp),
    ];
    assert_eq!(dscp_ports(&listeners), vec![80, 443]);
}

fn gateway_node(name: &str, underlay: &str, overlay: &str) -> GatewayNode {
    GatewayNode {
        name: name.to_string(),
        public_ip: v4("203.0.113.10"),
        underlay_ip: v4(underlay),
        overlay_ip: overlay.to_string(),
    }
}

fn backend_node(name: &str, overlay: &str) -> BackendNode {
    BackendNode {
        name: name.to_string(),
        public_ip: v4("198.51.100.20"),
        underlay_ip: v4("192.0.2.14"),
        overlay_ip: overlay.to_string(),
    }
}

fn two_gateways() -> Vec<GatewayNode> {
    vec![
        gateway_node("gateway-a", "192.0.2.12", "10.255.12.1/24"),
        gateway_node("gateway-b", "192.0.2.16", "10.255.16.1/24"),
    ]
}

#[test]
fn ha_backend_overlay_addrs_follow_gateway_cidrs() {
    let local = backend_node("backend-1", "10.255.16.2/24");
    let nodes = vec![local.clone()];
    let addrs = ha_backend_overlay_addrs(&Some(local), &nodes, &two_gateways());
    assert_eq!(
        addrs,
        vec!["10.255.12.2/24".to_string(), "10.255.16.2/24".to_string()]
    );
}

#[test]
fn mirrored_addresses_leave_out_what_is_taken() {
    let local = Some(backend_node("backend-1", "10.255.16.2/24"));
    let taken = vec![
        backend_node("backend-1", "10.255.16.2/24"),
        backend_node("backend-2", "10.255.12.2/24"),
    ];
    assert_eq!(
        ha_backend_overlay_addrs(&local, &taken, &two_gateways()),
        vec!["10.255.16.2/24".to_string()]
    );
    // The address of another gateway is taken too.
    let one_network = vec![
        gateway_node("gateway-a", "192.0.2.12", "10.255.12.1/24"),
        gateway_node("gateway-b", "192.0.2.16", "10.255.12.2/24"),
    ];
    assert!(ha_backend_overlay_addrs(&local, &[], &one_network).is_empty());
    let other = Some(backend_node("backend-1", "10.255.16.3/24"));
    assert_eq!(
        ha_backend_overlay_addrs(&other, &[], &one_network),
        vec!["10.255.12.3/24".to_string(), "10.255.12.3/24".to_string()]
    );
    let same_as_gateway = Some(backend_node("backend-1", "10.255.16.1/24"));
    assert!(ha_backend_overlay_addrs(&same_as_gateway, &[], &two_gateways()).is_empty());
    let network = Some(backend_node("backend-1", "10.255.16.0/24"));
    assert!(ha_backend_overlay_addrs(&network, &[], &two_gateways()).is_empty());
    let unknown = Some(backend_node("backend-1", "10.255.16.2"));
    assert!(ha_backend_overlay_addrs(&unknown, &[], &two_gateways()).is_empty());
    assert!(ha_backend_overlay_addrs(&None, &[], &two_gateways()).is_empty());
    let last = vec![gateway_node("g", "192.0.2.12", "255.255.255.1/24")];
    let wide = Some(backend_node("backend-1", "10.0.255.255/16"));
    assert_eq!(
        ha_backend_overlay_addrs(&wide, &[], &last),
        vec!["255.255.255.255/24".to_string()]
    );
    let whole = vec![gateway_node("g", "192.0.2.12", "10.9.0.1/0")];
    let small = Some(backend_node("backend-1", "10.0.0.5/24"));
    assert_eq!(
        ha_backend_overlay_addrs(&small, &[], &whole),
        vec!["0.0.0.5/0".to_string()]
    );
}

#[test]
fn overlay_addresses_need_a_prefix() {
    assert_eq!(parse_ipv4_cidr("10.0.0.1/24"), Some((0x0a00_0001, 24)));
    assert_eq!(parse_ipv4_cidr("10.0.0.1/255"), Some((0x0a00_0001, 255)));
    assert_eq!(parse_ipv4_cidr("10.0.0.1/256"), None);
    assert_eq!(parse_ipv4_cidr("10.0.0.1"), None);
    assert_eq!(parse_ipv4_cidr("::1/64"), None);
}

fn return_path(underlay: &str, own: Option<&str>) -> GatewayReturnPath {
    GatewayReturnPath {
        gateway: None,
        gateway_underlay_ip: v4(underlay),
        gateway_overlay_ip: v4("10.255.0.1"),
        backend_overlay_ip: own.map(|text| text.to_string()),
        dscp: 46,
        mark: 0x106e,
        route_table_id: 1110,
    }
}

#[test]
fn tunnels_to_several_gateways_list_each_end_once() {
    let mut cfg = base_config();
    cfg.backend_return_paths = vec![
        return_path("192.0.2.16", Some("10.255.16.2/24")),
        return_path("192.0.2.12", Some("10.255.12.2/24")),
        return_path("192.0.2.16", Some("10.255.16.2/24")),
    ];
    let (addrs, peers) = multipoint_return_vxlan(&cfg, &None, &[]).unwrap();
    assert_eq!(
        addrs,
        vec!["10.255.12.2/24".to_string(), "10.255.16.2/24".to_string()]
    );
    assert_eq!(peers, vec![v4("192.0.2.12"), v4("192.0.2.16")]);
    cfg.backend_return_paths = vec![return_path("192.0.2.16", None)];
    assert!(multipoint_return_vxlan(&cfg, &None, &[]).is_none());
    cfg.active_source = ActiveSource::Xds;
    cfg.gateway_nodes = two_gateways();
    let local = Some(backend_node("backend-1", "10.255.16.2/24"));
    let (addrs, peers) = multipoint_return_vxlan(&cfg, &local, &[]).unwrap();
    assert_eq!(addrs.len(), 2);
    assert_eq!(peers, vec![v4("192.0.2.12"), v4("192.0.2.16")]);
}

fn around(active: bool, local: bool) -> Surroundings {
    Surroundings {
        active: active.then_some(gateway_node("gateway-a", "192.0.2.12", "10.255.12.1/24")),
        local: local.then_some(backend_node("backend-1", "10.255.16.2/24")),
        nodes: vec![],
    }
}

#[test]
fn a_backend_is_set_up_in_order() {
    let cfg = base_config();
    let plan = apply(&cfg, &around(true, true));
    assert!(plan.fault.is_none());
    assert_eq!(plan.actions.len(), 7);
    assert!(matches!(
        plan.actions[0],
        BackendAction::ValidateReturnPaths
    ));
    assert!(matches!(plan.actions[1], BackendAction::RequireRoot));
    assert!(matches!(plan.actions[2], BackendAction::TuneSysctls));
    match &plan.actions[3] {
        BackendAction::EnsureVxlan(spec) => {
            assert_eq!(spec.remote, Some(v4("192.0.2.12")));
            assert_eq!(spec.local_addr, "10.255.16.2/24");
            assert_eq!((spec.vni, spec.dstport, spec.mtu), (100, 4789, 1450));
            assert_eq!(spec.dev, "edge0");
            assert_eq!(spec.underlay_dev, "eth0");
        }
        other => panic!("unexpected step {other:?}"),
    }
    assert!(matches!(plan.actions[4], BackendAction::EnsureRouteTables));
    assert!(matches!(plan.actions[5], BackendAction::ApplyReturnPath));
    assert!(matches!(
        plan.actions[6],
        BackendAction::EnsurePolicyRouting
    ));
    assert!(matches!(
        apply_managed(&cfg, &around(true, true)).actions[5],
        BackendAction::ApplyManagedReturnPath { reuse: false }
    ));
    assert!(matches!(
        apply_managed_reusing(&cfg, &around(true, true), true).actions[5],
        BackendAction::ApplyManagedReturnPath { reuse: true }
    ));
}

#[test]
fn a_backend_without_a_gateway_or_itself_is_not_touched() {
    let mut cfg = base_config();
    let plan = apply(&cfg, &around(false, true));
    assert_eq!(plan.fault, Some(BackendFault::NoActiveGateway));
    assert_eq!(plan.actions.len(), 2);
    let plan = apply(&cfg, &around(true, false));
    assert_eq!(plan.fault, Some(BackendFault::NoLocalBackend));
    cfg.active_source = ActiveSource::Xds;
    let plan = apply(&cfg, &around(true, true));
    assert_eq!(plan.fault, Some(BackendFault::NoControlPlane));
    cfg.gateway_nodes = two_gateways();
    let plan = apply(&cfg, &around(false, true));
    assert!(plan.fault.is_none());
    match &plan.actions[3] {
        BackendAction::EnsureMultipoint { spec, addrs, peers } => {
            assert_eq!(spec.local_addr, "10.255.12.2/24");
            assert_eq!(spec.remote, Some(v4("192.0.2.12")));
            assert_eq!(addrs.len(), 2);
            assert_eq!(peers.len(), 2);
        }
        other => panic!("unexpected step {other:?}"),
    }
}

#[test]
fn a_backend_turns_to_another_gateway_and_heals() {
    let cfg = base_config();
    let plan = switch_active(&cfg, &around(true, true), v4("192.0.2.99"));
    assert_eq!(plan.actions.len(), 2);
    match &plan.actions[0] {
        BackendAction::SetRemote(spec) => assert_eq!(spec.remote, Some(v4("192.0.2.99"))),
        other => panic!("unexpected step {other:?}"),
    }
    assert_eq!(
        switch_active(&cfg, &around(true, false), v4("192.0.2.99")).fault,
        Some(BackendFault::NoLocalBackend)
    );
    let missing = heal(&cfg, &around(true, true), v4("192.0.2.12"), false, true);
    assert_eq!(missing.fault, Some(BackendFault::LinkMissing));
    assert!(missing.actions.is_empty());
    let down = heal(&cfg, &around(true, true), v4("192.0.2.12"), true, false);
    assert!(matches!(
        down.actions[0],
        BackendAction::BringUp { mtu: 1450 }
    ));
    assert!(matches!(down.actions[1], BackendAction::EnsureVxlan(_)));
    assert!(matches!(down.actions[2], BackendAction::HealReturnPath));
    let lost = heal(&cfg, &around(true, false), v4("192.0.2.12"), true, true);
    assert_eq!(lost.fault, Some(BackendFault::NoLocalBackend));
    let mut several = base_config();
    several.backend_return_paths = vec![return_path("192.0.2.16", Some("10.255.16.2/24"))];
    let plan = heal(&several, &around(true, false), v4("192.0.2.12"), true, true);
    assert!(matches!(
        plan.actions[0],
        BackendAction::EnsureLocalAddrs(_)
    ));
    assert!(matches!(plan.actions[1], BackendAction::SyncPeers(_)));
    assert_eq!(cleanup(true).len(), 4);
    assert!(matches!(cleanup(true)[2], BackendAction::DeleteLink));
    assert_eq!(cleanup(false).len(), 3);
}

#[test]
fn a_failed_switch_is_tried_again_and_counted_again() {
    let a = gateway_node("gw-a", "192.0.2.12", "10.255.12.1/24");
    let b = gateway_node("gw-b", "192.0.2.16", "10.255.16.1/24");
    let mut watch = BackendWatch::new();
    assert_eq!(watch.on_active(&None), WatchStep::Unresolved);
    assert_eq!(watch.on_active(&Some(a.clone())), WatchStep::Noted);
    assert_eq!(watch.on_active(&Some(a.clone())), WatchStep::Heal);
    watch.on_healed(true);
    watch.on_healed(false);
    assert_eq!(watch.on_active(&Some(b.clone())), WatchStep::Switch);
    watch.on_switched(&b, false);
    assert_eq!(watch.on_active(&Some(b.clone())), WatchStep::Switch);
    watch.on_switched(&b, true);
    assert_eq!(watch.on_active(&Some(b.clone())), WatchStep::Heal);
    assert_eq!((watch.failovers, watch.heals), (2, 1));
    assert_eq!(
        watch.metrics_text(&Some(b)),
        "# TYPE edge_lb_backend_active_gateway gauge\n\
         edge_lb_backend_active_gateway{gateway=\"gw-b\",underlay=\"192.0.2.16\"} 1\n\
         # TYPE edge_lb_backend_failovers_total counter\n\
         edge_lb_backend_failovers_total 2\n\
         # TYPE edge_lb_backend_heals_total counter\n\
         edge_lb_backend_heals_total 1\n"
    );
    assert!(!watch.metrics_text(&None).contains("active_gateway"));
    assert_eq!(backend_driver(&base_config()), BackendDriver::Watch);
    let mut xds = base_config();
    xds.active_source = ActiveSource::Xds;
    assert_eq!(backend_driver(&xds), BackendDriver::ControlPlane);
}

fn walk(mut setup: GatewayApply, cfg: &Config, attached: bool, set_fails: bool) -> Vec<String> {
    let mut seen = Vec::new();
    loop {
        let action = setup.action(cfg);
        seen.push(format!("{action:?}").split(['(', ' ']).next().unwrap().to_string());
        let event = match action {
            ApplyAction::Finished(_) | ApplyAction::Failed(_) => return seen,
            ApplyAction::ListBackends => {
                ApplyEvent::Backends(vec![v4("192.0.2.30"), v4("0.0.0.0"), v4("::")])
            }
            ApplyAction::EnsureVxlan(spec) => {
                assert_eq!(spec.remote, None);
                assert_eq!(spec.local_addr, "10.255.0.1/24");
                ApplyEvent::Vxlan { created: true }
            }
            ApplyAction::SyncPeers(peers) => {
                assert_eq!(peers, vec![v4("192.0.2.30")]);
                ApplyEvent::Passed
            }
            ApplyAction::LoadProxyConfig => ApplyEvent::Proxy(proxy_plan(cfg)),
            ApplyAction::ReadIfindex => ApplyEvent::Ifindex(Some(7)),
            ApplyAction::WaitForBpffs { secs } => {
                assert_eq!(secs, 10);
                ApplyEvent::Passed
            }
            ApplyAction::InspectDscp => ApplyEvent::Inspected {
                attached,
                maps_current: true,
            },
            ApplyAction::SetDscp { .. } if set_fails => ApplyEvent::Refused,
            ApplyAction::SaveState {
                created_vxlan,
                ifindex,
                ..
            } => {
                assert!(created_vxlan);
                assert_eq!(ifindex, Some(7));
                ApplyEvent::Passed
            }
            _ => ApplyEvent::Passed,
        };
        setup.advance(event);
    }
}

const OPENING: [&str; 11] = [
    "RequireRoot",
    "ListBackends",
    "TuneSysctls",
    "EnsureVxlan",
    "SyncPeers",
    "AcceptLocal",
    "LoadState",
    "LoadProxyConfig",
    "ReconcileListeners",
    "ReadIfindex",
    "WaitForBpffs",
];

fn listening() -> Config {
    let mut cfg = base_config();
    cfg.listeners = vec![listener("web", 80, Protocol::Tcp)];
    cfg.listeners[0].vip_ips = vec![v4("10.0.0.1")];
    cfg.target_groups = vec![group("default-targets")];
    cfg
}

#[test]
fn a_gateway_without_listeners_is_cleared() {
    let seen = walk(
        apply_gateway(&ApplyOptions::default()),
        &base_config(),
        false,
        false,
    );
    assert_eq!(seen[..11], OPENING);
    assert_eq!(
        seen[11..],
        ["ClearNative", "DetachDscp", "SaveState", "Finished"]
    );
}

#[test]
fn a_persistent_set_up_attaches_the_marker_afresh() {
    let options = ApplyOptions {
        object: Some("/opt/dscp.o".to_string()),
        native_prog_id: None,
    };
    let seen = walk(apply_gateway(&options), &listening(), true, false);
    assert_eq!(
        seen[11..],
        ["ApplyNative", "AttachDscp", "SaveState", "Finished"]
    );
}

#[test]
fn a_managed_set_up_reuses_a_marker_that_fits() {
    let managed = || apply_inner(&ApplyOptions::default(), DscpAttachMode::Managed);
    assert_eq!(
        walk(managed(), &listening(), true, false)[11..],
        ["ApplyNative", "InspectDscp", "SetDscp", "SaveState", "Finished"]
    );
    assert_eq!(
        walk(managed(), &listening(), true, true)[11..],
        [
            "ApplyNative",
            "InspectDscp",
            "SetDscp",
            "AttachOwnedDscp",
            "SaveState",
            "Finished"
        ]
    );
    assert_eq!(
        walk(managed(), &listening(), false, false)[11..],
        [
            "ApplyNative",
            "InspectDscp",
            "AttachOwnedDscp",
            "SaveState",
            "Finished"
        ]
    );
}

fn fails_at(cfg: &Config, step: &str) -> GatewayFault {
    let mut setup = apply_inner(&ApplyOptions::default(), DscpAttachMode::Managed);
    loop {
        let action = setup.action(cfg);
        let name = format!("{action:?}").split(['(', ' ']).next().unwrap().to_string();
        let event = match action {
            ApplyAction::Failed(fault) => return fault,
            ApplyAction::Finished(_) => panic!("the set-up passed"),
            _ if name == step => ApplyEvent::Refused,
            ApplyAction::EnsureVxlan(_) => ApplyEvent::Vxlan { created: false },
            ApplyAction::LoadProxyConfig => ApplyEvent::Proxy(proxy_plan(cfg)),
            _ => ApplyEvent::Passed,
        };
        setup.advance(event);
    }
}

#[test]
fn every_step_that_must_pass_has_its_fault() {
    let cfg = listening();
    for (step, fault) in [
        ("RequireRoot", GatewayFault::NotRoot),
        ("TuneSysctls", GatewayFault::Tuning),
        ("EnsureVxlan", GatewayFault::Vxlan),
        ("SyncPeers", GatewayFault::Peers),
        ("AcceptLocal", GatewayFault::AcceptLocal),
        ("LoadState", GatewayFault::LoadState),
        ("LoadProxyConfig", GatewayFault::ProxyConfig),
        ("ReconcileListeners", GatewayFault::ListenerState),
        ("WaitForBpffs", GatewayFault::Bpffs),
        ("ApplyNative", GatewayFault::NativeDatapath),
        ("AttachOwnedDscp", GatewayFault::DscpAttach),
        ("SaveState", GatewayFault::SaveState),
    ] {
        assert_eq!(fails_at(&cfg, step), fault);
    }
    let mut broken = listening();
    broken.target_groups.clear();
    assert_eq!(
        fails_at(&broken, "-"),
        GatewayFault::Listeners(ModelError::MissingGroup)
    );
}

#[test]
fn a_gateway_is_taken_down_as_asked() {
    let all = cleanup_gateway(&CleanupOptions {
        rules: true,
        datapath: true,
    });
    assert_eq!(
        all,
        vec![
            CleanupAction::RequireRoot,
            CleanupAction::DeleteIngressFilter,
            CleanupAction::DetachDscp,
            CleanupAction::RefuseLocal,
            CleanupAction::ClearNative,
            CleanupAction::DeleteListeners,
        ]
    );
    let little = cleanup_gateway(&CleanupOptions {
        rules: false,
        datapath: false,
    });
    assert_eq!(little.len(), 4);
}

fn drive(gateway: &mut GatewayRun, steps: &[(RunAction, RunEvent)]) {
    for (action, event) in steps {
        assert_eq!(gateway.action(), *action);
        gateway.advance(event.clone());
    }
}

/// A gateway that runs since 1000 ms, whose file was written at 1.
fn running() -> GatewayRun {
    let mut gateway = run();
    drive(
        &mut gateway,
        &[
            (RunAction::RequireRoot, RunEvent::Passed),
            (RunAction::OpenStorage, RunEvent::Passed),
            (
                RunAction::MergeSubscriptions,
                RunEvent::Merged {
                    seen: Observed::Failed,
                    now_ms: 0,
                },
            ),
            (RunAction::ReconcileVip, RunEvent::Seen(Observed::Same)),
            (RunAction::SpawnNotifier, RunEvent::Passed),
            (
                RunAction::Apply,
                RunEvent::Applied(ApplyOutcome::Applied(DscpUpdate::Replace)),
            ),
            (RunAction::LoadPorts, RunEvent::Ports(Some(vec![80]))),
            (RunAction::SpawnUi, RunEvent::Passed),
            (RunAction::SpawnMetrics, RunEvent::Passed),
            (RunAction::SpawnReplication, RunEvent::Passed),
            (RunAction::SpawnProbes, RunEvent::Passed),
            (RunAction::SpawnFlowSync, RunEvent::Passed),
            (RunAction::SpawnBfd, RunEvent::Passed),
            (RunAction::SpawnControl, RunEvent::Passed),
            (
                RunAction::ReadClocks,
                RunEvent::Clocks {
                    config_mtime: Some(1),
                    now_ms: 1_000,
                },
            ),
        ],
    );
    gateway
}

/// A round up to the clock in which nothing changes.
fn look(gateway: &mut GatewayRun, now_ms: u64) {
    drive(
        gateway,
        &[
            (RunAction::AskShutdown, RunEvent::Shutdown(false)),
            (RunAction::ReconcileVip, RunEvent::Seen(Observed::Same)),
            (
                RunAction::MergeSubscriptions,
                RunEvent::Merged {
                    seen: Observed::Same,
                    now_ms,
                },
            ),
            (RunAction::ReadConfigTime, RunEvent::ConfigTime(Some(1))),
            (RunAction::TakeDirty, RunEvent::Dirty(false)),
            (RunAction::ReadClock, RunEvent::Now(now_ms)),
        ],
    );
}

#[test]
fn a_gateway_that_cannot_start_says_why() {
    let mut gateway = run();
    gateway.advance(RunEvent::Refused);
    assert_eq!(gateway.action(), RunAction::Failed(RunFault::NotRoot));
    for (refusals, fault) in [
        (vec![RunEvent::Refused], RunFault::Storage),
        (
            vec![
                RunEvent::Passed,
                RunEvent::Merged {
                    seen: Observed::Same,
                    now_ms: 0,
                },
                RunEvent::Seen(Observed::Failed),
            ],
            RunFault::Vip,
        ),
        (
            vec![
                RunEvent::Passed,
                RunEvent::Merged {
                    seen: Observed::Same,
                    now_ms: 0,
                },
                RunEvent::Seen(Observed::Same),
                RunEvent::Passed,
                RunEvent::Applied(ApplyOutcome::Failed),
            ],
            RunFault::Apply,
        ),
        (
            vec![
                RunEvent::Passed,
                RunEvent::Merged {
                    seen: Observed::Same,
                    now_ms: 0,
                },
                RunEvent::Seen(Observed::Same),
                RunEvent::Passed,
                RunEvent::Applied(ApplyOutcome::Applied(DscpUpdate::Keep)),
                RunEvent::Ports(None),
            ],
            RunFault::LoadState,
        ),
    ] {
        let mut gateway = run();
        gateway.advance(RunEvent::Passed);
        for event in refusals {
            gateway.advance(event);
        }
        assert_eq!(gateway.action(), RunAction::Failed(fault));
    }
    let mut gateway = run();
    gateway.advance(RunEvent::Dirty(true));
    assert_eq!(gateway.action(), RunAction::RequireRoot);
}

#[test]
fn a_change_of_backends_settles_before_the_gateway_is_set_up() {
    let mut gateway = running();
    look(&mut gateway, 3_999);
    drive(
        &mut gateway,
        &[
            (RunAction::SweepFlows, RunEvent::Refused),
            (
                RunAction::InspectDrift,
                RunEvent::Drift {
                    link_present: true,
                    link_up: true,
                    attached: true,
                },
            ),
            (RunAction::Sleep, RunEvent::Passed),
        ],
    );
    look(&mut gateway, 4_000);
    drive(
        &mut gateway,
        &[
            (RunAction::InspectMarker, RunEvent::Attached(false)),
            (RunAction::DropMarker, RunEvent::Passed),
            (
                RunAction::Apply,
                RunEvent::Applied(ApplyOutcome::Applied(DscpUpdate::Replace)),
            ),
            (RunAction::LoadPorts, RunEvent::Ports(Some(vec![81]))),
            (
                RunAction::RestoreFlows,
                RunEvent::Restored(RestoreOutcome::NotYet),
            ),
            (RunAction::StartPersistence, RunEvent::Persisting(true)),
            (
                RunAction::ReconcileAutomations,
                RunEvent::Seen(Observed::Changed),
            ),
            (RunAction::InspectMarker, RunEvent::Attached(true)),
            (
                RunAction::Apply,
                RunEvent::Applied(ApplyOutcome::Applied(DscpUpdate::Keep)),
            ),
            (RunAction::LoadPorts, RunEvent::Ports(Some(vec![82]))),
            (
                RunAction::RestoreFlows,
                RunEvent::Restored(RestoreOutcome::Failed),
            ),
            (RunAction::Sleep, RunEvent::Passed),
            (RunAction::AskShutdown, RunEvent::Shutdown(false)),
        ],
    );
    assert_eq!(gateway.ports, vec![82]);
    assert!(gateway.flows_restored && gateway.worker_running && gateway.holds_marker);
}

#[test]
fn a_changed_file_is_read_until_it_can_be_used() {
    for (outcome, next) in [
        (ReloadOutcome::NoAddress, RunAction::Sleep),
        (ReloadOutcome::Unreadable, RunAction::TakeDirty),
        (ReloadOutcome::NoFile, RunAction::TakeDirty),
        (ReloadOutcome::Reloaded, RunAction::TakeDirty),
    ] {
        let mut gateway = running();
        drive(
            &mut gateway,
            &[
                (RunAction::AskShutdown, RunEvent::Shutdown(false)),
                (RunAction::ReconcileVip, RunEvent::Seen(Observed::Failed)),
                (
                    RunAction::MergeSubscriptions,
                    RunEvent::Merged {
                        seen: Observed::Changed,
                        now_ms: 2_000,
                    },
                ),
                (RunAction::ReadConfigTime, RunEvent::ConfigTime(Some(2))),
                (
                    RunAction::ReloadConfig,
                    RunEvent::Reloaded {
                        outcome,
                        config_mtime: Some(2),
                    },
                ),
            ],
        );
        assert_eq!(gateway.action(), next);
        let reloaded = outcome == ReloadOutcome::Reloaded;
        assert_eq!(gateway.needs_full, reloaded);
        assert_eq!(gateway.config_mtime, Some(if reloaded { 2 } else { 1 }));
        assert_eq!(gateway.pending_since_ms, Some(2_000));
    }
}

#[test]
fn drift_is_healed_as_little_as_it_takes() {
    let drift = |link_present: bool, link_up: bool, attached: bool, ports: Vec<u32>| {
        let mut gateway = running();
        gateway.ports = ports;
        look(&mut gateway, 2_000);
        gateway.advance(RunEvent::Passed);
        gateway.advance(RunEvent::Drift {
            link_present,
            link_up,
            attached,
        });
        gateway.action()
    };
    assert_eq!(
        drift(false, true, true, vec![80]),
        RunAction::InspectMarker
    );
    assert_eq!(
        drift(true, false, true, vec![80]),
        RunAction::InspectMarker
    );
    assert_eq!(
        drift(true, true, false, vec![80]),
        RunAction::InspectMarker
    );
    assert_eq!(drift(true, true, true, vec![80]), RunAction::Sleep);
    assert_eq!(drift(true, true, true, vec![]), RunAction::DetachMarker);
    assert_eq!(drift(true, true, false, vec![]), RunAction::Sleep);
}

#[test]
fn a_round_outlives_a_failed_set_up_but_not_a_lost_state() {
    let mut gateway = running();
    look(&mut gateway, 4_000);
    drive(
        &mut gateway,
        &[
            (RunAction::InspectMarker, RunEvent::Attached(true)),
            (RunAction::Apply, RunEvent::Applied(ApplyOutcome::Failed)),
            (
                RunAction::ReconcileAutomations,
                RunEvent::Seen(Observed::Failed),
            ),
            (RunAction::Sleep, RunEvent::Passed),
        ],
    );
    drive(
        &mut gateway,
        &[
            (RunAction::AskShutdown, RunEvent::Shutdown(false)),
            (RunAction::ReconcileVip, RunEvent::Seen(Observed::Changed)),
            (
                RunAction::MergeSubscriptions,
                RunEvent::Merged {
                    seen: Observed::Same,
                    now_ms: 5_000,
                },
            ),
            (RunAction::ReadConfigTime, RunEvent::ConfigTime(Some(1))),
            (RunAction::TakeDirty, RunEvent::Dirty(false)),
            (RunAction::ReadClock, RunEvent::Now(5_000)),
            (RunAction::InspectMarker, RunEvent::Attached(true)),
            (
                RunAction::Apply,
                RunEvent::Applied(ApplyOutcome::Applied(DscpUpdate::Clear)),
            ),
            (RunAction::StartPersistence, RunEvent::Persisting(false)),
            (
                RunAction::ReconcileAutomations,
                RunEvent::Seen(Observed::Changed),
            ),
            (
                RunAction::Apply,
                RunEvent::Applied(ApplyOutcome::Applied(DscpUpdate::Keep)),
            ),
            (RunAction::LoadPorts, RunEvent::Ports(None)),
        ],
    );
    assert!(gateway.ports.is_empty());
    assert_eq!(gateway.action(), RunAction::Failed(RunFault::LoadState));
}

#[test]
fn a_gateway_ends_in_order_whatever_fails() {
    let mut gateway = running();
    drive(
        &mut gateway,
        &[
            (RunAction::AskShutdown, RunEvent::Shutdown(true)),
            (RunAction::HandOffVip, RunEvent::Refused),
            (RunAction::FlushFlows, RunEvent::Passed),
            (RunAction::DetachMarker, RunEvent::Refused),
            (RunAction::DropMarker, RunEvent::Passed),
            (RunAction::ClearNative, RunEvent::Refused),
        ],
    );
    assert_eq!(gateway.action(), RunAction::Finished);
    assert!(!gateway.holds_marker);
}
