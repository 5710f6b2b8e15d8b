use edge_lb::cli::{
    apply_overrides, command_needs_runtime_storage, default_command, merges_subscriptions,
    overrides_of, verify_passed, BackendArgs, BackendCommand, Commands, ConfigCommand,
    GatewayArgs, GatewayCommand, OverrideError, Overrides, UiCommand, VerifyArgs,
};
use edge_lb::config::{
    ActiveSource, BackendNode, Config, GatewayNode, NetworkConfig, NodeRole,
};
use edge_lb::net::{parse_ip, IpAddr};
use edge_lb::role::gateway::{ApplyOptions, CleanupOptions};

fn v4(text: &str) -> IpAddr {
    let chars: Vec<char> = text.chars().collect();
    parse_ip(&chars).expect("an address")
}

fn base_config() -> Config {
    Config {
        node_role: NodeRole::Gateway,
        node_name: "node-a".to_string(),
        public_ip: v4("203.0.113.1"),
        underlay_ip: v4("192.0.2.1"),
        active_source: ActiveSource::File,
        network: NetworkConfig {
            gateway_public_ip: v4("203.0.113.1"),
            backend_public_ip: None,
            gateway_ip: v4("192.0.2.1"),
            standby_gateway_ip: None,
            backend_ip: None,
            underlay_dev: "eth0".to_string(),
            vxlan_dev: "edge0".to_string(),
            overlay_cidr: "10.255.0.0/24".to_string(),
            vni: 100,
            vxlan_port: 4789,
            vxlan_mtu: 1450,
            dscp: 46,
        },
        gateway_overlay_ip: "10.255.0.1/24".to_string(),
        api_trusted_source_cidrs: vec![],
        metrics: None,
        gateway_nodes: vec![],
        backend_nodes: vec![],
        backend_return_paths: vec![],
        nft_table: "edge_lb".to_string(),
        mss: 1360,
        listeners: vec![],
        target_groups: vec![],
        ha: None,
    }
}

fn gateway(command: GatewayCommand) -> Commands {
    Commands::Gateway(GatewayArgs {
        command,
        overrides: Overrides::default(),
    })
}

fn backend(command: BackendCommand) -> Commands {
    Commands::Backend(BackendArgs {
        command,
        overrides: Overrides::default(),
    })
}

fn verify_args(skip_vip: bool, skip_backend: bool) -> VerifyArgs {
    VerifyArgs {
        skip_vip,
        skip_backend,
        timeout: 5,
        overrides: Overrides::default(),
    }
}

#[test]
fn gateway_runtime_commands_initialize_storage_before_ha_merge() {
    let role = NodeRole::Gateway;
    assert!(command_needs_runtime_storage(
        &gateway(GatewayCommand::Run),
        role
    ));
    assert!(command_needs_runtime_storage(
        &Commands::Ui {
            command: UiCommand::Serve { listen: None },
        },
        role
    ));
    assert!(command_needs_runtime_storage(
        &Commands::Verify(verify_args(false, false)),
        role
    ));
}

#[test]
fn backend_mutating_commands_initialize_storage_but_show_and_config_do_not() {
    for command in [
        BackendCommand::Run,
        BackendCommand::Apply,
        BackendCommand::Cleanup,
    ] {
        assert!(command_needs_runtime_storage(
            &backend(command),
            NodeRole::Backend
        ));
    }
    assert!(!command_needs_runtime_storage(
        &backend(BackendCommand::Show),
        NodeRole::Backend
    ));
    assert!(!command_needs_runtime_storage(
        &gateway(GatewayCommand::Show),
        NodeRole::Gateway
    ));
    assert!(!command_needs_runtime_storage(
        &Commands::Config {
            command: ConfigCommand::Validate {
                overrides: Overrides::default(),
            },
        },
        NodeRole::Gateway
    ));
}

#[test]
fn commands_of_the_other_role_do_not_touch_storage() {
    assert!(!command_needs_runtime_storage(
        &gateway(GatewayCommand::Run),
        NodeRole::Backend
    ));
    assert!(!command_needs_runtime_storage(
        &backend(BackendCommand::Run),
        NodeRole::Gateway
    ));
    for command in [Commands::Install, Commands::Uninstall, Commands::Internal] {
        assert!(!command_needs_runtime_storage(&command, NodeRole::Gateway));
        assert!(!merges_subscriptions(&command));
        assert!(overrides_of(&command).is_none());
    }
}

#[test]
fn a_node_runs_in_its_role_without_a_command() {
    assert!(matches!(
        default_command(NodeRole::Gateway),
        Commands::Gateway(GatewayArgs {
            command: GatewayCommand::Run,
            ..
        })
    ));
    assert!(matches!(
        default_command(NodeRole::Backend),
        Commands::Backend(BackendArgs {
            command: BackendCommand::Run,
            ..
        })
    ));
}

#[test]
fn overrides_come_with_the_commands_that_take_them() {
    let overrides = || Overrides {
        vni: Some(7),
        ..Overrides::default()
    };
    let commands = [
        Commands::Gateway(GatewayArgs {
            command: GatewayCommand::Apply(ApplyOptions::default()),
            overrides: overrides(),
        }),
        Commands::Gateway(GatewayArgs {
            command: GatewayCommand::Cleanup(CleanupOptions {
                rules: true,
                datapath: false,
            }),
            overrides: overrides(),
        }),
        Commands::Backend(BackendArgs {
            command: BackendCommand::Show,
            overrides: overrides(),
        }),
        Commands::Config {
            command: ConfigCommand::Init {
                force: true,
                overrides: overrides(),
            },
        },
        Commands::Config {
            command: ConfigCommand::Validate {
                overrides: overrides(),
            },
        },
    ];
    for command in &commands {
        assert_eq!(overrides_of(command).unwrap().vni, Some(7));
    }
    assert!(merges_subscriptions(&commands[0]));
    assert!(!merges_subscriptions(&commands[2]));
    assert!(merges_subscriptions(&Commands::Verify(verify_args(
        true, true
    ))));
}

#[test]
fn a_check_that_is_skipped_cannot_fail() {
    assert!(verify_passed(&verify_args(false, false), true, true));
    assert!(!verify_passed(&verify_args(false, false), false, true));
    assert!(!verify_passed(&verify_args(false, false), true, false));
    assert!(verify_passed(&verify_args(true, false), false, true));
    assert!(verify_passed(&verify_args(true, true), false, false));
}

fn gateway_node(name: &str, underlay: &str) -> GatewayNode {
    GatewayNode {
        name: name.to_string(),
        public_ip: v4("203.0.113.10"),
        underlay_ip: v4(underlay),
        overlay_ip: "10.255.0.1/24".to_string(),
    }
}

#[test]
fn overrides_stand_above_the_file() {
    let mut cfg = base_config();
    cfg.gateway_nodes = vec![
        gateway_node("gw-a", "192.0.2.9"),
        gateway_node("gw-b", "192.0.2.1"),
    ];
    cfg.backend_nodes = vec![BackendNode {
        name: "b".to_string(),
        public_ip: v4("198.51.100.1"),
        underlay_ip: v4("192.0.2.20"),
        overlay_ip: "10.255.0.2/24".to_string(),
    }];
    let overrides = Overrides {
        node_role: Some("backend".to_string()),
        node_name: Some("other".to_string()),
        gateway_public_ip: Some(v4("203.0.113.99")),
        backend_public_ip: Some(v4("198.51.100.99")),
        gateway_ip: Some(v4("192.0.2.77")),
        standby_gateway_ip: Some(v4("192.0.2.78")),
        backend_ip: Some(v4("192.0.2.79")),
        vni: Some(1),
        vxlan_port: Some(2),
        dscp: Some(3),
    };
    assert_eq!(apply_overrides(&mut cfg, &overrides), Ok(()));
    assert_eq!(cfg.node_role, NodeRole::Backend);
    assert_eq!(cfg.node_name, "other");
    assert_eq!(cfg.network.gateway_public_ip, v4("203.0.113.99"));
    assert_eq!(cfg.network.backend_public_ip, Some(v4("198.51.100.99")));
    assert_eq!(cfg.backend_nodes[0].public_ip, v4("198.51.100.99"));
    assert_eq!(cfg.network.gateway_ip, v4("192.0.2.77"));
    assert_eq!(cfg.gateway_nodes[0].underlay_ip, v4("192.0.2.9"));
    assert_eq!(cfg.gateway_nodes[1].underlay_ip, v4("192.0.2.77"));
    assert_eq!(cfg.network.standby_gateway_ip, Some(v4("192.0.2.78")));
    assert_eq!(cfg.network.backend_ip, Some(v4("192.0.2.79")));
    assert_eq!(cfg.backend_nodes[0].underlay_ip, v4("192.0.2.79"));
    assert_eq!(
        (cfg.network.vni, cfg.network.vxlan_port, cfg.network.dscp),
        (1, 2, 3)
    );
    assert_eq!(apply_overrides(&mut cfg, &overrides), Ok(()));
    assert_eq!(cfg.gateway_nodes[0].underlay_ip, v4("192.0.2.9"));
}

#[test]
fn a_gateway_address_goes_to_the_first_node_where_none_had_the_former() {
    let mut cfg = base_config();
    cfg.gateway_nodes = vec![
        gateway_node("gw-a", "192.0.2.9"),
        gateway_node("gw-b", "192.0.2.10"),
    ];
    let overrides = Overrides {
        gateway_ip: Some(v4("192.0.2.77")),
        ..Overrides::default()
    };
    assert_eq!(apply_overrides(&mut cfg, &overrides), Ok(()));
    assert_eq!(cfg.gateway_nodes[0].underlay_ip, v4("192.0.2.77"));
    assert_eq!(cfg.gateway_nodes[1].underlay_ip, v4("192.0.2.10"));
}

#[test]
fn an_unknown_role_is_refused_and_changes_nothing() {
    let mut cfg = base_config();
    let overrides = Overrides {
        node_role: Some("Gateway".to_string()),
        vni: Some(9),
        ..Overrides::default()
    };
    assert_eq!(
        apply_overrides(&mut cfg, &overrides),
        Err(OverrideError::BadRole)
    );
    assert_eq!(cfg.network.vni, 100);
}
