use edge_lb::bfd::election::{
    election_questions, finish_election, reconcile_election, ElectionOutcome, ElectionStep,
};
use edge_lb::config::{
    BfdConfig, FailoverMode, GatewayHaPeer, GatewayHaRuntimeConfig, GatewayNode, VipBindDevice,
    VipConfig, VipProvider,
};
use edge_lb::native::ha::{
    apply_local_ha_role, handle_ka_hook_event, handoff_or_release_on_shutdown, hook_state_after,
    notify_peers_outcome, reconcile_vip, reconcile_vip_after_activation, release_local_vip, state,
    switch_active_gateway, switch_active_gateway_coordinated, HaFault, HaRole, HookState,
    GatewayRecord, HostAction, HostPlan, KaHookEvent, LocalGateway, LocalHaRoleResult, ShutdownStep,
    Switch, SwitchAction, SwitchActiveResult,
};
use edge_lb::native::store::DirtyFlag;
use edge_lb::net::{parse_ip, IpAddr};

fn ip(text: &str) -> IpAddr {
    let chars: Vec<char> = text.chars().collect();
    parse_ip(&chars).expect("an address")
}

fn gateway(name: &str) -> GatewayNode {
    let (public, underlay, overlay) = if name == "gateway-a" {
        ("198.51.100.12", "192.0.2.12", "10.255.12.1/24")
    } else {
        ("198.51.100.16", "192.0.2.16", "10.255.16.1/24")
    };
    GatewayNode {
        name: name.to_string(),
        public_ip: ip(public),
        underlay_ip: ip(underlay),
        overlay_ip: overlay.to_string(),
    }
}

fn hook_config(private_vip: &str) -> GatewayHaRuntimeConfig {
    GatewayHaRuntimeConfig {
        enabled: true,
        failover: FailoverMode::Manual,
        peers: vec![GatewayHaPeer {
            name: "gateway-b".to_string(),
            underlay_ip: "192.0.2.16".to_string(),
            public_ip: None,
            overlay_ip: None,
            xds_addr: None,
        }],
        preferred_active: None,
        vip: VipConfig {
            provider: VipProvider::Hook,
            bind_device: VipBindDevice::Underlay,
            private_vip: if private_vip.is_empty() {
                None
            } else {
                Some(private_vip.to_string())
            },
            promote_hook: "/usr/local/bin/edge-lb-promote".to_string(),
            demote_hook: "/usr/local/bin/edge-lb-demote".to_string(),
            verify_hook: "/usr/local/bin/edge-lb-verify-vip".to_string(),
        },
        bfd: BfdConfig {
            bind_addr: "0.0.0.0".to_string(),
            port: 3784,
            interval_ms: 300,
            detect_multiplier: 3,
        },
        xsync_port: 8082,
    }
}

/// A host on which plans are carried out, with programs and peers that can fail.
struct Host {
    node: LocalGateway,
    ha: GatewayHaRuntimeConfig,
    last: Option<HookState>,
    bound: bool,
    record: GatewayRecord,
    events: Vec<String>,
    peer_log: Vec<String>,
    failing_hook: Option<&'static str>,
    failing_peer: Option<&'static str>,
}

impl Host {
    fn new(active: &str, private_vip: &str) -> Host {
        Host {
            node: LocalGateway {
                node_name: "gateway-a".to_string(),
                underlay_ip: ip("192.0.2.12"),
                underlay_dev: "eth0".to_string(),
                overlay_ip: "10.255.12.1/24".to_string(),
                active: Some(gateway(active)),
                active_revision: None,
            },
            ha: hook_config(private_vip),
            last: None,
            bound: false,
            record: GatewayRecord {
                active: Some(active.to_string()),
                flag: DirtyFlag { dirty: false },
            },
            events: vec![],
            peer_log: vec![],
            failing_hook: None,
            failing_peer: None,
        }
    }

    fn write_active_gateway(&mut self, name: &str) {
        self.record.write_active_gateway(name);
        self.node.active = self.record.active.as_deref().map(gateway);
    }

    fn active(&self) -> String {
        self.node.active.as_ref().unwrap().name.clone()
    }

    fn run(&mut self, plan: &HostPlan) -> Result<bool, HaFault> {
        let mut ran: Option<HaRole> = None;
        for action in &plan.actions {
            match action {
                HostAction::RunHook {
                    program,
                    action,
                    role,
                    vip,
                } => {
                    let name = action.as_str();
                    self.events
                        .push(format!("{program}:{name}:{}:{vip}", role.as_str()));
                    if self.failing_hook == Some(name) {
                        return Err(HaFault::StepFailed);
                    }
                    ran = Some(*role);
                }
                HostAction::Commit { gateway } => self.write_active_gateway(gateway),
                HostAction::Bind { .. } => self.bound = true,
                HostAction::Release { .. } => self.bound = false,
                HostAction::Announce { .. } => {}
            }
        }
        if let Some(role) = ran {
            self.last = Some(hook_state_after(&self.ha.vip, role, &None));
        }
        match plan.fault {
            Some(fault) => Err(fault),
            None => Ok(!plan.actions.is_empty()),
        }
    }

    fn reconcile(&mut self) -> Result<bool, HaFault> {
        let plan = reconcile_vip(&self.node, &self.ha, &self.last, self.bound);
        self.run(&plan)
    }

    fn reconcile_after_activation(&mut self) -> Result<bool, HaFault> {
        let plan = reconcile_vip_after_activation(&self.node, &self.ha, &self.last, self.bound);
        self.run(&plan)
    }

    fn notify(&mut self, gateway: &str) -> bool {
        let mut statuses: Vec<u16> = vec![];
        for peer in self.ha.peers.clone() {
            self.peer_log.push(format!("{}:{gateway}", peer.name));
            if self.failing_peer == Some(peer.name.as_str()) {
                break;
            }
            statuses.push(200);
        }
        notify_peers_outcome(&self.ha.peers, &statuses, gateway, &self.node.node_name)
    }

    fn drive(&mut self, mut switch: Switch) -> Result<SwitchActiveResult, HaFault> {
        let none = LocalHaRoleResult {
            garp_announced: false,
            vip_bound: false,
        };
        loop {
            match switch.action() {
                SwitchAction::NotifyPeers { gateway } => {
                    let ok = self.notify(&gateway);
                    switch.advance(ok, none);
                }
                SwitchAction::ApplyRole { active } => {
                    let (plan, role) = apply_local_ha_role(
                        &self.node, &self.ha, &self.last, active, true, self.bound,
                    );
                    let ok = self.run(&plan).is_ok();
                    switch.advance(ok, role);
                }
                SwitchAction::Commit { gateway } => {
                    self.write_active_gateway(&gateway);
                    switch.advance(true, none);
                }
                SwitchAction::Finished => return Ok(switch.result()),
                SwitchAction::Failed(fault) => return Err(fault),
            }
        }
    }

    fn switch_to(&mut self, key: &str) -> Result<SwitchActiveResult, HaFault> {
        let switch = switch_active_gateway(&self.node, &self.ha, Some(gateway(key)), key)?;
        self.drive(switch)
    }

    /// Carries an election out, with a peer that does not answer.
    fn elect(&mut self, bfd_state: &str, peer_was_up: bool) -> ElectionStep {
        let step = reconcile_election(&self.node, &self.ha, bfd_state, peer_was_up, false, false);
        let target = match step {
            ElectionStep::Nothing => return step,
            ElectionStep::AdoptPeer => self.ha.peers[0].name.clone(),
            ElectionStep::Promote => self.node.node_name.clone(),
        };
        let error = self.switch_to(&target).err().map(|fault| format!("{fault:?}"));
        let event = finish_election(&mut self.record.flag, step, &target, &error);
        assert_eq!(
            event.unwrap().outcome,
            if error.is_none() {
                ElectionOutcome::Changed
            } else {
                ElectionOutcome::SwitchoverFailed
            }
        );
        step
    }

    /// Gives the address up because the node stops.
    fn stop(&mut self) -> Result<(), HaFault> {
        let mut shutdown = handoff_or_release_on_shutdown(&self.node, &self.ha);
        loop {
            match shutdown.action(&self.node, &self.ha, self.bound) {
                ShutdownStep::Handoff { peer } => {
                    let fault = self.switch_to(&peer).err();
                    shutdown.advance(fault);
                }
                ShutdownStep::Release { plan } => {
                    let fault = self.run(&plan).err();
                    shutdown.advance(fault);
                }
                ShutdownStep::Finished => return Ok(()),
                ShutdownStep::Failed(fault) => return Err(fault),
            }
        }
    }

    fn switch_coordinated(&mut self, key: &str) -> Result<SwitchActiveResult, HaFault> {
        let switch =
            switch_active_gateway_coordinated(&self.node, &self.ha, Some(gateway(key)), key)?;
        self.drive(switch)
    }
}

#[test]
fn switch_active_gateway_preserves_clean_datapath_when_owner_changes() {
    let mut host = Host::new("gateway-b", "");
    let result = host.switch_to("gateway-a").unwrap();
    assert_eq!(result.gateway, "gateway-a");
    assert_eq!(host.active(), "gateway-a");
    assert!(!host.record.flag.take_state_dirty());
}

#[test]
fn hook_reconcile_runs_role_hook_then_verify_only_on_state_change() {
    let mut host = Host::new("gateway-a", "192.0.2.200");
    assert!(host.reconcile().unwrap());
    assert!(!host.reconcile().unwrap());
    host.write_active_gateway("gateway-b");
    assert!(host.reconcile().unwrap());
    assert_eq!(
        host.events,
        vec![
            "/usr/local/bin/edge-lb-promote:promote:MASTER:192.0.2.200",
            "/usr/local/bin/edge-lb-verify-vip:verify:MASTER:192.0.2.200",
            "/usr/local/bin/edge-lb-demote:demote:BACKUP:192.0.2.200",
            "/usr/local/bin/edge-lb-verify-vip:verify:BACKUP:192.0.2.200",
        ]
    );
    assert!(!host.record.flag.take_state_dirty());
}

#[test]
fn explicit_activation_forces_hook_and_verify_even_when_role_is_unchanged() {
    let mut host = Host::new("gateway-a", "192.0.2.200");
    assert!(host.reconcile().unwrap());
    assert!(!host.reconcile().unwrap());
    assert!(host.reconcile_after_activation().unwrap());
    assert_eq!(
        host.events,
        vec![
            "/usr/local/bin/edge-lb-promote:promote:MASTER:192.0.2.200",
            "/usr/local/bin/edge-lb-verify-vip:verify:MASTER:192.0.2.200",
            "/usr/local/bin/edge-lb-promote:promote:MASTER:192.0.2.200",
            "/usr/local/bin/edge-lb-verify-vip:verify:MASTER:192.0.2.200",
        ]
    );
    assert!(!host.record.flag.take_state_dirty());
}

#[test]
fn explicit_local_switch_forces_hook_and_verify_even_when_role_is_unchanged() {
    let mut host = Host::new("gateway-a", "192.0.2.200");
    assert!(host.reconcile().unwrap());
    assert!(!host.reconcile().unwrap());
    let result = host.switch_to("gateway-a").unwrap();
    assert_eq!(result.gateway, "gateway-a");
    assert_eq!(
        host.events,
        vec![
            "/usr/local/bin/edge-lb-promote:promote:MASTER:192.0.2.200",
            "/usr/local/bin/edge-lb-verify-vip:verify:MASTER:192.0.2.200",
            "/usr/local/bin/edge-lb-promote:promote:MASTER:192.0.2.200",
            "/usr/local/bin/edge-lb-verify-vip:verify:MASTER:192.0.2.200",
        ]
    );
    assert!(!host.record.flag.take_state_dirty());
}

#[test]
fn local_switch_does_not_commit_active_state_when_promote_hook_fails() {
    let mut host = Host::new("gateway-b", "192.0.2.200");
    host.failing_hook = Some("promote");
    assert_eq!(
        host.switch_to("gateway-a").unwrap_err(),
        HaFault::StepFailed
    );
    assert_eq!(host.active(), "gateway-b");
    assert_eq!(
        host.events,
        vec!["/usr/local/bin/edge-lb-promote:promote:MASTER:192.0.2.200"]
    );
}

#[test]
fn remote_switch_does_not_commit_active_state_when_demote_hook_fails() {
    let mut host = Host::new("gateway-a", "192.0.2.200");
    host.failing_hook = Some("demote");
    assert_eq!(
        host.switch_to("gateway-b").unwrap_err(),
        HaFault::StepFailed
    );
    assert_eq!(host.active(), "gateway-a");
    assert_eq!(
        host.events,
        vec!["/usr/local/bin/edge-lb-demote:demote:BACKUP:192.0.2.200"]
    );
}

#[test]
fn remote_switch_restores_local_role_when_peer_activation_fails_after_demote() {
    let mut host = Host::new("gateway-a", "192.0.2.200");
    host.failing_peer = Some("gateway-b");
    assert_eq!(
        host.switch_to("gateway-b").unwrap_err(),
        HaFault::StepFailed
    );
    assert_eq!(host.active(), "gateway-a");
    assert_eq!(
        host.events,
        vec![
            "/usr/local/bin/edge-lb-demote:demote:BACKUP:192.0.2.200",
            "/usr/local/bin/edge-lb-verify-vip:verify:BACKUP:192.0.2.200",
            "/usr/local/bin/edge-lb-promote:promote:MASTER:192.0.2.200",
            "/usr/local/bin/edge-lb-verify-vip:verify:MASTER:192.0.2.200",
        ]
    );
}

#[test]
fn coordinated_local_switch_restores_peer_when_local_promote_fails_after_peer_demote() {
    let mut host = Host::new("gateway-b", "192.0.2.200");
    host.failing_hook = Some("promote");
    assert_eq!(
        host.switch_coordinated("gateway-a").unwrap_err(),
        HaFault::StepFailed
    );
    assert_eq!(host.active(), "gateway-b");
    assert_eq!(
        host.peer_log,
        vec!["gateway-b:gateway-a", "gateway-b:gateway-b"]
    );
    assert_eq!(
        host.events,
        vec!["/usr/local/bin/edge-lb-promote:promote:MASTER:192.0.2.200"]
    );
}

#[test]
fn ka_hook_active_events_preserve_clean_datapath_when_owner_changes() {
    let mut host = Host::new("gateway-b", "");
    let event = KaHookEvent {
        instance: "edge-lb".to_string(),
        state: "MASTER".to_string(),
        vip: String::new(),
    };
    let plan = handle_ka_hook_event(&host.node, &host.ha, &event);
    host.run(&plan).unwrap();
    assert_eq!(host.active(), "gateway-a");
    assert!(!host.record.flag.take_state_dirty());
}

#[test]
fn ownership_write_preserves_pending_business_reconcile() {
    let mut host = Host::new("gateway-a", "");
    host.record.flag.mark_state_dirty();
    host.write_active_gateway("gateway-b");
    assert_eq!(host.active(), "gateway-b");
    assert!(host.record.flag.take_state_dirty());
}

#[test]
fn a_shared_address_is_bound_announced_and_released() {
    let mut host = Host::new("gateway-a", "192.0.2.200");
    host.ha.vip.provider = VipProvider::L2;
    assert!(host.reconcile().unwrap());
    assert!(host.bound);
    assert!(!host.reconcile().unwrap());
    let (_, role) = apply_local_ha_role(&host.node, &host.ha, &None, true, true, false);
    assert!(role.garp_announced && role.vip_bound);
    let plan = release_local_vip(&host.node, &host.ha, host.bound);
    assert!(matches!(
        plan.actions.as_slice(),
        [HostAction::Release { device, .. }] if device == "eth0"
    ));
    host.run(&plan).unwrap();
    assert!(!host.bound);
    host.ha.vip.bind_device = VipBindDevice::Loopback;
    let plan = reconcile_vip(&host.node, &host.ha, &None, false);
    assert!(matches!(
        &plan.actions[0],
        HostAction::Bind { device, .. } if device == "lo"
    ));
    host.ha.vip.private_vip = Some("not an address".to_string());
    assert_eq!(host.reconcile(), Err(HaFault::BadVip));
}

#[test]
fn events_and_switches_that_cannot_be_followed_are_refused() {
    let host = Host::new("gateway-a", "192.0.2.200");
    let event = KaHookEvent {
        instance: "edge-lb".to_string(),
        state: "FAULT".to_string(),
        vip: String::new(),
    };
    let plan = handle_ka_hook_event(&host.node, &host.ha, &event);
    assert_eq!(plan.fault, Some(HaFault::UnknownState));
    assert!(plan.actions.is_empty());
    assert_eq!(
        switch_active_gateway(&host.node, &host.ha, None, "gateway-z").err(),
        Some(HaFault::UnknownGateway)
    );
    let stranger = GatewayNode {
        name: "gateway-c".to_string(),
        public_ip: ip("198.51.100.99"),
        underlay_ip: ip("192.0.2.99"),
        overlay_ip: "10.255.99.1/24".to_string(),
    };
    assert_eq!(
        switch_active_gateway(&host.node, &host.ha, Some(stranger), "gateway-c").err(),
        Some(HaFault::NotPeer)
    );
    let mut both = Host::new("gateway-a", "192.0.2.200");
    both.failing_peer = Some("gateway-b");
    both.failing_hook = Some("promote");
    assert_eq!(
        both.switch_to("gateway-b").unwrap_err(),
        HaFault::RestoreFailed
    );
}

#[test]
fn the_state_and_the_shutdown_follow_the_active_gateway() {
    let mut host = Host::new("gateway-a", "192.0.2.200");
    let shown = state(&host.node, &host.ha);
    assert_eq!(shown.state, "MASTER");
    assert_eq!(shown.active_gateway.as_deref(), Some("gateway-a"));
    assert_eq!(shown.peer_count, 1);
    assert!(matches!(
        handoff_or_release_on_shutdown(&host.node, &host.ha).action(&host.node, &host.ha, false),
        ShutdownStep::Handoff { peer } if peer == "gateway-b"
    ));
    host.write_active_gateway("gateway-b");
    assert_eq!(state(&host.node, &host.ha).state, "BACKUP");
    assert!(matches!(
        handoff_or_release_on_shutdown(&host.node, &host.ha).action(&host.node, &host.ha, false),
        ShutdownStep::Release { .. }
    ));
    host.ha.enabled = false;
    assert_eq!(state(&host.node, &host.ha).state, "disabled");
    assert!(matches!(
        handoff_or_release_on_shutdown(&host.node, &host.ha).action(&host.node, &host.ha, false),
        ShutdownStep::Finished
    ));
}

#[test]
fn a_node_that_stops_hands_over_or_releases() {
    let mut host = Host::new("gateway-a", "192.0.2.200");
    assert_eq!(host.stop(), Ok(()));
    assert_eq!(host.active(), "gateway-b");

    // A handoff that fails is no failure of stopping: the address is given up instead.
    let mut alone = Host::new("gateway-a", "192.0.2.200");
    alone.failing_peer = Some("gateway-b");
    assert_eq!(alone.stop(), Ok(()));
    assert_eq!(alone.active(), "gateway-a");
    assert_eq!(
        alone.events[alone.events.len() - 2..],
        [
            "/usr/local/bin/edge-lb-demote:demote:BACKUP:192.0.2.200",
            "/usr/local/bin/edge-lb-verify-vip:verify:BACKUP:192.0.2.200",
        ]
    );

    // What giving it up fails with is the result.
    let mut stuck = Host::new("gateway-a", "192.0.2.200");
    stuck.failing_hook = Some("demote");
    assert_eq!(stuck.stop(), Err(HaFault::StepFailed));

    let mut bound = Host::new("gateway-b", "192.0.2.200");
    bound.ha.vip.provider = VipProvider::L2;
    bound.bound = true;
    assert_eq!(bound.stop(), Ok(()));
    assert!(!bound.bound);

    let mut off = Host::new("gateway-a", "192.0.2.200");
    off.ha.vip.provider = VipProvider::Unmanaged;
    assert_eq!(off.stop(), Ok(()));
    assert!(off.events.is_empty());
    assert_eq!(off.active(), "gateway-a");
}

/// The host of the other gateway of the pair.
fn second_gateway(active: &str) -> Host {
    let mut host = Host::new(active, "");
    host.node.node_name = "gateway-b".to_string();
    host.node.underlay_ip = ip("192.0.2.16");
    host.node.overlay_ip = "10.255.16.1/24".to_string();
    host.ha.peers[0].name = "gateway-a".to_string();
    host.ha.peers[0].underlay_ip = "192.0.2.12".to_string();
    host
}

#[test]
fn bfd_promotion_marks_native_proxy_dirty_when_owner_changes() {
    let mut host = second_gateway("gateway-a");
    let _ = host.record.flag.take_state_dirty();
    let questions = election_questions(&host.node, &host.ha, "down", true);
    assert!(!questions.reachable && !questions.status);

    assert_eq!(host.elect("down", true), ElectionStep::Promote);

    assert_eq!(host.active(), "gateway-b");
    assert!(host.record.flag.take_state_dirty());
}

#[test]
fn an_election_that_changes_nothing_leaves_the_datapath_clean() {
    let mut failing = second_gateway("gateway-a");
    failing.failing_hook = Some("promote");
    assert_eq!(failing.elect("down", true), ElectionStep::Promote);
    assert_eq!(failing.active(), "gateway-a");
    assert!(!failing.record.flag.take_state_dirty());

    let mut active = second_gateway("gateway-b");
    assert_eq!(active.elect("down", true), ElectionStep::Nothing);
    assert!(!active.record.flag.take_state_dirty());

    // A change that waits to be taken up still waits.
    active.record.flag.mark_state_dirty();
    let event = finish_election(
        &mut active.record.flag,
        ElectionStep::AdoptPeer,
        "gateway-a",
        &None,
    );
    assert!(event.is_some());
    assert!(active.record.flag.take_state_dirty());
}
