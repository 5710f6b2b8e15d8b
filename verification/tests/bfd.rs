use edge_lb::bfd::election::{
    election_questions, is_active_peer, peer_control_plane, peer_reports_newer_master,
    peer_status_is_newer_master, reconcile_election, should_promote_local, ElectionStep,
};
use edge_lb::bfd::engine::{
    bfd_gate, bfd_transition_event, bind_text, discriminator, interval_ms, packet_event,
    session_token, silence_event, BfdEffect, BfdEngine, BfdFault, BfdGate, BfdPhase, BfdStatus,
    Severity, Shown,
};
use edge_lb::bfd::packet::{authenticated_packet, parse, BfdControl, BfdState};
use edge_lb::bfd::session::BfdTransition;
use edge_lb::config::{
    BfdConfig, FailoverMode, GatewayHaPeer, GatewayHaRuntimeConfig, GatewayNode, VipBindDevice,
    VipConfig, VipProvider,
};
use edge_lb::native::ha::LocalGateway;
use edge_lb::net::{parse_ip, IpAddr};

fn ip(text: &str) -> IpAddr {
    let chars: Vec<char> = text.chars().collect();
    parse_ip(&chars).expect("an address")
}

fn control(state: BfdState, my_discr: u32) -> BfdControl {
    BfdControl {
        diag: 0,
        state,
        poll: false,
        final_: false,
        cpi: false,
        demand: false,
        detect_mult: 3,
        my_discr,
        your_discr: 0,
        desired_min_tx: 1_000_000,
        required_min_rx: 1_000_000,
        required_min_echo_rx: 0,
        auth_present: false,
    }
}

#[test]
fn packet_round_trip() {
    let packet = authenticated_packet(&control(BfdState::Down, 12), "secret");
    assert_eq!(parse(&packet, "secret").map(|p| p.my_discr), Some(12));
    assert_eq!(parse(&packet, "wrong").map(|p| p.my_discr), None);
}

#[test]
fn invalid_packet_is_ignored() {
    assert_eq!(parse(b"invalid", "secret"), None);
}

#[test]
fn bytes_behind_a_packet_do_not_matter_but_changed_ones_do() {
    let packet = authenticated_packet(&control(BfdState::Down, 12), "secret");
    assert_eq!(packet.len(), 56);
    let mut longer = packet.clone();
    longer.push(9);
    assert_eq!(parse(&longer, "secret"), parse(&packet, "secret"));
    for i in 0..packet.len() {
        let mut changed = packet.clone();
        changed[i] ^= 1;
        assert_eq!(parse(&changed, "secret"), None);
    }
    assert_eq!(parse(&packet[..55], "secret"), None);
    let nobody = authenticated_packet(&control(BfdState::Down, 0), "secret");
    assert_eq!(parse(&nobody, "secret"), None);
}

fn promote(
    local: &str,
    preferred: &str,
    state: &str,
    was_up: bool,
    active_is_peer: bool,
    reachable: bool,
) -> bool {
    should_promote_local(
        local,
        &Some(preferred.to_string()),
        state,
        was_up,
        active_is_peer,
        reachable,
    )
}

#[test]
fn preferred_gateway_wins_initial_election() {
    assert!(promote(
        "gateway-a",
        "gateway-a",
        "down",
        false,
        false,
        false
    ));
    assert!(!promote(
        "gateway-b",
        "gateway-a",
        "down",
        false,
        false,
        false
    ));
}

#[test]
fn backup_promotes_after_established_peer_failure() {
    assert!(promote("gateway-b", "gateway-a", "down", true, false, false));
}

#[test]
fn backup_promotes_when_recorded_active_peer_is_down() {
    assert!(promote("gateway-b", "gateway-a", "down", false, true, false));
}

#[test]
fn preferred_gateway_does_not_preempt_reachable_active_peer() {
    assert!(!promote("gateway-a", "gateway-a", "down", false, true, true));
}

#[test]
fn preferred_gateway_does_not_preempt_unreachable_active_peer_before_observed_up() {
    assert!(!promote(
        "gateway-a",
        "gateway-a",
        "down",
        false,
        true,
        false
    ));
}

#[test]
fn healthy_peer_does_not_preempt_manual_failover() {
    assert!(!promote("gateway-a", "gateway-a", "up", true, false, false));
}

#[test]
fn healthy_peer_does_not_revert_non_preferred_master() {
    assert!(!promote("gateway-b", "gateway-a", "up", true, false, false));
}

fn peer() -> GatewayHaPeer {
    GatewayHaPeer {
        name: "gateway-b".to_string(),
        underlay_ip: "192.0.2.2".to_string(),
        public_ip: None,
        overlay_ip: None,
        xds_addr: None,
    }
}

#[test]
fn peer_status_revision_controls_stale_master_convergence() {
    let peer = peer();
    let newer = r#"{
            "native": {
                "node": "gateway-b",
                "active_gateway": "gateway-b",
                "active_revision": 20,
                "state": "MASTER"
            }
        }"#;
    assert!(peer_status_is_newer_master(newer, &peer, 10));
    assert!(!peer_status_is_newer_master(newer, &peer, 20));

    let backup = r#"{
            "native": {
                "node": "gateway-b",
                "active_gateway": "gateway-b",
                "active_revision": 30,
                "state": "BACKUP"
            }
        }"#;
    assert!(!peer_status_is_newer_master(backup, &peer, 10));

    let other_active = r#"{
            "native": {
                "node": "gateway-b",
                "active_gateway": "gateway-a",
                "active_revision": 30,
                "state": "MASTER"
            }
        }"#;
    assert!(!peer_status_is_newer_master(other_active, &peer, 10));
    assert!(!peer_status_is_newer_master("not json", &peer, 10));
}

fn bfd_config() -> BfdConfig {
    BfdConfig {
        bind_addr: "0.0.0.0".to_string(),
        port: 3784,
        interval_ms: 300,
        detect_multiplier: 3,
    }
}

fn engine(now_ms: u64) -> BfdEngine {
    BfdEngine::new(
        ip("192.0.2.2"),
        ip("192.0.2.1"),
        "ha-session-token".to_string(),
        &bfd_config(),
        now_ms,
    )
}

#[test]
fn bfd_authentication_uses_one_session_token_for_both_directions() {
    let mut engine = engine(10_000);
    let sent = engine.on_tick(10_000).expect("a packet is due");
    let control_sent = parse(&sent, "ha-session-token").expect("the token opens what is sent");
    assert_eq!(control_sent.my_discr, 0xc000_0201);
    assert_eq!(control_sent.state, BfdState::Down);
    let received = authenticated_packet(&control(BfdState::Down, 7), "ha-session-token");
    let effect = engine.on_datagram(ip("192.0.2.2"), &received, 10_001);
    assert_eq!(effect.shown, Some(Shown::Negotiating));
}

#[test]
fn a_session_comes_up_and_goes_down() {
    let mut engine = engine(10_000);
    let peer = ip("192.0.2.2");
    let token = "ha-session-token";
    let stranger = authenticated_packet(&control(BfdState::Down, 7), token);
    let ignored = engine.on_datagram(ip("192.0.2.9"), &stranger, 10_001);
    assert_eq!(ignored.shown, None);
    assert_eq!(engine.on_check(10_001).shown, Some(Shown::Down));
    let wrong = authenticated_packet(&control(BfdState::Down, 7), "other");
    assert_eq!(engine.on_datagram(peer, &wrong, 10_001).shown, None);
    assert_eq!(engine.on_check(10_001).shown, Some(Shown::Down));

    let down = authenticated_packet(&control(BfdState::Down, 7), token);
    let effect = engine.on_datagram(peer, &down, 10_002);
    assert_eq!(effect.election, Some(false));
    let nameless = authenticated_packet(&control(BfdState::Up, 7), token);
    assert_eq!(engine.on_datagram(peer, &nameless, 10_003).shown, None);
    let named = BfdControl {
        your_discr: 0xc000_0201,
        ..control(BfdState::Up, 7)
    };
    let up = authenticated_packet(&named, token);
    let effect = engine.on_datagram(peer, &up, 10_003);
    assert_eq!(effect.shown, Some(Shown::Up));
    assert_eq!(effect.election, Some(true));
    let again = engine.on_datagram(peer, &up, 10_004);
    assert_eq!(again.election, None);
    assert_eq!(again.change, None);

    assert_eq!(engine.on_check(10_904).shown, None);
    let silence = engine.on_check(10_905);
    assert_eq!(silence.shown, Some(Shown::Down));
    assert_eq!(silence.election, Some(true));
    // It is told once.
    assert_eq!(engine.on_check(10_906).election, None);
}

#[test]
fn packets_are_sent_at_their_interval() {
    let mut engine = engine(10_000);
    assert!(engine.on_tick(10_000).is_some());
    assert!(engine.on_tick(10_299).is_none());
    assert!(engine.on_tick(10_300).is_some());
    // A clock that has just begun makes no difference.
    let mut fresh = self::engine(0);
    assert!(fresh.on_tick(0).is_some());
    assert!(fresh.on_tick(299).is_none());
    assert!(fresh.on_tick(300).is_some());
    let mut slow = BfdEngine::new(
        ip("192.0.2.2"),
        ip("192.0.2.1"),
        "ha-session-token".to_string(),
        &BfdConfig {
            interval_ms: 1_500,
            ..bfd_config()
        },
        0,
    );
    assert!(slow.on_tick(499).is_none());
    assert!(slow.on_tick(500).is_some());
    let quick = BfdConfig {
        interval_ms: 1,
        ..bfd_config()
    };
    assert_eq!(interval_ms(&quick), 50);
    assert_eq!(bind_text(&bfd_config()), "0.0.0.0:3784");
    assert_eq!(discriminator(ip("192.0.2.1")), 0xc000_0201);
}

fn ha_config() -> GatewayHaRuntimeConfig {
    GatewayHaRuntimeConfig {
        enabled: true,
        failover: FailoverMode::BfdAuto,
        peers: vec![peer()],
        preferred_active: Some("gateway-b".to_string()),
        vip: VipConfig {
            provider: VipProvider::Unmanaged,
            bind_device: VipBindDevice::Underlay,
            private_vip: None,
            promote_hook: String::new(),
            demote_hook: String::new(),
            verify_hook: String::new(),
        },
        bfd: bfd_config(),
        xsync_port: 22222,
    }
}

fn local(active: Option<(&str, &str)>) -> LocalGateway {
    LocalGateway {
        node_name: "gateway-a".to_string(),
        underlay_ip: ip("192.0.2.1"),
        underlay_dev: "eth0".to_string(),
        overlay_ip: "10.255.0.1/24".to_string(),
        active: active.map(|(name, underlay)| GatewayNode {
            name: name.to_string(),
            public_ip: ip("203.0.113.1"),
            underlay_ip: ip(underlay),
            overlay_ip: "10.255.0.1/24".to_string(),
        }),
        active_revision: None,
    }
}

#[test]
fn a_peer_is_watched_where_failover_is_automatic() {
    assert_eq!(
        bfd_gate(&ha_config()),
        BfdGate::Watch {
            peer: ip("192.0.2.2")
        }
    );
    let mut ha = ha_config();
    ha.failover = FailoverMode::Manual;
    assert_eq!(bfd_gate(&ha), BfdGate::Disabled);
    let mut ha = ha_config();
    ha.peers[0].underlay_ip = "peer".to_string();
    assert_eq!(bfd_gate(&ha), BfdGate::BadPeerAddress);
    ha.peers.clear();
    assert_eq!(bfd_gate(&ha), BfdGate::Unconfigured);
}

#[test]
fn an_election_asks_first_and_then_decides() {
    let ha = ha_config();
    let peer_active = local(Some(("gateway-b", "192.0.2.2")));
    let self_active = local(Some(("gateway-a", "192.0.2.1")));
    assert!(is_active_peer(&peer_active, &ha));
    assert!(!is_active_peer(&self_active, &ha));
    assert!(election_questions(&peer_active, &ha, "down", false).reachable);
    assert!(!election_questions(&peer_active, &ha, "down", true).reachable);
    assert!(election_questions(&self_active, &ha, "up", true).status);
    assert_eq!(
        reconcile_election(&peer_active, &ha, "down", true, false, false),
        ElectionStep::Promote
    );
    assert_eq!(
        reconcile_election(&peer_active, &ha, "down", false, true, false),
        ElectionStep::Nothing
    );
    assert_eq!(
        reconcile_election(&self_active, &ha, "up", true, false, true),
        ElectionStep::AdoptPeer
    );
    assert_eq!(
        reconcile_election(&self_active, &ha, "down", true, false, false),
        ElectionStep::Nothing
    );
}

#[test]
fn the_control_plane_of_a_peer_is_found() {
    let mut other = peer();
    assert_eq!(
        peer_control_plane(&other, "0.0.0.0:18443", 22222),
        Some((ip("192.0.2.2"), 18443))
    );
    assert_eq!(
        peer_control_plane(&other, "", 22222),
        Some((ip("192.0.2.2"), 22222))
    );
    other.xds_addr = Some("192.0.2.7:9".to_string());
    assert_eq!(
        peer_control_plane(&other, "", 22222),
        Some((ip("192.0.2.7"), 9))
    );
}

#[test]
fn the_status_shows_the_last_state_or_error() {
    let mut status = BfdStatus::new();
    assert_eq!(status.state, "disabled");
    status.set_error("no socket".to_string());
    assert_eq!(status.snapshot().last_error, Some("no socket".to_string()));
    status.set_state("up", Some("a".to_string()), Some("b".to_string()));
    let shown = status.snapshot();
    assert_eq!(shown.state, "up");
    assert_eq!(shown.last_error, None);
    assert_eq!(shown.last_rx_ms, Some(0));
}

#[test]
fn the_status_says_why_no_peer_is_watched() {
    let underlay = ip("192.0.2.1");
    let mut ha = ha_config();
    let mut status = BfdStatus::new();
    status.set_error("no socket".to_string());
    assert_eq!(
        status.note_gate(&ha, underlay),
        BfdGate::Watch {
            peer: ip("192.0.2.2")
        }
    );
    assert_eq!(status.state, "error");
    ha.failover = FailoverMode::Manual;
    assert_eq!(status.note_gate(&ha, underlay), BfdGate::Disabled);
    assert_eq!(status.state, "disabled");
    assert_eq!(status.last_error, None);
    assert_eq!(status.peer_ip, None);
    assert_eq!(status.source_ip, Some("192.0.2.1".to_string()));
    let mut ha = ha_config();
    ha.peers[0].underlay_ip = "peer".to_string();
    assert_eq!(status.note_gate(&ha, underlay), BfdGate::BadPeerAddress);
    assert_eq!(status.state, "error");
    assert_eq!(
        status.last_error,
        Some("invalid BFD peer address peer".to_string())
    );
    assert_eq!(status.source_ip, Some("192.0.2.1".to_string()));
    ha.peers.clear();
    assert_eq!(status.note_gate(&ha, underlay), BfdGate::Unconfigured);
    assert_eq!(status.state, "unconfigured");
    assert_eq!(status.last_error, None);
}

#[test]
fn the_status_follows_the_session() {
    let (peer, underlay) = (ip("192.0.2.2"), ip("192.0.2.1"));
    let mut status = BfdStatus::new();
    status.note_phase(BfdPhase::Started, peer, underlay);
    assert_eq!(status.state, "down");
    assert_eq!(status.peer_ip, Some("192.0.2.2".to_string()));
    assert_eq!(status.last_rx_ms, None);
    let mut effect = BfdEffect {
        shown: Some(Shown::Up),
        change: None,
        election: None,
    };
    status.note_effect(&effect, peer, underlay);
    assert_eq!(status.state, "up");
    assert_eq!(status.last_rx_ms, Some(0));
    status.note_fault(&BfdFault::Send {
        error: "unreachable".to_string(),
    });
    assert_eq!(status.state, "error");
    assert_eq!(status.peer_ip, Some("192.0.2.2".to_string()));
    effect.shown = None;
    status.note_effect(&effect, peer, underlay);
    assert_eq!(status.state, "error");
    effect.shown = Some(Shown::Negotiating);
    status.note_effect(&effect, peer, underlay);
    assert_eq!(status.state, "negotiating");
    assert_eq!(status.last_error, None);
    status.note_phase(BfdPhase::Stopped, peer, underlay);
    assert_eq!(status.state, "stopped");
    assert_eq!(status.source_ip, Some("192.0.2.1".to_string()));
}

#[test]
fn faults_of_watching_are_named() {
    let error = || "oops".to_string();
    let texts = [
        BfdFault::Config { error: error() }.text(),
        BfdFault::PeerAddress {
            address: "peer".to_string(),
        }
        .text(),
        BfdFault::Bind {
            bind: "0.0.0.0:3784".to_string(),
            error: error(),
        }
        .text(),
        BfdFault::TokenMissing.text(),
        BfdFault::Token { error: error() }.text(),
        BfdFault::Send { error: error() }.text(),
        BfdFault::Receive { error: error() }.text(),
    ];
    assert_eq!(
        texts,
        [
            "loading HA config: oops",
            "invalid BFD peer address peer",
            "binding 0.0.0.0:3784: oops",
            "BFD peer token is unavailable",
            "loading BFD peer token: oops",
            "sending BFD packet: oops",
            "receiving BFD packet: oops",
        ]
    );
}

#[test]
fn packets_and_silence_are_told_in_their_own_words() {
    let change = |from, to| BfdEffect {
        shown: None,
        change: Some(BfdTransition { from, to }),
        election: None,
    };
    let none = BfdEffect {
        shown: Some(Shown::Down),
        change: None,
        election: None,
    };
    let down = change(BfdState::Up, BfdState::Down);
    let told = silence_event("gateway-b", &down).unwrap();
    assert_eq!(told.text, "BFD peer gateway-b changed from up to down.");
    assert_eq!(told.severity, Severity::Warning);
    assert!(silence_event("gateway-b", &none).is_none());
    let told = packet_event("gateway-b", &down).unwrap();
    assert_eq!(told.text, "BFD peer gateway-b changed from Up to Down.");
    assert_eq!(told.severity, Severity::Warning);
    let told = packet_event("gateway-b", &change(BfdState::Down, BfdState::Init)).unwrap();
    assert_eq!(told.text, "BFD peer gateway-b changed from Down to Init.");
    assert_eq!(told.severity, Severity::Info);
    assert!(packet_event("gateway-b", &none).is_none());
}

#[test]
fn only_a_success_is_an_account_of_the_peer() {
    let body = r#"{"native":{"state":"MASTER","node":"gateway-b","active_gateway":"gateway-b","active_revision":20}}"#;
    let mut other = peer();
    other.name = "gateway-b".to_string();
    for status in [200, 204, 299] {
        assert!(peer_reports_newer_master(status, body, &other, 10));
    }
    for status in [0, 199, 300, 404, 500] {
        assert!(!peer_reports_newer_master(status, body, &other, 10));
    }
    assert!(!peer_reports_newer_master(200, body, &other, 20));
}

#[test]
fn changes_of_state_are_published() {
    assert!(bfd_transition_event("p", "Up", "Up").is_none());
    let event = bfd_transition_event("192.0.2.2", "Up", "Down").unwrap();
    assert_eq!(event.severity, Severity::Warning);
    assert_eq!(
        event.text,
        "BFD peer 192.0.2.2 changed from Up to Down."
    );
    assert_eq!(
        bfd_transition_event("p", "Down", "Up").unwrap().severity,
        Severity::Info
    );
}

#[test]
fn an_empty_token_is_none() {
    assert_eq!(session_token(&None), None);
    assert_eq!(session_token(&Some(String::new())), None);
    assert_eq!(
        session_token(&Some("secret".to_string())).as_deref(),
        Some("secret")
    );
}
