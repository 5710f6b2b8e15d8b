use edge_lb::config::GatewayHaPeer;
use edge_lb::native::flow::{FlowEntry, FlowKey, FlowValue};
use edge_lb::native::xsync::{
    authorize_proto_request, decode_request, entry_from_proto_at, entry_to_proto,
    flow_ack_covers_sent, key_from_proto, key_to_proto, local_last_seen_ns, replicate,
    FlowMutation, FullReconcileSchedule, PendingFlowBatch, ReplicaStep, SyncRefusal, WireEntry,
    WireFault, WireKey, WireValue, XsyncStatus,
    EVENT_POLL_INTERVAL_MS, MAX_SYNC_OPS_PER_BATCH, PENDING_FLUSH_INTERVAL_MS,
    RECONCILE_HEALTHY_INTERVAL_MS, RECONCILE_RECOVERY_INTERVAL_MS, RECONCILE_RECOVERY_ROUNDS,
};
use edge_lb::native::xsync_run::{SyncAction, SyncEvent, SyncRun, SyncSettings};
use edge_lb::native::xsync_session::{
    control_port, next_backoff_ms, peer_endpoint, XsyncSession,
};
use edge_lb::net::{parse_ip, IpAddr};

fn test_key(sport: u16) -> FlowKey {
    FlowKey {
        src: 1,
        dst: 2,
        sport,
        dport: 80,
        proto: 6,
    }
}

fn test_value(last_seen_ns: u64) -> FlowValue {
    FlowValue {
        listener_id: 7,
        target_id: 9,
        vip: 2,
        target: 3,
        vip_port: 80,
        target_port: 8080,
        timeout_secs: 60,
        last_seen_ns,
    }
}

fn entry(sport: u16, last_seen_ns: u64) -> FlowEntry {
    FlowEntry {
        key: test_key(sport),
        value: test_value(last_seen_ns),
    }
}

#[test]
fn grpc_poll_interval_is_bounded() {
    assert_eq!(EVENT_POLL_INTERVAL_MS, 25);
}

#[test]
fn standby_state_name_is_stable() {
    let mut status = XsyncStatus::new();
    status.set_state("standby", None, None);
    assert_eq!(status.snapshot().state, "standby");
    status.set_ack(3);
    assert_eq!(status.snapshot().last_ack_applied, 3);
    status.set_error("gone".to_string());
    assert_eq!(status.snapshot().state, "error");
    assert_eq!(status.snapshot().last_error, Some("gone".to_string()));
}

#[test]
fn flow_sync_sends_age_instead_of_local_monotonic_time() {
    let proto = entry_to_proto(&entry(12345, 900), 1_000);
    assert_eq!(proto.value.unwrap().last_seen_age_ns, 100);
}

fn wire_entry() -> WireEntry {
    WireEntry {
        key: Some(WireKey {
            src: 1,
            dst: 2,
            sport: 12345,
            dport: 80,
            proto: 6,
        }),
        value: Some(WireValue {
            listener_id: 7,
            target_id: 9,
            vip: 2,
            target: 3,
            vip_port: 80,
            target_port: 8080,
            timeout_secs: 60,
            last_seen_age_ns: 100,
        }),
    }
}

#[test]
fn flow_sync_rebases_age_to_receiver_monotonic_time() {
    let plain = entry_from_proto_at(&wire_entry(), 5_000).unwrap();
    assert_eq!(plain.value.last_seen_ns, 4_900);
    assert_eq!(plain.key, test_key(12345));
}

#[test]
fn flow_sync_zero_age_maps_to_receiver_now() {
    assert_eq!(local_last_seen_ns(0, 5_000), 5_000);
}

#[test]
fn flows_survive_the_wire() {
    let sent = entry(12345, 900);
    let wire = entry_to_proto(&sent, 1_000);
    assert_eq!(entry_from_proto_at(&wire, 1_000).unwrap(), sent);
    assert_eq!(key_from_proto(key_to_proto(sent.key)), Ok(sent.key));
}

#[test]
fn numbers_that_do_not_fit_are_refused() {
    let mut wire = key_to_proto(test_key(1));
    wire.sport = 65_536;
    assert!(key_from_proto(wire).is_err());
    let mut wide = wire_entry();
    wide.value.as_mut().unwrap().vip_port = 65_536;
    assert!(entry_from_proto_at(&wide, 5_000).is_err());
    let mut bare = wire_entry();
    bare.value = None;
    assert!(entry_from_proto_at(&bare, 5_000).is_err());
    assert!(decode_request(&[bare], &[], 5_000).is_err());
    let batch = decode_request(&[wire_entry()], &[key_to_proto(test_key(9))], 5_000).unwrap();
    assert_eq!(batch.operation_count(), 2);
    assert!(!batch.is_empty());
}

#[test]
fn pending_flow_batch_keeps_last_operation_for_each_key() {
    let mut pending = PendingFlowBatch::new();

    pending.apply_mutations(
        &[
            FlowMutation::Delete(test_key(12345)),
            FlowMutation::Upsert(entry(12345, 900)),
        ],
        0,
    );
    let batch = pending.take_limited_batch(0);

    assert_eq!(batch.entries, vec![entry(12345, 900)]);
    assert!(batch.deletes.is_empty());
    assert_eq!(pending.operation_count(), 0);
}

#[test]
fn pending_flow_batch_keeps_latest_upsert_and_drops_shadowed_delete() {
    let key = test_key(12345);
    let mut pending = PendingFlowBatch::new();
    let now = 0;

    pending.apply_deletes(&[key, key], now);
    pending.apply_entries(
        &[entry(12345, 900), entry(12345, 1_100), entry(12346, 1_000)],
        now,
    );
    let batch = pending.take_limited_batch(now);

    assert_eq!(
        batch
            .entries
            .iter()
            .find(|item| item.key == key)
            .unwrap()
            .value
            .last_seen_ns,
        1_100
    );
    assert!(batch.deletes.is_empty());
}

#[test]
fn flow_ack_must_cover_every_sent_operation_before_advancing_replica_index() {
    assert!(flow_ack_covers_sent(2, 2));
    assert!(!flow_ack_covers_sent(2, 1));
    assert!(!flow_ack_covers_sent(1, u64::MAX));
}

#[test]
fn flow_batch_limit_prioritizes_upserts_and_defers_excess_deletes() {
    let mut pending = PendingFlowBatch::new();
    let now = 0;

    let entries: Vec<FlowEntry> = (0..MAX_SYNC_OPS_PER_BATCH)
        .map(|idx| entry(idx as u16, idx as u64))
        .collect();
    pending.apply_entries(&entries, now);
    pending.apply_deletes(&[test_key(60_000)], now);
    let batch = pending.take_limited_batch(now);

    assert_eq!(batch.entries.len(), MAX_SYNC_OPS_PER_BATCH);
    assert!(batch.deletes.is_empty());
    assert_eq!(pending.operation_count(), 1);
}

#[test]
fn flow_batch_limit_keeps_total_operations_bounded() {
    let mut pending = PendingFlowBatch::new();
    let now = 0;

    pending.apply_entries(&[entry(60_000, 1)], now);
    let keys: Vec<FlowKey> = (0..MAX_SYNC_OPS_PER_BATCH)
        .map(|idx| test_key(idx as u16))
        .collect();
    pending.apply_deletes(&keys, now);
    let batch = pending.take_limited_batch(now);

    assert_eq!(batch.entries.len(), 1);
    assert_eq!(batch.deletes.len(), MAX_SYNC_OPS_PER_BATCH - 1);
    assert_eq!(batch.operation_count(), MAX_SYNC_OPS_PER_BATCH);
    assert_eq!(pending.operation_count(), 1);
}

#[test]
fn pending_flow_batch_requeues_unacked_batch() {
    let mut pending = PendingFlowBatch::new();
    let now = 0;

    pending.apply_entries(&[entry(12345, 900)], now);
    let batch = pending.take_limited_batch(now);
    assert_eq!(pending.operation_count(), 0);

    pending.requeue_batch(&batch, now);
    let batch = pending.take_limited_batch(now);

    assert_eq!(batch.entries, vec![entry(12345, 900)]);
    assert!(batch.deletes.is_empty());
}

#[test]
fn pending_flow_batch_flushes_after_delay_or_batch_limit() {
    let mut pending = PendingFlowBatch::new();
    let now = 1_000;

    assert!(!pending.should_flush(now, false));
    pending.apply_entries(&[entry(1, 1)], now);

    assert!(!pending.should_flush(now, false));
    assert!(pending.should_flush(now, true));
    assert!(pending.should_flush(now + PENDING_FLUSH_INTERVAL_MS, false));
}

#[test]
fn full_reconcile_schedule_starts_due_then_uses_healthy_interval() {
    let now = 1_000;
    let mut schedule = FullReconcileSchedule::new(now);

    assert!(schedule.due(now));
    schedule.mark_completed(now);

    assert!(!schedule.due(now + RECONCILE_HEALTHY_INTERVAL_MS / 2));
    assert!(schedule.due(now + RECONCILE_HEALTHY_INTERVAL_MS));
}

#[test]
fn full_reconcile_schedule_uses_recovery_rounds_after_forced_repair() {
    let now = 1_000;
    let mut schedule = FullReconcileSchedule::new(now);

    schedule.mark_completed(now);
    schedule.force_recovery(now);

    assert!(schedule.due(now));
    schedule.mark_completed(now);
    assert!(!schedule.due(now + RECONCILE_RECOVERY_INTERVAL_MS / 2));
    assert!(schedule.due(now + RECONCILE_RECOVERY_INTERVAL_MS));
    assert_eq!(schedule.recovery_rounds, RECONCILE_RECOVERY_ROUNDS - 1);
}

#[test]
fn a_session_sends_what_the_peer_lacks_until_it_is_acknowledged() {
    let mut session = XsyncSession::new(1_000);
    assert!(session.on_events(&[], 1_000));
    session.on_dump(&[entry(1, 10), entry(2, 10)], 1_000, 1_000);
    let batch = session.next_request(1_000, true).unwrap();
    assert_eq!(batch.entries.len(), 2);
    assert!(!session.on_ack(&batch, 1, 1_001));
    let again = session.next_request(1_001, true).unwrap();
    assert_eq!(again.entries.len(), 2);
    assert!(session.on_ack(&again, 2, 1_002));
    assert!(session.next_request(1_002, true).is_none());
    session.on_dump(&[entry(2, 11)], 3_000, 3_000);
    let update = session.next_request(3_000, true).unwrap();
    assert_eq!(update.entries, vec![entry(2, 11)]);
    assert_eq!(update.deletes, vec![test_key(1)]);
}

fn peer() -> GatewayHaPeer {
    GatewayHaPeer {
        name: "gateway-b".to_string(),
        underlay_ip: "192.0.2.2".to_string(),
        public_ip: None,
        overlay_ip: None,
        xds_addr: None,
    }
}

fn ip(text: &str) -> IpAddr {
    let chars: Vec<char> = text.chars().collect();
    parse_ip(&chars).expect("an address")
}

#[test]
fn only_the_peer_may_send_flows_and_only_to_a_backup() {
    let peers = [peer()];
    let source = Some(ip("192.0.2.2"));
    let ask = |source: Option<IpAddr>, sender: &str, token_ok: bool, active: bool| {
        authorize_proto_request(source, &peers, sender, token_ok, active)
    };
    assert_eq!(ask(source, "gateway-b", true, false), Ok(()));
    assert_eq!(
        ask(None, "gateway-b", true, false),
        Err(SyncRefusal::NoSource)
    );
    assert_eq!(
        ask(Some(ip("192.0.2.3")), "gateway-b", true, false),
        Err(SyncRefusal::WrongAddress)
    );
    assert_eq!(
        ask(source, "gateway-c", true, false),
        Err(SyncRefusal::WrongName)
    );
    assert_eq!(
        ask(source, "gateway-b", false, false),
        Err(SyncRefusal::BadToken)
    );
    assert_eq!(
        ask(source, "gateway-b", true, true),
        Err(SyncRefusal::Active)
    );
    assert_eq!(
        authorize_proto_request(source, &[], "gateway-b", true, false),
        Err(SyncRefusal::NoPeer)
    );
    let mut unknown = peer();
    unknown.underlay_ip = "peer".to_string();
    assert_eq!(
        authorize_proto_request(source, &[unknown], "gateway-b", true, false),
        Err(SyncRefusal::BadPeerAddress)
    );
}

fn settings() -> SyncSettings {
    SyncSettings {
        enabled: true,
        connection_sync: true,
        peers: vec![peer()],
        listen: "0.0.0.0:18443".to_string(),
        port: 22222,
    }
}

fn role(state: &str) -> SyncEvent {
    SyncEvent::Role {
        state: state.to_string(),
    }
}

fn answered(accepted: u64, now_ms: u64) -> SyncEvent {
    SyncEvent::Answered {
        accepted: Some(accepted),
        now_ms,
    }
}

/// Leads a worker to the first question of a session.
fn connected_worker() -> SyncRun {
    let mut run = SyncRun::run_worker("gateway-a".to_string(), XsyncStatus::new());
    run.advance(SyncEvent::Answer(false));
    run.advance(SyncEvent::Settings(settings()));
    run.advance(role("MASTER"));
    run.advance(SyncEvent::Token(Some("secret".to_string())));
    match run.action() {
        SyncAction::Connect { endpoint } => assert_eq!(endpoint, "http://192.0.2.2:18443"),
        other => panic!("{other:?}"),
    }
    run.advance(SyncEvent::Passed);
    match run.action() {
        SyncAction::Send { request } => {
            assert_eq!(request.source, "gateway-a");
            assert_eq!(request.token, "secret");
            assert!(request.entries.is_empty() && request.deletes.is_empty());
        }
        other => panic!("{other:?}"),
    }
    run.advance(SyncEvent::Passed);
    assert!(matches!(
        run.action(),
        SyncAction::AwaitAnswer { timeout_ms: 5_000 }
    ));
    run.advance(answered(0, 900));
    assert!(matches!(run.action(), SyncAction::OpenEvents));
    run.advance(SyncEvent::Now(1_000));
    assert_eq!(run.status.state, "connected");
    assert_eq!(run.status.peer.as_deref(), Some("http://192.0.2.2:18443"));
    assert!(matches!(run.action(), SyncAction::AskStop));
    run
}

/// Leads a worker from the first question of a session to its first request.
fn sending_worker() -> SyncRun {
    let mut run = connected_worker();
    run.advance(SyncEvent::Answer(false));
    run.advance(role("MASTER"));
    assert!(matches!(run.action(), SyncAction::DrainEvents));
    run.advance(SyncEvent::Drained {
        mutations: vec![FlowMutation::Delete(test_key(5))],
        now_ms: 1_001,
    });
    assert!(matches!(run.action(), SyncAction::SweepFlows));
    // A sweep that fails does not end the session.
    run.advance(SyncEvent::Failed {
        error: "busy".to_string(),
    });
    assert!(matches!(run.action(), SyncAction::DumpFlows));
    run.advance(SyncEvent::Dumped {
        flows: vec![entry(1, 10), entry(2, 20)],
        done_ms: 1_002,
    });
    assert!(matches!(run.action(), SyncAction::ReadClock));
    run.advance(SyncEvent::Now(1_003));
    assert!(matches!(run.action(), SyncAction::ReadMonotonic));
    run.advance(SyncEvent::NowNs(30));
    match run.action() {
        SyncAction::Send { request } => {
            assert_eq!(request.entries.len(), 2);
            assert_eq!(request.entries[0].value.unwrap().last_seen_age_ns, 20);
            assert_eq!(request.deletes, vec![key_to_proto(test_key(5))]);
        }
        other => panic!("{other:?}"),
    }
    run.advance(SyncEvent::Passed);
    assert!(matches!(
        run.action(),
        SyncAction::AwaitAnswer { timeout_ms: 5_000 }
    ));
    run
}

#[test]
fn the_peer_knows_what_it_accepted() {
    let mut run = sending_worker();
    run.advance(answered(3, 1_004));
    assert_eq!(run.status.last_ack_applied, 3);
    assert!(matches!(run.action(), SyncAction::Wait { ms: 25 }));
    run.advance(SyncEvent::Passed);
    run.advance(SyncEvent::Answer(false));
    run.advance(role("MASTER"));
    run.advance(SyncEvent::Drained {
        mutations: vec![],
        now_ms: 1_030,
    });
    // Nothing is due, and nothing waits.
    run.advance(SyncEvent::Now(1_031));
    assert!(matches!(run.action(), SyncAction::Wait { ms: 25 }));
    assert_eq!(run.session.pending.operation_count(), 0);
}

#[test]
fn refused_operations_are_sent_again() {
    let mut run = sending_worker();
    run.advance(answered(2, 1_004));
    assert_eq!(run.session.pending.operation_count(), 3);
    assert_eq!(run.session.reconcile.next_at_ms, 1_004);
    run.advance(SyncEvent::Passed);
    run.advance(SyncEvent::Answer(false));
    // A gateway that is no longer active sends nothing.
    run.advance(role("BACKUP"));
    assert_eq!(run.status.state, "standby");
    assert!(matches!(run.action(), SyncAction::ReadLimit));
}

#[test]
fn a_session_that_fails_is_told_and_opened_again_later() {
    let mut run = sending_worker();
    run.advance(SyncEvent::Answered {
        accepted: None,
        now_ms: 1_004,
    });
    assert_eq!(run.status.state, "error");
    assert_eq!(
        run.status.last_error.as_deref(),
        Some("xSync peer closed stream")
    );
    for wait in [250, 500, 1_000, 1_000] {
        assert!(matches!(run.action(), SyncAction::ReadLimit));
        run.advance(SyncEvent::Limit(Some(1_000)));
        match run.action() {
            SyncAction::Wait { ms } => assert_eq!(ms, wait),
            other => panic!("{other:?}"),
        }
        run.advance(SyncEvent::Passed);
        run.advance(SyncEvent::Answer(false));
        run.advance(SyncEvent::Failed {
            error: "no settings".to_string(),
        });
        assert_eq!(run.status.last_error.as_deref(), Some("no settings"));
    }
    run.advance(SyncEvent::Limit(None));
    run.advance(SyncEvent::Passed);
    run.advance(SyncEvent::Answer(true));
    assert!(matches!(run.action(), SyncAction::Finished));
}

#[test]
fn a_session_needs_a_peer_a_token_and_an_answer() {
    let mut run = SyncRun::run_worker("gateway-a".to_string(), XsyncStatus::new());
    run.advance(SyncEvent::Answer(false));
    run.advance(SyncEvent::Settings(SyncSettings {
        peers: vec![],
        ..settings()
    }));
    run.advance(role("MASTER"));
    assert_eq!(
        run.status.last_error.as_deref(),
        Some("xsync peer is not configured")
    );

    let mut run = SyncRun::run_worker("gateway-a".to_string(), XsyncStatus::new());
    run.advance(SyncEvent::Answer(false));
    run.advance(SyncEvent::Settings(settings()));
    run.advance(role("MASTER"));
    run.advance(SyncEvent::Token(None));
    assert_eq!(
        run.status.last_error.as_deref(),
        Some("xsync peer token unavailable")
    );

    let mut run = SyncRun::run_worker("gateway-a".to_string(), XsyncStatus::new());
    run.advance(SyncEvent::Answer(false));
    run.advance(SyncEvent::Settings(settings()));
    run.advance(role("MASTER"));
    run.advance(SyncEvent::Token(Some("secret".to_string())));
    run.advance(SyncEvent::Passed);
    run.advance(SyncEvent::Passed);
    run.advance(SyncEvent::Answered {
        accepted: None,
        now_ms: 0,
    });
    assert_eq!(
        run.status.last_error.as_deref(),
        Some("xSync handshake was not acknowledged")
    );
}

#[test]
fn sessions_are_opened_by_the_active_gateway() {
    for (enabled, connection_sync, state, opened) in [
        (true, true, "MASTER", true),
        (true, true, "BACKUP", false),
        (true, false, "MASTER", false),
        (false, true, "MASTER", false),
    ] {
        let mut run = SyncRun::run_worker("gateway-a".to_string(), XsyncStatus::new());
        assert!(matches!(run.action(), SyncAction::AskStop));
        run.advance(SyncEvent::Answer(false));
        assert!(matches!(run.action(), SyncAction::ReadSettings));
        run.advance(SyncEvent::Settings(SyncSettings {
            enabled,
            connection_sync,
            ..settings()
        }));
        if matches!(run.action(), SyncAction::ReadRole) {
            run.advance(role(state));
        }
        assert_eq!(matches!(run.action(), SyncAction::ReadToken), opened);
        if !opened {
            assert!(matches!(run.action(), SyncAction::Wait { ms: 1_000 }));
            run.advance(SyncEvent::Passed);
            assert!(matches!(run.action(), SyncAction::ReadLimit));
            assert_eq!(run.status.state, "disabled");
        }
    }
    assert_eq!(control_port("0.0.0.0:18443", 22222), 18443);
    assert_eq!(control_port("", 22222), 22222);
    assert_eq!(
        peer_endpoint(&peer(), "0.0.0.0:18443", 22222),
        "http://192.0.2.2:18443"
    );
    assert_eq!(next_backoff_ms(250, None), 500);
    assert_eq!(next_backoff_ms(4_000, None), 5_000);
    assert_eq!(next_backoff_ms(4_000, Some(1)), 250);
}

#[test]
fn requests_are_refused_before_they_are_read() {
    let peers = [peer()];
    let source = Some(ip("192.0.2.2"));
    let mut bare = wire_entry();
    bare.value = None;
    let step = replicate(source, &peers, "gateway-c", true, false, &[bare], &[], 5_000);
    assert!(matches!(step, ReplicaStep::Refuse(SyncRefusal::WrongName)));
    let step = replicate(source, &peers, "gateway-b", true, false, &[bare], &[], 5_000);
    assert!(matches!(step, ReplicaStep::Fault(WireFault::NoValue)));
    let good = [wire_entry()];
    match replicate(source, &peers, "gateway-b", true, false, &good, &[], 5_000) {
        ReplicaStep::Apply(batch) => assert_eq!(batch.operation_count(), 1),
        other => panic!("unexpected step {other:?}"),
    }
}
