use edge_lb::bytes::ByteOrder;
use edge_lb::config::GatewayNode;
use edge_lb::native::flow::{
    canonical_flow_pair, flow_age, forward_reverse_keys, to_wire, FlowEntry, FlowKey, FlowValue,
};
use edge_lb::native::flow_persistence::{
    collect_restore_pairs, collect_snapshot_pairs, config_digest, flow_age_expired,
    flush_on_shutdown, is_active_gateway, pair_from_entries, remap_value, remaining_ttl_ns,
    restore_on_start, restore_snapshot, secs_to_ns, snapshot_entries_from_pairs,
    snapshot_interval_secs, spawn_worker, unix_elapsed_ns, unix_ns, write_snapshot,
    FlowPersistenceSettings, FlowPersistenceStatus, ListenerAssignment, RestoreStep,
    RestoreSummary, SnapshotStep, SnapshotSummary,
};
use edge_lb::native::model::{
    NativeListener, NativeListenerKey, NativeProtocol, NativeTarget, NativeTargetState,
};
use edge_lb::native::snapshot::{
    decode_snapshot, encode_snapshot, Snapshot, SnapshotEntry, SnapshotError,
};
use edge_lb::net::IpAddr;

const ORDER: ByteOrder = ByteOrder::Little;
const SECOND: u64 = 1_000_000_000;

fn addr(a: u8, b: u8, c: u8, d: u8) -> u32 {
    u32::from_be_bytes([a, b, c, d])
}

fn flow_entry(source_port: u16, last_seen_ns: u64) -> (FlowKey, FlowValue) {
    let key = FlowKey {
        src: addr(198, 51, 100, 10),
        dst: addr(192, 0, 2, 10),
        sport: to_wire(ORDER, source_port),
        dport: to_wire(ORDER, 5060),
        proto: 17,
    };
    let value = FlowValue {
        listener_id: 7,
        target_id: 0,
        vip: key.dst,
        target: addr(192, 0, 2, 20),
        vip_port: to_wire(ORDER, 5060),
        target_port: 5060,
        timeout_secs: 240,
        last_seen_ns,
    };
    (key, value)
}

fn settings(min_remaining_ttl_secs: u64) -> FlowPersistenceSettings {
    FlowPersistenceSettings {
        enabled: true,
        restore_on_start: true,
        flush_on_shutdown: true,
        interval_secs: 30,
        min_remaining_ttl_secs,
        max_records: 100,
    }
}

fn flow(key: FlowKey, value: FlowValue) -> FlowEntry {
    FlowEntry { key, value }
}

#[test]
fn snapshot_round_trip_preserves_age_not_monotonic_time() {
    let (key, value) = flow_entry(40000, 90);
    let snapshot = Snapshot {
        saved_at_unix_ns: 1_000,
        node_name: "gateway-a".to_string(),
        config_digest: [9; 32],
        entries: vec![SnapshotEntry {
            key,
            value,
            last_seen_age_ns: 10,
        }],
    };
    let bytes = encode_snapshot(&snapshot).unwrap();
    let decoded = decode_snapshot(&bytes).unwrap();
    assert_eq!(decoded.saved_at_unix_ns, 1_000);
    assert_eq!(decoded.node_name, "gateway-a");
    assert_eq!(decoded.config_digest, [9; 32]);
    assert_eq!(decoded.entries[0].key, key);
    assert_eq!(decoded.entries[0].value.last_seen_ns, 0);
    assert_eq!(decoded.entries[0].last_seen_age_ns, 10);
}

#[test]
fn snapshots_that_were_touched_are_refused() {
    let snapshot = Snapshot {
        saved_at_unix_ns: 1_000,
        node_name: "gateway-a".to_string(),
        config_digest: [9; 32],
        entries: vec![],
    };
    let bytes = encode_snapshot(&snapshot).unwrap();
    for i in 0..bytes.len() {
        let mut changed = bytes.clone();
        changed[i] ^= 0x40;
        assert_eq!(
            decode_snapshot(&changed).err(),
            Some(SnapshotError::Checksum)
        );
    }
    assert_eq!(
        decode_snapshot(&bytes[..39]).err(),
        Some(SnapshotError::TooShort)
    );
    assert!(decode_snapshot(&bytes[..bytes.len() - 1]).is_err());
    let long = Snapshot {
        node_name: "x".repeat(65_536),
        ..snapshot
    };
    assert_eq!(
        encode_snapshot(&long).err(),
        Some(SnapshotError::NodeNameTooLong)
    );
}

#[test]
fn snapshot_collection_requires_complete_flow_pair() {
    let (forward, value) = flow_entry(40000, 90);
    assert!(
        collect_snapshot_pairs(ORDER, &[flow(forward, value)], 100, &settings(5)).is_empty(),
        "single-sided NAT state must not be persisted"
    );
    let reverse = forward.reverse_for(ORDER, value);
    let pairs = collect_snapshot_pairs(
        ORDER,
        &[flow(forward, value), flow(reverse, value)],
        100,
        &settings(5),
    );
    assert_eq!(pairs.len(), 1);
    assert_eq!(pairs[0].forward_key, forward);
    assert_eq!(pairs[0].reverse_key, reverse);
    assert_eq!(pairs[0].last_seen_age_ns, 10);
}

#[test]
fn expired_and_nearly_expired_flows_are_not_snapshotted() {
    let (forward, value) = flow_entry(40000, 1);
    let reverse = forward.reverse_for(ORDER, value);
    let now = 236 * 1_000_000_000;
    assert!(collect_snapshot_pairs(
        ORDER,
        &[flow(forward, value), flow(reverse, value)],
        now,
        &settings(5)
    )
    .is_empty());
}

#[test]
fn the_flows_seen_last_are_kept_where_there_are_too_many() {
    let mut flows = Vec::new();
    for (port, seen) in [(40000, 10), (40001, 30), (40002, 20)] {
        let (forward, value) = flow_entry(port, seen);
        flows.push(flow(forward, value));
        flows.push(flow(forward.reverse_for(ORDER, value), value));
    }
    let mut few = settings(0);
    few.max_records = 2;
    let pairs = collect_snapshot_pairs(ORDER, &flows, 100, &few);
    let ages: Vec<u64> = pairs.iter().map(|pair| pair.last_seen_age_ns).collect();
    assert_eq!(ages, vec![70, 80]);
    assert_eq!(snapshot_entries_from_pairs(&pairs).len(), 4);
}

#[test]
fn elapsed_wall_time_ages_snapshot_records() {
    assert_eq!(unix_elapsed_ns(100, 90), 0);
    assert_eq!(unix_elapsed_ns(100, 175), 75);
    assert!(flow_age_expired(240_000_000_000, 240));
    assert!(!flow_age_expired(239_999_999_999, 240));
}

#[test]
fn times_do_not_overflow() {
    assert_eq!(secs_to_ns(3), 3 * SECOND);
    assert_eq!(secs_to_ns(u64::MAX), u64::MAX);
    assert_eq!(unix_ns(1, 5), SECOND + 5);
    assert_eq!(unix_ns(u64::MAX, 5), u64::MAX);
    assert_eq!(remaining_ttl_ns(1, 0), None);
    assert_eq!(remaining_ttl_ns(SECOND, 3), Some(2 * SECOND));
    assert_eq!(remaining_ttl_ns(9 * SECOND, 3), Some(0));
    assert_eq!(flow_age(5, 3), 0);
    assert_eq!(flow_age(3, 5), 2);
    assert!(!flow_age_expired(u64::MAX, 0));
}

fn target(a: u8, b: u8, c: u8, d: u8) -> NativeTarget {
    NativeTarget {
        address: addr(a, b, c, d),
        port: 5060,
        weight: 1,
        state: NativeTargetState::default(),
    }
}

fn assignment(protocol: NativeProtocol, targets: Vec<NativeTarget>) -> ListenerAssignment {
    ListenerAssignment {
        listener_id: 7,
        listener: NativeListener {
            name: "sip".to_string(),
            target_group: "sip-targets".to_string(),
            key: NativeListenerKey {
                vip_ip: addr(192, 0, 2, 10),
                vip_port: 5060,
                protocol,
            },
            select: 0,
            inactive_timeout_secs: 240,
            dscp: 46,
            targets,
        },
    }
}

#[test]
fn restore_remaps_target_id_from_current_endpoint_order() {
    let (forward, value) = flow_entry(40000, 90);
    let listeners = [assignment(
        NativeProtocol::Udp,
        vec![target(192, 0, 2, 21), target(192, 0, 2, 20)],
    )];

    let remapped = remap_value(ORDER, &listeners, forward, value, 10, 1_000).unwrap();
    assert_eq!(remapped.target_id, 1);
    assert_eq!(remapped.target, addr(192, 0, 2, 20));
    assert_eq!(remapped.last_seen_ns, 990);
}

#[test]
fn restore_remaps_cross_gateway_target_address_by_target_id() {
    let (forward, mut value) = flow_entry(40000, 90);
    value.target_id = 1;
    value.target = addr(10, 255, 15, 3);
    let listeners = [assignment(
        NativeProtocol::Udp,
        vec![target(10, 255, 16, 2), target(10, 255, 16, 3)],
    )];

    let remapped = remap_value(ORDER, &listeners, forward, value, 10, 1_000).unwrap();
    assert_eq!(remapped.target_id, 1);
    assert_eq!(remapped.target, addr(10, 255, 16, 3));
    assert_eq!(remapped.target_port, 5060);
}

#[test]
fn restore_rejects_protocol_mismatch_even_when_listener_id_matches() {
    let (forward, value) = flow_entry(40000, 90);
    let listeners = [assignment(
        NativeProtocol::Tcp,
        vec![target(192, 0, 2, 20)],
    )];

    assert!(remap_value(ORDER, &listeners, forward, value, 10, 1_000).is_none());
}

#[test]
fn restore_can_remap_listener_id_from_socket_identity() {
    let (forward, mut value) = flow_entry(40000, 90);
    value.listener_id = 99;
    let listeners = [assignment(
        NativeProtocol::Udp,
        vec![target(192, 0, 2, 20)],
    )];

    let remapped = remap_value(ORDER, &listeners, forward, value, 10, 1_000).unwrap();
    assert_eq!(remapped.listener_id, 7);
    assert_eq!(remapped.target_id, 0);
}

#[test]
fn a_file_is_written_and_restored() {
    let (forward, value) = flow_entry(40000, 90);
    let reverse = forward.reverse_for(ORDER, value);
    let listeners = [assignment(
        NativeProtocol::Udp,
        vec![target(192, 0, 2, 20)],
    )];
    let flows = [flow(forward, value), flow(reverse, value)];
    let mut status = FlowPersistenceStatus::new();
    let step = write_snapshot(
        &mut status,
        ORDER,
        &settings(5),
        &flows,
        100,
        &listeners,
        "gateway-a",
        1_000,
        false,
    )
    .unwrap();
    let bytes = match step {
        SnapshotStep::Write { records, bytes } => {
            assert_eq!(records, 1);
            bytes
        }
        other => panic!("unexpected step {other:?}"),
    };
    let snapshot = decode_snapshot(&bytes).unwrap();
    assert_eq!(snapshot.config_digest, config_digest(&listeners));
    let plan = restore_snapshot(ORDER, &snapshot, &listeners, 1_005, 5_000);
    assert_eq!(plan.summary.restored_pairs, 1);
    assert_eq!(plan.entries.len(), 2);
    assert_eq!(plan.entries[0].value.last_seen_ns, 5_000 - 15);
    let late = restore_snapshot(ORDER, &snapshot, &listeners, 1_000 + 240 * SECOND, 5_000);
    assert_eq!(late.summary.skipped_expired, 1);
    assert!(late.entries.is_empty());
    let other = restore_snapshot(ORDER, &snapshot, &[], 1_005, 5_000);
    assert_eq!(other.summary.skipped_config, 1);
    let mut half = decode_snapshot(&bytes).unwrap();
    half.entries.truncate(1);
    let incomplete = restore_snapshot(ORDER, &half, &listeners, 1_005, 5_000);
    assert_eq!(incomplete.summary.skipped_incomplete, 1);
}

#[test]
fn nothing_is_written_where_there_is_nothing_to_keep() {
    let mut off = settings(5);
    off.enabled = false;
    let mut status = FlowPersistenceStatus::new();
    let mut step = |settings: &FlowPersistenceSettings, present: bool| {
        let step = write_snapshot(
            &mut status,
            ORDER,
            settings,
            &[],
            100,
            &[],
            "gateway-a",
            1_000,
            present,
        )
        .unwrap();
        (step, status.enabled)
    };
    assert!(matches!(
        step(&settings(5), true),
        (SnapshotStep::Keep, true)
    ));
    assert!(matches!(step(&off, true), (SnapshotStep::Disabled, false)));
}

#[test]
fn the_status_says_whether_keeping_flows_is_on() {
    let mut status = FlowPersistenceStatus::new();
    status.record_snapshot_error();
    let mut some = settings(5);
    some.interval_secs = 1;
    assert_eq!(spawn_worker(&mut status, &some), Some(5));
    assert!(status.enabled);
    assert_eq!(spawn_worker(&mut status, &settings(5)), Some(30));
    some.enabled = false;
    assert_eq!(spawn_worker(&mut status, &some), None);
    assert!(!status.enabled);
    status.record_settings(&settings(5));
    assert!(status.enabled);
    assert_eq!(status.snapshot_errors_total, 1);
}

#[test]
fn digests_of_configurations_tell_them_apart() {
    let one = [assignment(
        NativeProtocol::Udp,
        vec![target(192, 0, 2, 20)],
    )];
    let other = [assignment(
        NativeProtocol::Tcp,
        vec![target(192, 0, 2, 20)],
    )];
    assert_eq!(config_digest(&one), config_digest(&one));
    assert_ne!(config_digest(&one), config_digest(&other));
    assert_eq!(
        config_digest(&[])[..4],
        [0xe3, 0xb0, 0xc4, 0x42],
        "the digest of nothing is that of no bytes"
    );
}

#[test]
fn the_two_directions_of_a_flow_belong_together() {
    let (forward, value) = flow_entry(40000, 90);
    let reverse = forward.reverse_for(ORDER, value);
    assert_eq!(reverse.forward_for(value), forward);
    assert_eq!(
        forward_reverse_keys(ORDER, reverse, value),
        forward_reverse_keys(ORDER, forward, value)
    );
    assert_eq!(
        canonical_flow_pair(ORDER, forward, value),
        canonical_flow_pair(ORDER, reverse, value)
    );
    let entry = |key: FlowKey| SnapshotEntry {
        key,
        value,
        last_seen_age_ns: 1,
    };
    let entries = [entry(forward), entry(reverse)];
    assert!(pair_from_entries(ORDER, forward, reverse, &entries).is_some());
    assert!(pair_from_entries(ORDER, forward, forward, &entries).is_none());
    assert_eq!(collect_restore_pairs(ORDER, &entries).len(), 1);
    assert_eq!(collect_restore_pairs(ORDER, &entries[..1]), vec![None]);
}

#[test]
fn flows_are_restored_by_the_active_gateway_when_it_can() {
    let mut status = FlowPersistenceStatus::new();
    let on = settings(5);
    let mut ask = |settings: &FlowPersistenceSettings, active, present, listeners| {
        restore_on_start(&mut status, settings, active, present, listeners)
    };
    assert_eq!(ask(&on, true, true, 1), RestoreStep::Restore);
    assert_eq!(ask(&on, false, true, 1), RestoreStep::Standby);
    assert_eq!(ask(&on, true, false, 1), RestoreStep::NoSnapshot);
    assert_eq!(ask(&on, true, true, 0), RestoreStep::NoTargets);
    let mut off = settings(5);
    off.restore_on_start = false;
    assert_eq!(ask(&off, true, true, 1), RestoreStep::Disabled);
    assert!(status.enabled);
    assert!(flush_on_shutdown(&settings(5)));
    off.flush_on_shutdown = false;
    assert!(!flush_on_shutdown(&off));
    off.interval_secs = 1;
    assert_eq!(snapshot_interval_secs(&off), 5);
    assert_eq!(snapshot_interval_secs(&settings(5)), 30);
}

#[test]
fn what_keeping_flows_came_to_is_counted() {
    let mut status = FlowPersistenceStatus::new();
    status.record_snapshot(&SnapshotSummary {
        records: 4,
        bytes: 99,
        duration_ms: 3,
    });
    status.record_snapshot_error();
    status.record_restore(&RestoreSummary {
        restored_pairs: 2,
        skipped_expired: 3,
        skipped_config: 4,
        skipped_incomplete: 5,
        duration_ms: 6,
    });
    status.record_restore_error();
    let shown = status.status();
    assert_eq!(shown.snapshot_records, 4);
    assert_eq!(shown.snapshot_errors_total, 1);
    assert_eq!(shown.restore_records_total, 2);
    assert_eq!(shown.restore_skipped_incomplete_total, 5);
    assert_eq!(shown.restore_errors_total, 1);
}

#[test]
fn a_gateway_is_active_by_name_or_address_or_when_none_is_known() {
    let gateway = Some(GatewayNode {
        name: "gateway-a".to_string(),
        public_ip: IpAddr::V4(1),
        underlay_ip: IpAddr::V4(2),
        overlay_ip: "10.0.0.1/24".to_string(),
    });
    assert!(is_active_gateway(&gateway, "gateway-a", IpAddr::V4(9)));
    assert!(is_active_gateway(&gateway, "gateway-b", IpAddr::V4(2)));
    assert!(!is_active_gateway(&gateway, "gateway-b", IpAddr::V4(9)));
    assert!(is_active_gateway(&None, "gateway-b", IpAddr::V4(9)));
}
