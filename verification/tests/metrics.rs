use edge_lb::config::MetricsConfig;
use edge_lb::metrics::gateway::{
    render_flow_persistence_metrics, render_gateway, render_redirect_metrics,
    render_return_redirect_metrics, BucketDigest, DscpStats, GatewayState, HostFigures,
    NativeDatapathStats, NodeIdentity,
};
use edge_lb::metrics::host::{
    parse_boot_time, parse_cpu_cores, parse_meminfo, parse_process_stat, parse_process_status,
};
use edge_lb::metrics::sample::{push_escaped_label, render_samples, Label, MetricKind, Sample};
use edge_lb::metrics::server::{handle_request, metrics_gate, MetricsGate, MetricsReply};
use edge_lb::native::flow_persistence::FlowPersistenceStatus;
use edge_lb::net::IpAddr;
use edge_lb::redirect::stats::{NativeRedirectStats, ReturnRedirectStats};

#[test]
fn unavailable_redirect_stats_do_not_fabricate_counters() {
    let out = render_redirect_metrics(None);
    assert!(out.contains("edge_lb_gateway_native_redirect_stats_available 0\n"));
    assert!(!out.contains("_total"));
}

#[test]
fn return_redirect_metrics_have_bounded_reasons_and_no_fabricated_counters() {
    let out = render_return_redirect_metrics(None);
    assert!(out.contains("edge_lb_gateway_native_return_redirect_stats_available 0\n"));
    assert!(!out.contains("_total"));
    let out = render_return_redirect_metrics(Some(ReturnRedirectStats {
        submitted: 9,
        neighbor: 3,
        mutation_error: 1,
        ..Default::default()
    }));
    assert!(out.contains("edge_lb_gateway_native_return_redirect_submitted_total 9\n"));
    assert!(out.contains(
        "edge_lb_gateway_native_return_redirect_fallback_total{reason=\"neighbor\"} 3\n"
    ));
    assert!(out.contains("edge_lb_gateway_native_return_redirect_mutation_error_total 1\n"));
    assert_eq!(
        out.matches("# TYPE edge_lb_gateway_native_return_redirect_fallback_total counter\n")
            .count(),
        1
    );
    assert_eq!(
        out.lines()
            .filter(|l| l.starts_with("edge_lb_gateway_native_return_redirect_fallback_total{"))
            .count(),
        7
    );
}

#[test]
fn redirect_stats_have_fixed_reasons_and_one_type_declaration() {
    let out = render_redirect_metrics(Some(NativeRedirectStats {
        submitted: 10,
        route_miss: 11,
        mutation_error: 2,
        ..Default::default()
    }));
    assert!(out.contains("edge_lb_gateway_native_redirect_stats_available 1\n"));
    assert!(out.contains("edge_lb_gateway_native_redirect_submitted_total 10\n"));
    assert!(out.contains("edge_lb_gateway_native_redirect_mutation_error_total 2\n"));
    assert!(out
        .contains("edge_lb_gateway_native_redirect_fallback_total{reason=\"route_miss\"} 11\n"));
    assert_eq!(
        out.matches("# TYPE edge_lb_gateway_native_redirect_fallback_total counter\n")
            .count(),
        1
    );
    assert_eq!(
        out.lines()
            .filter(|line| line.starts_with("edge_lb_gateway_native_redirect_fallback_total{"))
            .count(),
        7
    );
}

#[test]
fn labels_are_escaped_for_prometheus_text() {
    let out = render_samples(&[Sample {
        name: "edge_lb_test",
        labels: vec![Label {
            key: "node",
            value: "gw\"a\\b\nc".to_string(),
        }],
        value: "1".to_string(),
        kind: Some(MetricKind::Gauge),
    }]);
    assert!(out.contains("node=\"gw\\\"a\\\\b\\nc\""));
    let mut label = String::new();
    push_escaped_label(&mut label, "a\"b");
    assert_eq!(label, "a\\\"b");
}

#[test]
fn figures_are_written_in_the_text_format() {
    let out = render_samples(&[
        Sample {
            name: "a_total",
            labels: vec![
                Label {
                    key: "x",
                    value: "1".to_string(),
                },
                Label {
                    key: "y",
                    value: "2".to_string(),
                },
            ],
            value: "7".to_string(),
            kind: Some(MetricKind::Counter),
        },
        Sample {
            name: "b",
            labels: vec![],
            value: "0".to_string(),
            kind: None,
        },
    ]);
    assert_eq!(
        out,
        "# TYPE a_total counter\na_total{x=\"1\",y=\"2\"} 7\nb 0\n"
    );
}

#[test]
fn process_stat_parser_reads_cpu_and_start_time() {
    let ticks = parse_process_stat(
        "123 (edge lb) S 1 2 3 4 5 6 7 8 9 10 200 300 14 15 16 17 18 19 4000 21",
    )
    .unwrap();
    assert_eq!((ticks.user as f64 + ticks.system as f64) / 100.0, 5.0);
    assert_eq!(
        1_700_000_000.0 + ticks.start as f64 / 100.0,
        1_700_000_040.0
    );
}

#[test]
fn process_stat_counts_behind_the_last_bracket() {
    let fields = "S 1 2 3 4 5 6 7 8 9 10 1 2 14 15 16 17 18 19 3";
    let text = format!("1 (a) b) {fields}");
    let ticks = parse_process_stat(&text).unwrap();
    assert_eq!((ticks.user, ticks.system, ticks.start), (1, 2, 3));
    assert!(parse_process_stat("1 (a) S 1 2").is_none());
    assert!(parse_process_stat("no bracket").is_none());
}

#[test]
fn process_status_parser_reads_memory_and_threads() {
    let status = parse_process_status(
        "Name:\tedge-lb\nVmSize:\t  1234 kB\nVmRSS:\t    456 kB\nThreads:\t7\n",
    )
    .unwrap();
    assert_eq!(status.virtual_bytes, 1234 * 1024);
    assert_eq!(status.rss_bytes, 456 * 1024);
    assert_eq!(status.threads, 7);
}

#[test]
fn process_status_needs_all_three_figures() {
    assert!(parse_process_status("VmSize:\t1 kB\nVmRSS:\t2 kB\n").is_none());
    assert!(parse_process_status("VmSize: x\nVmRSS: 2 kB\nThreads: 1\n").is_none());
    let last = parse_process_status("VmSize: 1\nVmSize: 2\nVmRSS: 3\nThreads: 1").unwrap();
    assert_eq!(last.virtual_bytes, 2048);
}

#[test]
fn meminfo_parser_reads_total_and_available() {
    let mem = parse_meminfo("MemTotal: 4096 kB\nMemFree: 1 kB\nMemAvailable: 2048 kB\n").unwrap();
    assert_eq!(mem.total_bytes, 4096 * 1024);
    assert_eq!(mem.available_bytes, 2048 * 1024);
}

#[test]
fn meminfo_is_refused_where_a_line_has_no_colon() {
    assert!(parse_meminfo("MemTotal: 1 kB\n\nMemAvailable: 1 kB\n").is_none());
    assert!(parse_meminfo("MemTotal: 1 kB\n").is_none());
    let huge = parse_meminfo("MemTotal: 18446744073709551615\nMemAvailable: 1\n").unwrap();
    assert_eq!(huge.total_bytes, u64::MAX);
}

#[test]
fn cores_and_boot_time_are_read() {
    let stat = "cpu  1 2\ncpu0 1\ncpu1 1\nintr 5\nbtime 1700000000\n";
    assert_eq!(parse_cpu_cores(stat), Some(2));
    assert_eq!(parse_boot_time(stat), 1_700_000_000);
    assert_eq!(parse_cpu_cores("cpu 1\n"), None);
    assert_eq!(parse_boot_time("cpu 1\n"), 0);
    assert_eq!(parse_boot_time("btime x\nbtime 5\n"), 0);
}

fn identity() -> NodeIdentity {
    NodeIdentity {
        node_name: "gw-a".to_string(),
        version: "0.1.0".to_string(),
        underlay_dev: "eth0".to_string(),
        underlay_ip: IpAddr::V4(0xc000_020c),
    }
}

fn no_figures() -> HostFigures {
    HostFigures {
        cpu_seconds: None,
        start_time_seconds: None,
        status: None,
        cpu_cores: None,
        memory: None,
        load1: None,
        load5: None,
        load15: None,
    }
}

#[test]
fn a_backend_shows_who_it_is_and_no_datapath() {
    let out = render_gateway(&identity(), &no_figures(), &None);
    assert_eq!(
        out,
        "# TYPE edge_lb_node_info gauge\nedge_lb_node_info{role=\"gateway\",node=\"gw-a\"} 1\n\
         # TYPE edge_lb_build_info gauge\nedge_lb_build_info{version=\"0.1.0\"} 1\n\
         # TYPE edge_lb_underlay_info gauge\n\
         edge_lb_underlay_info{dev=\"eth0\",underlay=\"192.0.2.12\"} 1\n"
    );
}

#[test]
fn a_gateway_shows_what_could_be_read() {
    let mut figures = no_figures();
    figures.cpu_seconds = Some("5.000000".to_string());
    figures.load5 = Some("0.200000".to_string());
    figures.cpu_cores = Some(4);
    figures.memory = parse_meminfo("MemTotal: 4 kB\nMemAvailable: 1 kB\n");
    figures.status = parse_process_status("VmSize: 1\nVmRSS: 3\nThreads: 2");
    let mut flows = FlowPersistenceStatus::new();
    flows.enabled = true;
    flows.snapshot_duration_ms = 1_234;
    flows.restore_skipped_config_total = 6;
    let state = GatewayState {
        dscp_attached: true,
        native_attached: false,
        flow_map_capacity: 11,
        flow_pair_capacity: 12,
        dscp: Some(DscpStats {
            matched: 13,
            changed: 14,
        }),
        native: Some(NativeDatapathStats {
            listener_hit: 21,
            listener_miss: 22,
            target_miss: 23,
            return_miss: 24,
            rewritten: 25,
            checksum_error: 26,
            chash_bucket_hit: 27,
            chash_bucket_miss: 28,
            chash_bucket_unusable: 29,
            chash_fallback: 30,
            flow_event_lost: 31,
        }),
        redirect: None,
        return_redirect: None,
        digests: Some(vec![BucketDigest {
            listener_name: "web".to_string(),
            listener_id: 3,
            vip: "10.0.0.1".to_string(),
            port: 80,
            protocol: "tcp".to_string(),
            bucket_count: 4099,
            digest: "abc".to_string(),
        }]),
        flows,
    };
    let out = render_gateway(&identity(), &figures, &Some(state));
    for line in [
        "edge_lb_process_cpu_seconds_total 5.000000",
        "edge_lb_process_memory_rss_bytes 3072",
        "edge_lb_process_threads 2",
        "edge_lb_host_cpu_cores 4",
        "edge_lb_host_memory_used_bytes 3072",
        "edge_lb_host_load5 0.200000",
        "edge_lb_gateway_dscp_attached 1",
        "edge_lb_gateway_native_datapath_attached 0",
        "edge_lb_gateway_native_flow_map_capacity 11",
        "edge_lb_gateway_native_flow_pair_capacity 12",
        "edge_lb_gateway_dscp_packets_matched_total 13",
        "edge_lb_gateway_dscp_packets_changed_total 14",
        "edge_lb_gateway_native_listener_hit_total 21",
        "edge_lb_gateway_native_consistent_hash_fallback_total 30",
        "edge_lb_gateway_native_flow_event_lost_total 31",
        "edge_lb_gateway_native_consistent_hash_bucket_table_info{listener=\"web\",\
         listener_id=\"3\",vip=\"10.0.0.1\",port=\"80\",protocol=\"tcp\",\
         bucket_count=\"4099\",digest=\"abc\"} 1",
        "edge_lb_gateway_native_flow_persistence_enabled 1",
        "edge_lb_gateway_native_flow_snapshot_duration_seconds 1.234000",
        "edge_lb_gateway_native_flow_restore_skipped_total{reason=\"config\"} 6",
    ] {
        assert!(
            out.lines().any(|shown| shown == line),
            "{line} is missing in\n{out}"
        );
    }
    assert!(!out.contains("edge_lb_host_load1 "));
    assert!(!out.contains("start_time"));
}

#[test]
fn durations_are_written_with_six_digits() {
    for ms in [0u64, 1, 9, 10, 99, 100, 999, 1000, 1001, 59_999, 86_400_123] {
        let mut flows = FlowPersistenceStatus::new();
        flows.restore_duration_ms = ms;
        let expected = format!(
            "edge_lb_gateway_native_flow_restore_duration_seconds {:.6}\n",
            ms as f64 / 1000.0
        );
        assert!(render_flow_persistence_metrics(&flows).contains(&expected));
    }
}

fn trusted() -> Vec<String> {
    vec!["10.0.0.0/8".to_string()]
}

fn refused(url: &str, is_get: bool, source: Option<IpAddr>, cidrs: &[String]) -> (u16, String) {
    match handle_request(url, is_get, source, cidrs) {
        MetricsReply::Refused { status, text } => (status, text),
        MetricsReply::Figures => panic!("figures went out"),
    }
}

#[test]
fn figures_go_to_trusted_sources_only() {
    let inside = Some(IpAddr::V4(0x0a00_0001));
    let outside = Some(IpAddr::V4(0x0b00_0001));
    assert!(matches!(
        handle_request("/metrics?x=1", true, inside, &trusted()),
        MetricsReply::Figures
    ));
    assert_eq!(
        refused("/metrics/", true, inside, &trusted()),
        (404, "not found\n".to_string())
    );
    assert_eq!(
        refused("/metrics", false, inside, &trusted()),
        (405, "method not allowed\n".to_string())
    );
    assert_eq!(
        refused("/metrics", true, None, &trusted()),
        (403, "missing remote address\n".to_string())
    );
    assert_eq!(
        refused("/metrics", true, outside, &trusted()),
        (403, "untrusted source 11.0.0.1\n".to_string())
    );
    assert_eq!(
        refused("/metrics", true, inside, &["bad".to_string()]),
        (403, "untrusted source 10.0.0.1\n".to_string())
    );
}

#[test]
fn figures_are_served_where_the_configuration_says() {
    let config = |enabled: bool, listen: &str| {
        Some(MetricsConfig {
            enabled,
            listen: listen.to_string(),
            trusted_source_cidrs: vec![],
        })
    };
    assert_eq!(metrics_gate(&None), MetricsGate::Disabled);
    assert_eq!(
        metrics_gate(&config(false, "127.0.0.1:9100")),
        MetricsGate::Disabled
    );
    assert_eq!(
        metrics_gate(&config(true, "127.0.0.1:9100")),
        MetricsGate::Serve {
            ip: IpAddr::V4(0x7f00_0001),
            port: 9100
        }
    );
    assert_eq!(
        metrics_gate(&config(true, "localhost:9100")),
        MetricsGate::BadListenAddress
    );
}
