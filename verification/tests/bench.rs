use edge_lb::bench::args::{
    parse_args, protocols, ArgError, BenchConfig, BenchRequest, ProtocolArg, TcpConnMode,
    UdpSocketMode,
};
use edge_lb::bench::sample::{
    describe_io_error, extract_private_ipv4, failed_sample, finish_sample, sanitize,
    should_retry_reused_tcp, udp_bind_addr, udp_error, IoFault, Sample,
};
use edge_lb::bench::stats::{percentile_index, BenchStats, Stats};
use edge_lb::config::Protocol;

fn args(list: &[&str]) -> Vec<String> {
    list.iter().map(|arg| arg.to_string()).collect()
}

fn config(list: &[&str]) -> BenchConfig {
    match parse_args(&args(list)) {
        Ok(BenchRequest::Run(cfg)) => cfg,
        other => panic!("arguments should be accepted: {other:?}"),
    }
}

fn refusal(list: &[&str]) -> ArgError {
    parse_args(&args(list)).expect_err("arguments should be refused")
}

#[test]
fn extracts_private_ipv4_from_discovery_body() {
    let body = r#"{"hostname":"node","private_ipv4":"192.168.0.14","client_port":12345}"#;
    assert_eq!(
        extract_private_ipv4(body),
        Some("192.168.0.14".to_string())
    );
}

#[test]
fn private_ipv4_needs_its_key_and_its_closing_quote() {
    assert_eq!(extract_private_ipv4(r#"{"ip":"10.0.0.1"}"#), None);
    assert_eq!(extract_private_ipv4(r#"{"private_ipv4":"10.0.0.1"#), None);
    assert_eq!(
        extract_private_ipv4(r#""private_ipv4":"a","private_ipv4":"b""#),
        Some("a".to_string())
    );
}

#[test]
fn udp_fixed_source_port_rejects_parallel_workers() {
    let err = refusal(&[
        "--protocol",
        "udp",
        "--udp-source-port",
        "12345",
        "--concurrency",
        "2",
    ])
    .message();
    assert!(err.contains("--udp-source-port requires --concurrency 1"));
}

#[test]
fn fixed_source_port_is_fine_for_one_worker_and_for_tcp() {
    let one = config(&["--udp-source-port", "12345", "--concurrency", "1"]);
    assert_eq!(one.udp_source_port, Some(12345));
    let tcp = config(&["--udp-source-port", "12345", "--protocol", "tcp"]);
    assert_eq!(tcp.concurrency, 8);
}

#[test]
fn timeout_errors_are_reported_consistently() {
    assert_eq!(
        describe_io_error(IoFault::WouldBlock, "Resource temporarily unavailable"),
        "timed out"
    );
    assert_eq!(describe_io_error(IoFault::TimedOut, "x"), "timed out");
    assert_eq!(
        describe_io_error(IoFault::Other, "connection refused"),
        "connection refused"
    );
}

#[test]
fn interval_argument_sets_worker_delay() {
    let cfg = config(&["--interval-ms", "10", "--duration", "1"]);
    assert_eq!(cfg.interval_us, Some(10_000));
    assert_eq!(cfg.duration_secs, 1);
}

#[test]
fn udp_socket_reuse_is_default_and_can_be_overridden() {
    let default_cfg = config(&[]);
    assert_eq!(default_cfg.udp_socket_mode, UdpSocketMode::ReusePerWorker);

    let new_socket_cfg = config(&["--udp-new-socket-per-request"]);
    assert_eq!(
        new_socket_cfg.udp_socket_mode,
        UdpSocketMode::NewPerRequest
    );
}

#[test]
fn tcp_connection_reuse_is_opt_in() {
    let default_cfg = config(&[]);
    assert_eq!(default_cfg.tcp_conn_mode, TcpConnMode::NewPerRequest);

    let reuse_cfg = config(&["--tcp-reuse-conn"]);
    assert_eq!(reuse_cfg.tcp_conn_mode, TcpConnMode::ReusePerWorker);
}

#[test]
fn default_options_are_those_of_the_lab() {
    let cfg = config(&[]);
    assert_eq!(cfg.target, "192.168.0.6");
    assert_eq!(cfg.port, 8080);
    assert_eq!(cfg.protocol, ProtocolArg::Both);
    assert_eq!(cfg.duration_secs, 60);
    assert_eq!(cfg.concurrency, 8);
    assert_eq!(cfg.payload, "discover\n");
    assert_eq!(cfg.timeout_ms, 1000);
    assert_eq!(cfg.expect, "\"private_ipv4\"");
    assert_eq!(cfg.out, None);
    assert_eq!(
        cfg.summary(),
        "target=192.168.0.6:8080 protocol=both duration=60s concurrency=8 interval=none \
         tcp_conn_mode=new-per-request udp_socket_mode=reuse-per-worker payload=discover"
    );
}

#[test]
fn every_option_with_a_value_is_read() {
    let cfg = config(&[
        "--vip",
        "10.0.0.9",
        "--port",
        "9",
        "--protocol",
        "tcp",
        "--concurrency",
        "+3",
        "--payload",
        "hi",
        "--timeout-ms",
        "7",
        "--expect",
        "ok",
        "--out",
        "/tmp/raw.tsv",
        "--interval-us",
        "18446744073709551615",
    ]);
    assert_eq!(cfg.target, "10.0.0.9");
    assert_eq!(cfg.port, 9);
    assert_eq!(cfg.protocol, ProtocolArg::Tcp);
    assert_eq!(cfg.concurrency, 3);
    assert_eq!(cfg.payload, "hi\n");
    assert_eq!(cfg.timeout_ms, 7);
    assert_eq!(cfg.expect, "ok");
    assert_eq!(cfg.out, Some("/tmp/raw.tsv".to_string()));
    assert_eq!(cfg.interval_us, Some(18446744073709551615));
    assert!(cfg.summary().contains("interval=18446744073709551615us"));
    assert_eq!(config(&["--payload", "x\n"]).payload, "x\n");
    assert!(config(&["--interval-ms", "18446744073709551615"])
        .summary()
        .contains("interval=18446744073709551615000us"));
}

#[test]
fn refused_arguments_say_why() {
    assert_eq!(
        refusal(&["--bogus"]).message(),
        "unknown argument: --bogus"
    );
    assert_eq!(refusal(&["--port"]).message(), "--port requires a value");
    assert_eq!(
        refusal(&["--port", "0"]).message(),
        "--port must be in range 1..=65535"
    );
    assert_eq!(
        refusal(&["--udp-source-port", "65536"]).message(),
        "--udp-source-port must be in range 1..=65535"
    );
    assert_eq!(
        refusal(&["--protocol", "sctp"]).message(),
        "--protocol must be tcp, udp, or both"
    );
    assert_eq!(
        refusal(&["--duration", "0"]).message(),
        "--duration must be positive"
    );
    assert_eq!(
        refusal(&["--concurrency", "-1"]).message(),
        "--concurrency must be positive"
    );
    assert!(matches!(
        parse_args(&args(&["--help", "--bogus"])),
        Ok(BenchRequest::Help)
    ));
}

#[test]
fn protocols_are_tested_one_by_one() {
    assert_eq!(protocols(ProtocolArg::Tcp), vec![Protocol::Tcp]);
    assert_eq!(protocols(ProtocolArg::Udp), vec![Protocol::Udp]);
    assert_eq!(
        protocols(ProtocolArg::Both),
        vec![Protocol::Tcp, Protocol::Udp]
    );
}

fn sample(port: u16, ok: bool, latency_us: u128) -> Sample {
    Sample {
        ts_ms: 0,
        protocol: Protocol::Udp,
        source_port: Some(port),
        ok,
        latency_us,
        backend: "192.168.0.13".to_string(),
        error: "late".to_string(),
    }
}

#[test]
fn stats_count_unique_source_ports() {
    let mut stats = BenchStats::new();
    let mut sample = Sample {
        ts_ms: 0,
        protocol: Protocol::Udp,
        source_port: Some(40000),
        ok: true,
        latency_us: 10,
        backend: "192.168.0.13".to_string(),
        error: String::new(),
    };

    stats.record_sample(&sample);
    stats.record_sample(&sample);
    sample.source_port = Some(40001);
    stats.record_sample(&sample);

    let udp = stats.get(Protocol::Udp).expect("udp stats should exist");
    assert_eq!(udp.total, 3);
    assert_eq!(udp.source_ports.len(), 2);
    assert!(stats.get(Protocol::Tcp).is_none());
}

#[test]
fn figures_of_workers_add_up() {
    let mut a = BenchStats::new();
    a.record_sample(&sample(7, true, 30));
    a.record_sample(&sample(5, false, 10));
    let mut b = BenchStats::new();
    b.record_sample(&sample(5, true, 20));
    a.merge_stats(&b);
    a.merge_stats(&BenchStats::new());
    let udp = a.get(Protocol::Udp).expect("udp stats should exist");
    assert_eq!((udp.total, udp.ok, udp.fail), (3, 2, 1));
    assert_eq!(udp.source_ports, vec![5, 7]);
    assert_eq!(udp.latencies_us, vec![30, 10, 20]);
    assert_eq!(udp.sorted_latencies(), vec![10, 20, 30]);
    assert_eq!(udp.backends.len(), 1);
    assert_eq!(udp.backends[0].count, 2);
    assert_eq!(udp.errors[0].name, "late");
    assert_eq!(udp.errors[0].count, 1);
}

#[test]
fn counts_are_listed_by_name() {
    let mut stats = Stats::default();
    for backend in ["b", "a", "c", "a"] {
        let mut one = sample(1, true, 1);
        one.backend = backend.to_string();
        stats.record(&one);
    }
    let listed: Vec<(String, u64)> = stats
        .backends
        .iter()
        .map(|count| (count.name.clone(), count.count))
        .collect();
    assert_eq!(
        listed,
        vec![
            ("a".to_string(), 2),
            ("b".to_string(), 1),
            ("c".to_string(), 1)
        ]
    );
}

#[test]
fn percentiles_round_half_up() {
    for len in 1usize..400 {
        for percent in [50u8, 95, 99] {
            let expected = ((len as f64 - 1.0) * percent as f64 / 100.0).round() as usize;
            assert_eq!(percentile_index(len, percent), expected);
        }
    }
}

#[test]
fn reused_tcp_retries_closed_connection_once() {
    assert!(should_retry_reused_tcp(true, &[]));
    assert!(!should_retry_reused_tcp(false, b"ok"));
    assert!(should_retry_reused_tcp(false, &[]));
}

#[test]
fn a_reply_passes_when_it_holds_what_is_expected() {
    let body = br#"{"private_ipv4":"10.0.0.4"}"#;
    let passed = finish_sample(
        5,
        Protocol::Tcp,
        17,
        Some(9),
        body,
        "",
        "\"private_ipv4\"",
    );
    assert!(passed.ok);
    assert_eq!(passed.backend, "10.0.0.4");
    assert_eq!(passed.error, "");
    assert_eq!(passed.latency_us, 17);

    let wrong = finish_sample(5, Protocol::Tcp, 1, None, b" a\tb\r\nc ", "", "zzz");
    assert!(!wrong.ok);
    assert_eq!(wrong.error, "a b  c");
    assert_eq!(wrong.backend, "-");

    let silent = finish_sample(5, Protocol::Udp, 1, None, b"", "timed out\n", "");
    assert!(!silent.ok);
    assert_eq!(silent.error, "timed out");

    let broken = finish_sample(5, Protocol::Udp, 1, None, &[0xff, b'x'], "", "zzz");
    assert_eq!(broken.error, "\u{fffd}x");
}

#[test]
fn failures_are_named() {
    assert_eq!(sanitize("  a\nb  "), "a b");
    assert_eq!(udp_error("timed out", true, 3, 4), "timed out; worker=3 seq=4");
    assert_eq!(udp_error("timed out", false, 3, 4), "timed out");
    assert_eq!(udp_bind_addr(false, Some(53)), "0.0.0.0:53");
    assert_eq!(udp_bind_addr(false, None), "0.0.0.0:0");
    assert_eq!(udp_bind_addr(true, None), "[::]:0");
    let failed = failed_sample(1, Protocol::Udp, "no socket".to_string());
    assert!(!failed.ok);
    assert_eq!(failed.backend, "-");
    assert_eq!(failed.error, "no socket");
}
