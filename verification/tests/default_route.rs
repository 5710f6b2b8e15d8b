use edge_lb::default_route::{
    default_interface, first_non_loopback_ipv4_interface, parse_linux_proc_net_route,
    InterfaceAddress,
};
use edge_lb::net::IpAddr;

#[test]
fn linux_route_prefers_lowest_metric_default() {
    let data = "\
Iface\tDestination\tGateway\tFlags\tRefCnt\tUse\tMetric\tMask\tMTU\tWindow\tIRTT
enp3s0\t00000000\t0104010A\t0003\t0\t0\t100\t00000000\t0\t0\t0
wlan0\t00000000\t0104010A\t0003\t0\t0\t600\t00000000\t0\t0\t0
docker0\t0000AC1A\t00000000\t0001\t0\t0\t0\tFFFF0000\t0\t0\t0
enp3s0\t000010AC\t00000000\t0001\t0\t0\t0\tFFFF0000\t0\t0\t0
";
    assert_eq!(parse_linux_proc_net_route(data), Some("enp3s0".to_string()));

    let data2 = "\
Iface\tDestination\tGateway\tFlags\tRefCnt\tUse\tMetric\tMask\tMTU\tWindow\tIRTT
wlan0\t00000000\t0104010A\t0003\t0\t0\t600\t00000000\t0\t0\t0
enp3s0\t00000000\t0104010A\t0003\t0\t0\t100\t00000000\t0\t0\t0
";
    assert_eq!(
        parse_linux_proc_net_route(data2),
        Some("enp3s0".to_string())
    );

    let none = "\
Iface\tDestination\tGateway\tFlags\tRefCnt\tUse\tMetric\tMask\tMTU\tWindow\tIRTT
docker0\t0000AC1A\t00000000\t0001\t0\t0\t0\tFFFF0000\t0\t0\t0
";
    assert_eq!(parse_linux_proc_net_route(none), None);
}

#[test]
fn linux_route_metric_is_decimal() {
    let data = "\
Iface\tDestination\tGateway\tFlags\tRefCnt\tUse\tMetric\tMask\tMTU\tWindow\tIRTT
eth9\t00000000\t0104010A\t0003\t0\t0\t0x10\t00000000\t0\t0\t0
eth0\t00000000\t0104010A\t0003\t0\t0\t20\t00000000\t0\t0\t0
";
    assert_eq!(parse_linux_proc_net_route(data), Some("eth0".to_string()));
}

#[test]
fn the_first_of_equal_metrics_wins_and_short_lines_do_not_count() {
    let data = "heading\n\
a\t00000000\t0\t0\t0\t0\t5\n\
b\t00000000\t0\t0\t0\t0\t5\t0\n\
c\t00000000\t0\t0\t0\t0\t5\t0\n";
    assert_eq!(parse_linux_proc_net_route(data), Some("b".to_string()));
    assert_eq!(
        default_interface(&Some(data.to_string())),
        Some("b".to_string())
    );
    assert_eq!(default_interface(&None), None);
    assert_eq!(parse_linux_proc_net_route(""), None);
    assert_eq!(
        parse_linux_proc_net_route("b\t00000000\t0\t0\t0\t0\t5\t0\n"),
        None
    );
}

#[test]
fn without_a_table_the_first_usable_device_is_taken() {
    let address = |name: &str, ip: IpAddr, is_loopback: bool| InterfaceAddress {
        name: name.to_string(),
        ip,
        is_loopback,
    };
    let addresses = [
        address("lo", IpAddr::V4(0x7f00_0001), true),
        address("eth0", IpAddr::V6(1), false),
        address("eth1", IpAddr::V4(0), false),
        address("eth2", IpAddr::V4(0x0a00_0001), false),
        address("eth3", IpAddr::V4(0x0a00_0002), false),
    ];
    assert_eq!(
        first_non_loopback_ipv4_interface(&addresses).as_deref(),
        Some("eth2")
    );
    assert_eq!(first_non_loopback_ipv4_interface(&addresses[..3]), None);
}
