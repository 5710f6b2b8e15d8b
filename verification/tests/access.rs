use edge_lb::access::{
    api_trusted_source_cidrs, ip_in_cidr, metrics_trusted_source_cidrs, source_allowed,
    underlay_device_cidr, AccessFault, CidrError,
};
use edge_lb::config::MetricsConfig;
use edge_lb::net::{parse_ip, IpAddr};

fn ip(text: &str) -> IpAddr {
    let chars: Vec<char> = text.chars().collect();
    parse_ip(&chars).expect("an address")
}

#[test]
fn cidr_matches_ipv4_boundaries() {
    assert!(ip_in_cidr(ip("192.168.0.12"), "192.168.0.0/24").unwrap());
    assert!(!ip_in_cidr(ip("192.168.1.12"), "192.168.0.0/24").unwrap());
    assert!(ip_in_cidr(ip("10.1.2.3"), "0.0.0.0/0").unwrap());
    assert!(ip_in_cidr(ip("10.1.2.3"), "10.1.2.3/32").unwrap());
}

#[test]
fn cidr_matches_ipv6_boundaries() {
    assert!(ip_in_cidr(ip("2001:db8::1"), "2001:db8::/64").unwrap());
    assert!(!ip_in_cidr(ip("2001:db9::1"), "2001:db8::/64").unwrap());
    assert!(ip_in_cidr(ip("2001:db8::1"), "::/0").unwrap());
}

#[test]
fn mixed_ip_families_do_not_match() {
    assert!(!ip_in_cidr(ip("192.168.0.12"), "2001:db8::/64").unwrap());
}

#[test]
fn source_allowed_accepts_any_matching_cidr() {
    let cidrs = vec!["10.0.0.0/8".to_string(), "192.168.0.0/24".to_string()];
    assert!(source_allowed(ip("192.168.0.12"), &cidrs).unwrap());
    assert!(!source_allowed(ip("172.16.0.12"), &cidrs).unwrap());
}

#[test]
fn networks_that_cannot_be_read_are_refused() {
    assert_eq!(ip_in_cidr(ip("10.0.0.1"), "10.0.0.0"), Err(CidrError::NoPrefix));
    assert_eq!(
        ip_in_cidr(ip("10.0.0.1"), "10.0.0/8"),
        Err(CidrError::BadAddress)
    );
    assert_eq!(
        ip_in_cidr(ip("10.0.0.1"), "10.0.0.0/x"),
        Err(CidrError::BadPrefix)
    );
    let cidrs = vec!["10.0.0.0/8".to_string(), "bad".to_string()];
    assert_eq!(source_allowed(ip("10.0.0.1"), &cidrs), Ok(true));
    assert_eq!(
        source_allowed(ip("11.0.0.1"), &cidrs),
        Err(CidrError::NoPrefix)
    );
}

#[test]
fn a_shorter_prefix_holds_more() {
    for prefix in 0..=32u8 {
        let cidr = format!("10.1.2.3/{prefix}");
        assert!(ip_in_cidr(ip("10.1.2.3"), &cidr).unwrap());
        assert_eq!(ip_in_cidr(ip("10.1.2.2"), &cidr).unwrap(), prefix < 32);
        assert_eq!(ip_in_cidr(ip("138.1.2.3"), &cidr).unwrap(), prefix == 0);
    }
}

#[test]
fn trusted_networks_fall_back_to_the_device() {
    let set = vec!["10.0.0.0/8".to_string()];
    let device = Some("192.0.2.0/24".to_string());
    assert_eq!(
        api_trusted_source_cidrs(&set, &device, ip("192.0.2.1")),
        set
    );
    assert_eq!(
        api_trusted_source_cidrs(&[], &device, ip("192.0.2.1")),
        vec!["192.0.2.0/24".to_string()]
    );
    assert_eq!(
        underlay_device_cidr(&device),
        Ok("192.0.2.0/24".to_string())
    );
    assert_eq!(
        underlay_device_cidr(&None),
        Err(AccessFault::NoDeviceNetwork)
    );
    assert_eq!(
        metrics_trusted_source_cidrs(&None, &None),
        Ok(Vec::<String>::new())
    );
    let metrics = |cidrs: Vec<String>| {
        Some(MetricsConfig {
            enabled: true,
            listen: "127.0.0.1:9100".to_string(),
            trusted_source_cidrs: cidrs,
        })
    };
    assert_eq!(
        metrics_trusted_source_cidrs(&metrics(set.clone()), &device),
        Ok(set)
    );
    assert_eq!(
        metrics_trusted_source_cidrs(&metrics(vec![]), &device),
        Ok(vec!["192.0.2.0/24".to_string()])
    );
    assert_eq!(
        metrics_trusted_source_cidrs(&metrics(vec![]), &None),
        Err(AccessFault::NoDeviceNetwork)
    );
}
