use edge_lb::bfd::election::{election_event, ElectionOutcome, ElectionStep};
use edge_lb::bfd::engine::Severity;
use edge_lb::bytes::{align, push_be, push_host, push_le, read_be, read_host, read_i32, read_le, ByteOrder};
use edge_lb::digest::same_bytes;
use edge_lb::net::{format_ip, parse_ip, parse_ipv4, parse_ipv6, parse_socket, IpAddr};
use edge_lb::nla::{push_attr, push_header, read_attrs, read_header, AttrEnd, MessageHeader};
use edge_lb::order::{set_insert, set_of, sort};
use edge_lb::ranked_set::{insert_ranked, ip_set_of, text_set_of};
use edge_lb::table::Table;
use edge_lb::text::{
    chars_of, cstr_lossy, decimal_text, find_last, find_text, join, lower_text, parse_bounded,
    parse_digits, split_lines, split_on, split_words, text_of, trim_text,
};

fn chars(text: &str) -> Vec<char> {
    text.chars().collect()
}

fn texts(parts: &[Vec<char>]) -> Vec<String> {
    parts.iter().map(|part| part.iter().collect()).collect()
}

#[test]
fn addresses_are_read_as_they_are_written() {
    for text in [
        "0.0.0.0",
        "192.0.2.1",
        "255.255.255.255",
        "::",
        "::1",
        "2001:db8::1",
        "2001:db8:0:1:2:3:4:5",
        "::ffff:192.0.2.1",
        "1:0:0:2::3",
        "fe80::",
    ] {
        let ip = parse_ip(&chars(text)).expect("an address");
        assert_eq!(format_ip(ip), text);
    }
    for text in ["", "1.2.3", "1.2.3.256", "01.2.3.4", "1.2.3.4.5", ":", "1::2::3", "12345::", " ::1"] {
        assert_eq!(parse_ip(&chars(text)), None);
    }
    assert_eq!(parse_ipv4(&chars("10.0.0.1")), Some(0x0a00_0001));
    assert_eq!(parse_ipv6(&chars("::1:2")), Some(0x1_0002));
    assert_eq!(
        parse_socket(&chars("192.0.2.1:80")),
        Some((IpAddr::V4(0xc000_0201), 80))
    );
    assert_eq!(parse_socket(&chars("[::1]:80")), Some((IpAddr::V6(1), 80)));
    assert_eq!(parse_socket(&chars("192.0.2.1")), None);
}

#[test]
fn numbers_are_read_and_written_in_decimal() {
    assert_eq!(decimal_text(0), "0");
    assert_eq!(decimal_text(u64::MAX), "18446744073709551615");
    assert_eq!(parse_bounded(&chars("255"), 255), Some(255));
    assert_eq!(parse_bounded(&chars("256"), 255), None);
    assert_eq!(parse_bounded(&chars("+7"), 255), Some(7));
    assert_eq!(parse_digits(&chars("+7"), 255), None);
    assert_eq!(parse_digits(&chars(""), 255), None);
}

#[test]
fn text_is_cut_and_joined() {
    assert_eq!(trim_text(" \t a b \n"), "a b");
    assert_eq!(trim_text("\u{a0}x\u{2003}"), "x");
    assert_eq!(lower_text("MiXed"), "mixed");
    assert_eq!(texts(&split_on(&chars("a,,b,"), ',')), ["a", "", "b", ""]);
    assert_eq!(texts(&split_words(&chars("  a \t b\n"))), ["a", "b"]);
    assert_eq!(
        texts(&split_lines(&chars("a\r\nb\n\nc"))),
        ["a", "b", "", "c"]
    );
    assert_eq!(find_text(&chars("abcabc"), &chars("ca")), Some(2));
    assert_eq!(find_text(&chars("abc"), &chars("x")), None);
    assert_eq!(find_last(&chars("a/b/c"), '/'), Some(3));
    assert_eq!(join(&["a".to_string(), "b".to_string()], ", "), "a, b");
    assert_eq!(text_of(&chars_of("caf\u{e9}")), "caf\u{e9}");
    assert_eq!(cstr_lossy(b"bpf\0"), "bpf");
    assert_eq!(cstr_lossy(b"bpf\0rest"), "bpf\0rest");
    assert_eq!(cstr_lossy(&[b'a', 0xff, b'b']), "a\u{fffd}b");
}

#[test]
fn a_table_holds_the_last_value_of_a_key() {
    let mut table: Table<u32> = Table::new();
    table.insert("a", 1);
    table.insert("b", 2);
    table.insert("a", 3);
    assert_eq!(table.get("a"), Some(&3));
    table.remove("a");
    assert_eq!(table.get("a"), None);
    table.insert("c", 4);
    table.retain(&["c".to_string()]);
    assert_eq!(table.get("b"), None);
    assert_eq!(table.get("c"), Some(&4));
}

#[test]
fn sorting_and_sets_forget_the_order_of_what_they_are_given() {
    let mut left: Vec<u32> = vec![3, 1, 2, 3];
    let mut right: Vec<u32> = vec![3, 3, 2, 1];
    sort(&mut left);
    sort(&mut right);
    assert_eq!(left, vec![1, 2, 3, 3]);
    assert_eq!(left, right);
    assert_eq!(set_of(&[5, 3, 5, 1]), vec![1, 3, 5]);
    let mut set = vec![1, 5];
    set_insert(&mut set, 3);
    set_insert(&mut set, 3);
    assert_eq!(set, vec![1, 3, 5]);
    assert_eq!(
        text_set_of(vec!["b".into(), "a".into(), "b".into()]),
        ["a", "b"]
    );
    assert_eq!(
        ip_set_of(&[IpAddr::V6(1), IpAddr::V4(9), IpAddr::V4(2), IpAddr::V4(9)]),
        vec![IpAddr::V4(2), IpAddr::V4(9), IpAddr::V6(1)]
    );
    let mut names = vec!["a".to_string()];
    assert!(insert_ranked(&mut names, "b".to_string()));
    assert!(!insert_ranked(&mut names, "a".to_string()));
}

#[test]
fn numbers_come_back_from_their_bytes() {
    let mut little = vec![];
    push_le(&mut little, 0x0102_0304, 4);
    assert_eq!(little, vec![4, 3, 2, 1]);
    assert_eq!(read_le(&little, 0, 4), 0x0102_0304);
    let mut big = vec![];
    push_be(&mut big, 0x0102, 2);
    assert_eq!(big, vec![1, 2]);
    assert_eq!(read_be(&big, 0, 2), 0x0102);
    for order in [ByteOrder::Little, ByteOrder::Big] {
        let mut bytes = vec![];
        push_host(order, &mut bytes, 0xffff_fffe, 4);
        assert_eq!(read_host(order, &bytes, 0, 4), 0xffff_fffe);
        assert_eq!(read_i32(order, &bytes, 0), -2);
    }
    assert_eq!(align(5), 8);
    assert!(same_bytes(&[1, 2], &[1, 2]));
    assert!(!same_bytes(&[1, 2], &[1]));
}

#[test]
fn attributes_and_headers_come_back() {
    let order = ByteOrder::Big;
    let mut bytes = vec![];
    push_attr(order, &mut bytes, 7, b"abc");
    push_attr(order, &mut bytes, 8, &[]);
    let list = read_attrs(order, &bytes, 0);
    assert_eq!(list.items.len(), 2);
    assert_eq!(list.items[0].kind, 7);
    assert!(matches!(list.end, AttrEnd::Whole));
    bytes.extend_from_slice(&[0, 3, 0, 1]);
    assert!(matches!(
        read_attrs(order, &bytes, 0).end,
        AttrEnd::BadLength
    ));
    let header = MessageHeader {
        len: 16,
        kind: 3,
        flags: 2,
        seq: 9,
        pid: 77,
    };
    let mut bytes = vec![];
    push_header(order, &mut bytes, &header);
    assert_eq!(read_header(order, &bytes, 0), header);
}

#[test]
fn elections_are_told() {
    assert!(election_event(ElectionStep::Nothing, "gateway-a", &None).is_none());
    let promoted = election_event(ElectionStep::Promote, "gateway-a", &None).unwrap();
    assert_eq!(promoted.outcome, ElectionOutcome::Changed);
    assert_eq!(promoted.severity, Severity::Critical);
    assert_eq!(
        promoted.text,
        "gateway-a became MASTER after BFD peer failure."
    );
    let failed =
        election_event(ElectionStep::Promote, "gateway-a", &Some("busy".to_string())).unwrap();
    assert_eq!(failed.outcome, ElectionOutcome::SwitchoverFailed);
    assert_eq!(failed.title, "HA BFD promotion failed");
    let adopted = election_event(ElectionStep::AdoptPeer, "gateway-b", &None).unwrap();
    assert_eq!(adopted.severity, Severity::Warning);
    assert_eq!(
        adopted.text,
        "Adopted newer active gateway state from gateway-b."
    );
}
