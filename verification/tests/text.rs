use pathforge::net::{ipv6_groups, parse_ipv4, push_ipv6, push_socket, SocketAddress};
use pathforge::mp::IpAddress;
use pathforge::text::{chars_of, decimal, parse_unsigned, split_whitespace};

fn v6(s: &str) -> String {
    let mut out = String::new();
    let a: u128 = u128::from_str_radix(s, 16).unwrap();
    push_ipv6(&mut out, a);
    out
}

#[test]
fn ipv6_text_compresses_the_first_longest_zero_run() {
    assert_eq!(v6("20010db8000000000000000000000001"), "2001:db8::1");
    assert_eq!(v6("00000000000000000000000000000000"), "::");
    assert_eq!(v6("00000000000000000000000000000001"), "::1");
    assert_eq!(v6("20010db8000000010000000000000001"), "2001:db8:0:1::1");
    assert_eq!(v6("20010db8000000000001000000000001"), "2001:db8::1:0:0:1");
    assert_eq!(v6("20010db8000100010001000100010001"), "2001:db8:1:1:1:1:1:1");
    assert_eq!(v6("00000000000000000000ffffc0000201"), "::ffff:192.0.2.1");
    assert_eq!(v6("fe800000000000000000000000abcdef"), "fe80::ab:cdef");
    assert_eq!(ipv6_groups(1u128 << 112), vec![1, 0, 0, 0, 0, 0, 0, 0]);
}

#[test]
fn socket_text() {
    let mut s = String::new();
    push_socket(&mut s, SocketAddress::new(IpAddress::V4(0x0a000001), 179));
    assert_eq!(s, "10.0.0.1:179");
    let mut s = String::new();
    push_socket(&mut s, SocketAddress::new(IpAddress::V6(1), 8080));
    assert_eq!(s, "[::1]:8080");
}

#[test]
fn decimal_and_unsigned_text() {
    assert_eq!(decimal(0), "0");
    assert_eq!(decimal(18446744073709551615), "18446744073709551615");
    assert_eq!(parse_unsigned(&chars_of("+007"), 255), Some(7));
    assert_eq!(parse_unsigned(&chars_of("256"), 255), None);
    assert_eq!(parse_unsigned(&chars_of(""), 255), None);
    assert_eq!(parse_unsigned(&chars_of("+"), 255), None);
    assert_eq!(parse_unsigned(&chars_of("-1"), 255), None);
}

#[test]
fn dotted_quads() {
    assert_eq!(parse_ipv4(&chars_of("192.0.2.1")), Some(0xc0000201));
    assert_eq!(parse_ipv4(&chars_of("0.0.0.0")), Some(0));
    assert_eq!(parse_ipv4(&chars_of("1.2.3")), None);
    assert_eq!(parse_ipv4(&chars_of("1.2.3.4.5")), None);
    assert_eq!(parse_ipv4(&chars_of("1.2.3.04")), None);
    assert_eq!(parse_ipv4(&chars_of("1.2.3.+4")), None);
}

#[test]
fn words() {
    assert_eq!(split_whitespace("  a  bc\td \u{3000}e "), vec!["a", "bc", "d", "e"]);
    assert!(split_whitespace(" \n ").is_empty());
}
