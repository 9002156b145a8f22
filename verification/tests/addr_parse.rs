use umay::addr::{IpAddress, SocketAddress};
use umay::config::UpstreamServer;
use umay::errors::ConfigError;
use umay::parse::{parse_ipv4, parse_socket_addr_str};

#[test]
fn parses_loopback_with_port() {
    let a = parse_socket_addr_str("127.0.0.1:8080").expect("should parse");
    assert_eq!(a.ip, IpAddress::V4(0x7f00_0001));
    assert_eq!(a.port, 8080);
}

#[test]
fn parses_private_address() {
    let a = parse_socket_addr_str("10.0.0.1:53").expect("should parse");
    assert_eq!(a.ip, IpAddress::V4(0x0a00_0001));
    assert_eq!(a.port, 53);
}

#[test]
fn parses_extremes() {
    let a = parse_socket_addr_str("0.0.0.0:0").expect("should parse");
    assert_eq!(a.ip, IpAddress::V4(0));
    assert_eq!(a.port, 0);
    let b = parse_socket_addr_str("255.255.255.255:65535").expect("should parse");
    assert_eq!(b.ip, IpAddress::V4(0xffff_ffff));
    assert_eq!(b.port, 65535);
}

#[test]
fn rejects_leading_zero_octet() {
    assert!(parse_socket_addr_str("01.2.3.4:80").is_none());
}

#[test]
fn rejects_octet_over_255() {
    assert!(parse_socket_addr_str("256.1.1.1:80").is_none());
}

#[test]
fn rejects_port_over_65535() {
    assert!(parse_socket_addr_str("1.2.3.4:65536").is_none());
}

#[test]
fn rejects_missing_port() {
    assert!(parse_socket_addr_str("1.2.3.4").is_none());
    assert!(parse_socket_addr_str("1.2.3.4:").is_none());
}

#[test]
fn rejects_short_and_empty_texts() {
    assert!(parse_socket_addr_str("").is_none());
    assert!(parse_socket_addr_str("1.2.3:80").is_none());
    assert!(parse_socket_addr_str("1.2.3.4.5:80").is_none());
}

#[test]
fn parses_bracketed_ipv6_literal() {
    let a = parse_socket_addr_str("[::1]:80").expect("should parse");
    assert_eq!(a.ip, IpAddress::V6(1));
    assert_eq!(a.port, 80);
    let b = parse_socket_addr_str("[2001:db8::8:800:200c:417a]:443").expect("should parse");
    assert_eq!(b.ip, IpAddress::V6(0x2001_0db8_0000_0000_0008_0800_200c_417a));
    assert_eq!(b.port, 443);
    let c = parse_socket_addr_str("[1:2:3:4:5:6:7:8]:1").expect("should parse");
    assert_eq!(c.ip, IpAddress::V6(0x0001_0002_0003_0004_0005_0006_0007_0008));
}

#[test]
fn rejects_malformed_ipv6_literals() {
    assert!(parse_socket_addr_str("[:::1]:80").is_none());
    assert!(parse_socket_addr_str("[1::2::3]:80").is_none());
    assert!(parse_socket_addr_str("[1:2:3:4:5:6:7]:80").is_none());
    assert!(parse_socket_addr_str("[1:2:3:4:5:6:7:8:9]:80").is_none());
    assert!(parse_socket_addr_str("[12345::]:80").is_none());
    assert!(parse_socket_addr_str("[::1]80").is_none());
    assert!(parse_socket_addr_str("[::1]:").is_none());
}

#[test]
fn bare_ipv6_parses_for_upstream_entries() {
    let us = UpstreamServer::new("::1".to_string(), 1883);
    let a = us.to_socket_addrs().expect("valid address");
    assert_eq!(a.ip, IpAddress::V6(1));
    assert_eq!(a.port, 1883);
    let zero = UpstreamServer::new("::".to_string(), 1);
    assert_eq!(zero.to_socket_addrs().unwrap().ip, IpAddress::V6(0));
}

#[test]
fn bare_ipv4_parses_as_address_only() {
    assert_eq!(parse_ipv4(b"192.168.1.7"), Some(0xc0a8_0107));
    assert_eq!(parse_ipv4(b"192.168.1."), None);
    assert_eq!(parse_ipv4(b"not an ip"), None);
}

#[test]
fn upstream_server_resolves_its_address() {
    let us = UpstreamServer::new("127.0.0.1".to_string(), 1994);
    let a = us.to_socket_addrs().expect("valid address");
    assert_eq!(a.ip, IpAddress::V4(0x7f00_0001));
    assert_eq!(a.port, 1994);
}

#[test]
fn upstream_server_rejects_bad_address() {
    let us = UpstreamServer::new("localhost".to_string(), 1994);
    assert_eq!(us.to_socket_addrs().unwrap_err(), ConfigError::InvalidAddress);
}

#[test]
fn address_order_is_family_value_port() {
    let v4 = SocketAddress::new(IpAddress::V4(1), 9);
    let v4_high = SocketAddress::new(IpAddress::V4(2), 1);
    let v4_port = SocketAddress::new(IpAddress::V4(1), 10);
    let v6 = SocketAddress::new(IpAddress::V6(0), 0);
    assert!(v4.lt(&v4_high));
    assert!(v4.lt(&v4_port));
    assert!(v4_high.lt(&v6));
    assert!(!v6.lt(&v4));
    assert!(!v4.lt(&v4));
}
