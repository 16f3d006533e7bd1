use tunnel::address::{Address, AddressError, IpAddr, SocketAddr};

fn ip_port(s: &str) -> SocketAddr {
    match Address::from(s.to_string()) {
        Ok(Address::Ip(a)) => a,
        other => panic!("expected an ip address, got {:?}", other),
    }
}

#[test]
fn ip_literal_parses_as_ip() {
    let a = ip_port("127.0.0.1:9000");
    assert_eq!(a.ip, IpAddr::V4(127, 0, 0, 1));
    assert_eq!(a.port(), 9000);
}

#[test]
fn ip_literal_port_is_kept() {
    for (text, port) in [("10.1.2.3:0", 0u16), ("255.255.255.255:65535", 65535), ("1.2.3.4:080", 80)] {
        let addr = Address::from(text.to_string()).unwrap();
        assert!(matches!(addr, Address::Ip(_)));
        assert_eq!(addr.port(), port);
    }
}

#[test]
fn domain_keeps_name_and_port() {
    match Address::from("example.com:443".to_string()) {
        Ok(Address::Domain(name, port)) => {
            assert_eq!(name, "example.com");
            assert_eq!(port, 443);
        }
        other => panic!("expected a domain, got {:?}", other),
    }
}

#[test]
fn octet_out_of_range_is_a_domain() {
    match Address::from("256.1.1.1:80".to_string()) {
        Ok(Address::Domain(name, port)) => {
            assert_eq!(name, "256.1.1.1");
            assert_eq!(port, 80);
        }
        other => panic!("expected a domain, got {:?}", other),
    }
}

#[test]
fn leading_zero_octet_is_not_an_ip() {
    let addr = Address::from("01.2.3.4:80".to_string()).unwrap();
    assert!(matches!(addr, Address::Domain(_, 80)));
}

#[test]
fn missing_port_is_invalid() {
    assert!(matches!(Address::from("example.com".to_string()), Err(AddressError::InvalidAddress)));
    assert!(matches!(Address::from("example.com:".to_string()), Err(AddressError::InvalidAddress)));
    assert!(matches!(Address::from("".to_string()), Err(AddressError::InvalidAddress)));
}

#[test]
fn bad_port_is_invalid() {
    assert!(matches!(Address::from("example.com:65536".to_string()), Err(AddressError::InvalidAddress)));
    assert!(matches!(Address::from("example.com:8x".to_string()), Err(AddressError::InvalidAddress)));
    assert!(matches!(Address::from("a:b:80".to_string()), Err(AddressError::InvalidAddress)));
}

#[test]
fn host_and_text_of_domain() {
    let a = Address::from_domain("x.a.com".to_string(), 8080);
    assert_eq!(a.host(), "x.a.com");
    assert_eq!(a.to_text(), "x.a.com:8080");
    assert_eq!(a.port(), 8080);
}

#[test]
fn host_and_text_of_ip() {
    let a = Address::Ip(SocketAddr::new(IpAddr::V4(192, 168, 10, 200), 53));
    assert_eq!(a.host(), "192.168.10.200:53");
    assert_eq!(a.to_text(), "192.168.10.200:53");
}

#[test]
fn text_of_ipv6() {
    let a = SocketAddr::new(IpAddr::V6(0x2001, 0xdb8, 0, 0, 0, 0, 0xabcd, 1), 443);
    assert_eq!(a.to_text(), "[2001:db8::abcd:1]:443");
}

#[test]
fn text_round_trips() {
    for text in ["8.8.4.4:53", "example.org:1", "0.0.0.0:65535"] {
        let a = Address::from(text.to_string()).unwrap();
        assert_eq!(a.to_text(), text);
        let b = Address::from(a.to_text()).unwrap();
        assert_eq!(b.to_text(), text);
    }
}

#[test]
fn ipv6_literal_parses_as_ip() {
    let a = ip_port("[2001:DB8:0:0:0:0:abcd:1]:443");
    assert_eq!(a.ip, IpAddr::V6(0x2001, 0xdb8, 0, 0, 0, 0, 0xabcd, 1));
    assert_eq!(a.port(), 443);
}

#[test]
fn ipv6_text_round_trips() {
    let text = "[fe80::1:22:333:4444]:8080";
    let a = Address::from(text.to_string()).unwrap();
    assert!(matches!(a, Address::Ip(_)));
    assert_eq!(a.to_text(), text);
}

#[test]
fn ipv6_group_too_long_is_not_an_ip() {
    let r = Address::from("[12345:0:0:0:0:0:0:1]:80".to_string());
    assert!(matches!(r, Err(AddressError::InvalidAddress)));
}

#[test]
fn compressed_ipv6_loopback_parses() {
    let a = ip_port("[::1]:53");
    assert_eq!(a.ip, IpAddr::V6(0, 0, 0, 0, 0, 0, 0, 1));
    assert_eq!(a.port(), 53);
    assert_eq!(a.scope_id, 0);
    assert_eq!(a.to_text(), "[::1]:53");
}

#[test]
fn full_ipv6_text_is_written_short() {
    let a = Address::from("[2001:db8:0:0:0:0:abcd:1]:443".to_string()).unwrap();
    assert_eq!(a.to_text(), "[2001:db8::abcd:1]:443");
}

#[test]
fn unspecified_ipv6_text() {
    let a = ip_port("[::]:0");
    assert_eq!(a.ip, IpAddr::V6(0, 0, 0, 0, 0, 0, 0, 0));
    assert_eq!(a.to_text(), "[::]:0");
}

#[test]
fn ipv4_mapped_ipv6_is_dotted() {
    let a = ip_port("[::ffff:1.2.3.4]:80");
    assert_eq!(a.ip, IpAddr::V6(0, 0, 0, 0, 0, 0xffff, 0x0102, 0x0304));
    assert_eq!(a.to_text(), "[::ffff:1.2.3.4]:80");
}

#[test]
fn ipv4_tail_after_groups() {
    let a = ip_port("[64:ff9b::192.0.2.33]:8080");
    assert_eq!(a.ip, IpAddr::V6(0x64, 0xff9b, 0, 0, 0, 0, 0xc000, 0x0221));
    assert_eq!(a.port(), 8080);
}

#[test]
fn ipv6_scope_id_round_trips() {
    let a = ip_port("[fe80::1%2]:80");
    assert_eq!(a.ip, IpAddr::V6(0xfe80, 0, 0, 0, 0, 0, 0, 1));
    assert_eq!(a.scope_id, 2);
    assert_eq!(a.to_text(), "[fe80::1%2]:80");
}

#[test]
fn leftmost_longest_zero_run_is_shortened() {
    let a = SocketAddr::new(IpAddr::V6(1, 0, 0, 2, 0, 0, 3, 4), 1);
    assert_eq!(a.to_text(), "[1::2:0:0:3:4]:1");
    let b = SocketAddr::new(IpAddr::V6(1, 0, 2, 0, 0, 0, 3, 4), 1);
    assert_eq!(b.to_text(), "[1:0:2::3:4]:1");
    let c = SocketAddr::new(IpAddr::V6(1, 2, 3, 4, 5, 6, 0, 8), 1);
    assert_eq!(c.to_text(), "[1:2:3:4:5:6:0:8]:1");
}

#[test]
fn malformed_ipv6_is_refused() {
    for text in ["[1::2::3]:80", "[1:2:3:4:5:6:7:8:9]:80", "[1:2:3:4:5:6:7::8]:80", "[::1]", "[::1%]:80", "[::1%4294967296]:80"] {
        assert!(matches!(Address::from(text.to_string()), Err(AddressError::InvalidAddress)), "{}", text);
    }
}
