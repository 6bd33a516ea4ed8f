use jalb::address::{parse_socket_v4, IpAddress, SocketAddress};
use jalb::errors::NetworkTargetError;
use jalb::ipv6::parse_socket_v6;
use jalb::target::NetworkTarget;

#[test]
fn url_target_resolves_with_its_port() {
    let t = NetworkTarget::parse("http://example.com:8080").unwrap();
    let ip = IpAddress::V4(93, 184, 215, 14);
    let resolved = t.to_socket_addrs(&vec![ip, IpAddress::V4(1, 1, 1, 1)]).unwrap();
    assert_eq!(resolved, SocketAddress { ip, port: 8080 });
}

#[test]
fn socket_target_text_is_canonical() {
    let t = NetworkTarget::parse("127.0.0.1:9000").unwrap();
    assert_eq!(t.as_string(), "127.0.0.1:9000");
    assert!(matches!(t, NetworkTarget::SocketAddr(_)));
}

#[test]
fn not_a_target_is_refused() {
    match NetworkTarget::parse("not a target") {
        Err(NetworkTargetError::InvalidTargetError(s)) => assert_eq!(s, "not a target"),
        other => panic!("unexpected {:?}", other),
    }
}

#[test]
fn url_serialization_is_normalised() {
    let t = NetworkTarget::parse("HTTP://Example.COM").unwrap();
    assert_eq!(t.as_string(), "http://example.com/");
}

#[test]
fn url_without_port_uses_scheme_default() {
    let t = NetworkTarget::parse("https://example.com").unwrap();
    match &t {
        NetworkTarget::Url(u) => assert_eq!(u.port(), Some(443)),
        _ => panic!("expected a url"),
    }
    let ip = IpAddress::V4(10, 0, 0, 1);
    assert_eq!(t.to_socket_addrs(&vec![ip]), Some(SocketAddress { ip, port: 443 }));
}

#[test]
fn url_without_derivable_port_does_not_resolve() {
    let t = NetworkTarget::parse("foo://example.com").unwrap();
    assert_eq!(t.to_socket_addrs(&vec![IpAddress::V4(10, 0, 0, 1)]), None);
}

#[test]
fn url_with_no_lookup_result_does_not_resolve() {
    let t = NetworkTarget::parse("http://example.com:8080").unwrap();
    assert_eq!(t.to_socket_addrs(&Vec::new()), None);
}

#[test]
fn socket_target_resolves_to_itself() {
    let t = NetworkTarget::parse("10.1.2.3:65535").unwrap();
    assert_eq!(
        t.to_socket_addrs(&Vec::new()),
        Some(SocketAddress { ip: IpAddress::V4(10, 1, 2, 3), port: 65535 })
    );
}

#[test]
fn push_appends_a_path_segment() {
    let mut t = NetworkTarget::parse("http://example.com").unwrap();
    t.push("api").unwrap();
    assert_eq!(t.as_string(), "http://example.com/api");
}

#[test]
fn push_to_socket_address_fails() {
    let mut t = NetworkTarget::parse("127.0.0.1:9000").unwrap();
    assert!(matches!(t.push("api"), Err(NetworkTargetError::PushToSocketAddr)));
    assert_eq!(t.as_string(), "127.0.0.1:9000");
}

#[test]
fn push_to_cannot_be_a_base_url_fails() {
    let mut t = NetworkTarget::parse("data:text/plain,Stuff").unwrap();
    match t.push("api") {
        Err(NetworkTargetError::InvalidUrlBase(s)) => assert_eq!(s, "data:text/plain,Stuff"),
        other => panic!("unexpected {:?}", other),
    }
}

#[test]
fn targets_are_equal_by_canonical_text() {
    let a = NetworkTarget::parse("127.0.0.1:0080").unwrap();
    let b = NetworkTarget::parse("127.0.0.1:80").unwrap();
    assert_eq!(a, b);
    let c: NetworkTarget = "127.0.0.1:81".parse().unwrap();
    assert_ne!(a, c);
}

#[test]
fn socket_address_syntax() {
    assert_eq!(
        parse_socket_v4("0.0.0.0:0"),
        Some(SocketAddress { ip: IpAddress::V4(0, 0, 0, 0), port: 0 })
    );
    assert_eq!(
        parse_socket_v4("255.255.255.255:65535"),
        Some(SocketAddress { ip: IpAddress::V4(255, 255, 255, 255), port: 65535 })
    );
    assert_eq!(parse_socket_v4("256.0.0.1:80"), None);
    assert_eq!(parse_socket_v4("1.2.3.4:65536"), None);
    assert_eq!(parse_socket_v4("01.2.3.4:80"), None);
    assert_eq!(parse_socket_v4("1.2.3:80"), None);
    assert_eq!(parse_socket_v4("1.2.3.4.5:80"), None);
    assert_eq!(parse_socket_v4("1.2.3.4:"), None);
    assert_eq!(parse_socket_v4("1.2.3.4"), None);
    assert_eq!(parse_socket_v4("1.2.3.4:8a"), None);
    assert_eq!(parse_socket_v4(""), None);
}

#[test]
fn socket_address_text() {
    let a = SocketAddress { ip: IpAddress::V4(192, 168, 0, 10), port: 443 };
    assert_eq!(a.to_text(), "192.168.0.10:443");
    let b = SocketAddress { ip: IpAddress::V6(1), port: 80 };
    assert_eq!(b.to_text(), "[::1]:80");
    let c = SocketAddress { ip: IpAddress::V6(0x2001_0db8_0000_0000_0000_0000_0000_ff01), port: 8080 };
    assert_eq!(c.to_text(), "[2001:db8::ff01]:8080");
    let text = |bits: u128| SocketAddress { ip: IpAddress::V6(bits), port: 1 }.to_text();
    assert_eq!(text(0), "[::]:1");
    assert_eq!(text(1u128 << 112), "[1::]:1");
    assert_eq!(text(0x0001_0000_0000_0002_0000_0000_0000_0003), "[1:0:0:2::3]:1");
    assert_eq!(text(0x0001_0000_0000_0002_0000_0000_0003_0004), "[1::2:0:0:3:4]:1");
    assert_eq!(text(0x0001_0000_0002_0003_0004_0005_0006_0007), "[1:0:2:3:4:5:6:7]:1");
}

#[test]
fn url_target_names_its_host_for_lookup() {
    let t = NetworkTarget::parse("http://Example.com:8080/x").unwrap();
    assert_eq!(t.lookup_request(), Some(("example.com".to_string(), 8080)));
    let v6 = NetworkTarget::parse("tcp://[::1]:9000").unwrap();
    assert_eq!(v6.lookup_request(), Some(("[::1]".to_string(), 9000)));
    let no_port = NetworkTarget::parse("foo://example.com").unwrap();
    assert_eq!(no_port.lookup_request(), None);
    let socket = NetworkTarget::parse("127.0.0.1:80").unwrap();
    assert_eq!(socket.lookup_request(), None);
    match &t {
        NetworkTarget::Url(u) => assert_eq!(u.host(), Some("example.com")),
        _ => panic!("expected a url"),
    }
}

#[test]
fn ipv6_socket_address_syntax() {
    let v6 = |bits: u128, port: u16| Some(SocketAddress { ip: IpAddress::V6(bits), port });
    assert_eq!(parse_socket_v6("[::1]:8080"), v6(1, 8080));
    assert_eq!(parse_socket_v6("[::]:1"), v6(0, 1));
    assert_eq!(parse_socket_v6("[1::]:1"), v6(1u128 << 112, 1));
    assert_eq!(parse_socket_v6("[2001:db8::ff01]:80"), v6(0x2001_0db8_0000_0000_0000_0000_0000_ff01, 80));
    assert_eq!(parse_socket_v6("[1:2:3:4:5:6:7:8]:9"), v6(0x0001_0002_0003_0004_0005_0006_0007_0008, 9));
    assert_eq!(parse_socket_v6("[::FFFF]:1"), v6(0xffff, 1));
    assert_eq!(parse_socket_v6("[1:2:3:4:5:6:7:8:9]:1"), None);
    assert_eq!(parse_socket_v6("[1:2:3:4:5:6:7::8]:1"), None);
    assert_eq!(parse_socket_v6("[::1]"), None);
    assert_eq!(parse_socket_v6("[::1]:"), None);
    assert_eq!(parse_socket_v6("[:::1]:1"), None);
    assert_eq!(parse_socket_v6("[1::2::3]:1"), None);
    assert_eq!(parse_socket_v6("[12345::]:1"), None);
    assert_eq!(parse_socket_v6("[g::]:1"), None);
    assert_eq!(parse_socket_v6("[::1]:65536"), None);
    assert_eq!(parse_socket_v6("::1:80"), None);
}

#[test]
fn ipv6_socket_target() {
    let t = NetworkTarget::parse("[::1]:9000").unwrap();
    assert_eq!(t.to_socket_addrs(&Vec::new()), Some(SocketAddress { ip: IpAddress::V6(1), port: 9000 }));
    assert_eq!(t.as_string(), "[::1]:9000");
    assert_eq!(t, NetworkTarget::parse("[0::1]:9000").unwrap());
}
