use host_config::addr::{parse_ipv4, parse_socket_addr, IpAddr, SocketAddr};

#[test]
fn parses_dotted_quad() {
    assert_eq!(parse_ipv4("10.0.0.1"), Some(IpAddr { a: 10, b: 0, c: 0, d: 1 }));
    assert_eq!(parse_ipv4("255.255.255.255"), Some(IpAddr { a: 255, b: 255, c: 255, d: 255 }));
    assert_eq!(parse_ipv4("0.0.0.0"), Some(IpAddr { a: 0, b: 0, c: 0, d: 0 }));
}

#[test]
fn rejects_malformed_addresses() {
    assert_eq!(parse_ipv4(""), None);
    assert_eq!(parse_ipv4("10.0.0"), None);
    assert_eq!(parse_ipv4("10.0.0.0.1"), None);
    assert_eq!(parse_ipv4("256.0.0.1"), None);
    assert_eq!(parse_ipv4("10.0.0.01"), None);
    assert_eq!(parse_ipv4("10..0.1"), None);
    assert_eq!(parse_ipv4("10.0.0.1 "), None);
    assert_eq!(parse_ipv4("a.b.c.d"), None);
}

#[test]
fn parses_socket_address() {
    assert_eq!(
        parse_socket_addr("0.0.0.0:53"),
        Some(SocketAddr { ip: IpAddr { a: 0, b: 0, c: 0, d: 0 }, port: 53 })
    );
    assert_eq!(
        parse_socket_addr("1.2.3.4:65535"),
        Some(SocketAddr { ip: IpAddr { a: 1, b: 2, c: 3, d: 4 }, port: 65535 })
    );
    assert_eq!(
        parse_socket_addr("1.2.3.4:0"),
        Some(SocketAddr { ip: IpAddr { a: 1, b: 2, c: 3, d: 4 }, port: 0 })
    );
}

#[test]
fn rejects_malformed_socket_addresses() {
    assert_eq!(parse_socket_addr("1.2.3.4"), None);
    assert_eq!(parse_socket_addr("1.2.3.4:"), None);
    assert_eq!(parse_socket_addr("1.2.3.4:65536"), None);
    assert_eq!(parse_socket_addr("1.2.3.4:053"), None);
    assert_eq!(parse_socket_addr(":53"), None);
    assert_eq!(parse_socket_addr("1.2.3.4:53:54"), None);
    assert_eq!(parse_socket_addr("not-an-address"), None);
}
