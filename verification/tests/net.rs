use ztunnel::net::{byte_to_ip, IpAddr, IpNet, SocketAddr};

fn ip4(a: u8, b: u8, c: u8, d: u8) -> IpAddr {
    IpAddr::V4(u32::from_be_bytes([a, b, c, d]))
}

#[test]
fn networks_are_parsed_and_shown() {
    for text in ["10.0.0.0/8", "10.1.2.3/8", "fd00::/8", "2001:db8::1/128", "0.0.0.0/0"] {
        assert_eq!(IpNet::parse(text).unwrap().text(), text);
    }
    for text in ["", "10.0.0.0", "10.0.0.0/33", "10.0.0/8", "fd00::/129", "a/8", "10.0.0.0/8 "] {
        assert_eq!(IpNet::parse(text), None, "{text}");
    }
}

#[test]
fn networks_contain_addresses() {
    let net = IpNet::parse("10.1.2.3/8").unwrap();
    assert!(net.contains(&ip4(10, 255, 0, 1)));
    assert!(!net.contains(&ip4(11, 0, 0, 1)));
    assert!(!net.contains(&IpAddr::V6(1)));
    assert_eq!(net.trunc().text(), "10.0.0.0/8");
    assert!(IpNet::parse("::/0").unwrap().contains(&IpAddr::V6(u128::MAX)));
    assert!(IpNet::parse("fd00::/8").unwrap().is_ipv6());
    assert_eq!(IpNet::new(ip4(10, 0, 0, 1), 33), None);
    assert_eq!(IpNet::new(ip4(10, 0, 0, 1), 32).unwrap().prefix_len(), 32);
}

#[test]
fn addresses_are_shown() {
    assert_eq!(ip4(192, 0, 2, 1).text(), "192.0.2.1");
    assert_eq!(IpAddr::V6(1).text(), "::1");
    assert_eq!(SocketAddr::new(ip4(192, 0, 2, 1), 80).text(), "192.0.2.1:80");
    assert_eq!(SocketAddr::new(IpAddr::V6(1), 80).text(), "[::1]:80");
    assert!(ip4(127, 9, 9, 9).is_loopback());
    assert!(IpAddr::V6(1).is_loopback());
    assert!(!IpAddr::V6(2).is_loopback());
}

#[test]
fn mapped_addresses_are_unmapped() {
    let mapped = SocketAddr::new(IpAddr::V6(0xffff_0a00_0001), 80);
    assert_eq!(mapped.to_canonical(), SocketAddr::new(ip4(10, 0, 0, 1), 80));
    let plain = SocketAddr::new(IpAddr::V6(0x0a00_0001), 80);
    assert_eq!(plain.to_canonical(), plain);
}

#[test]
fn bytes_become_addresses() {
    assert_eq!(byte_to_ip(&[10, 0, 0, 1]), Some(ip4(10, 0, 0, 1)));
    let mut bytes = [0u8; 16];
    bytes[15] = 1;
    assert_eq!(byte_to_ip(&bytes), Some(IpAddr::V6(1)));
    assert_eq!(byte_to_ip(&[1, 2, 3]), None);
}
