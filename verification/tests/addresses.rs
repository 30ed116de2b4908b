use mmproxy::addr::{to_ipv4_mapped, to_ipv6_mapped, IpAddr, SocketAddr, SocketAddrV4, SocketAddrV6};

#[test]
fn mapped_address_is_read_back() {
    assert_eq!(to_ipv6_mapped(0xc0a8_0001), 0xffff_c0a8_0001);
    assert_eq!(to_ipv4_mapped(0xffff_c0a8_0001), Some(0xc0a8_0001));
}

#[test]
fn mapped_block_has_sharp_edges() {
    assert_eq!(to_ipv4_mapped(0xfffe_ffff_ffff), None);
    assert_eq!(to_ipv4_mapped(0xffff_0000_0000), Some(0));
    assert_eq!(to_ipv4_mapped(0xffff_ffff_ffff), Some(u32::MAX));
    assert_eq!(to_ipv4_mapped(0x1_0000_0000_0000), None);
    assert_eq!(to_ipv4_mapped(1), None);
}

#[test]
fn mapping_loses_nothing() {
    for ip in [0u32, 1, 0x7f00_0001, 0x0a00_0001, u32::MAX] {
        assert_eq!(to_ipv4_mapped(to_ipv6_mapped(ip)), Some(ip));
    }
}

#[test]
fn socket_address_gives_its_ip() {
    let v4 = SocketAddr::V4(SocketAddrV4 { ip: 7, port: 80 });
    assert_eq!(v4.ip(), IpAddr::V4(7));
    let v6 = SocketAddr::V6(SocketAddrV6 { ip: 9, port: 80, flowinfo: 1, scope_id: 2 });
    assert_eq!(v6.ip(), IpAddr::V6(9));
}
