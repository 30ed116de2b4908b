use mmproxy::addr::{SocketAddr, SocketAddrV4, SocketAddrV6};
use mmproxy::header::{
    frame_datagram, interpret_header, is_header_cut_short, make_proxy_protocol_addresses,
    parse_proxy_protocol_header, try_parse_proxy_protocol_header, udp_proxy_header, HeaderError,
    ProxyHeader, V1Addresses, V2Addresses,
};

const SIGNATURE: [u8; 12] =
    [0x0d, 0x0a, 0x0d, 0x0a, 0x00, 0x0d, 0x0a, 0x51, 0x55, 0x49, 0x54, 0x0a];

fn v4(ip: u32, port: u16) -> SocketAddr {
    SocketAddr::V4(SocketAddrV4 { ip, port })
}

fn v6(ip: u128, port: u16) -> SocketAddr {
    SocketAddr::V6(SocketAddrV6 { ip, port, flowinfo: 0, scope_id: 0 })
}

fn v2_bytes(command: u8, family: u8, announced: u16, rest: &[u8]) -> Vec<u8> {
    let mut bytes = SIGNATURE.to_vec();
    bytes.push(command);
    bytes.push(family);
    bytes.extend_from_slice(&announced.to_be_bytes());
    bytes.extend_from_slice(rest);
    bytes
}

const BLOCK_V4: [u8; 12] = [10, 0, 0, 1, 10, 0, 0, 2, 0x13, 0x88, 0x01, 0xbb];

#[test]
fn version_1_over_ipv4_is_read() {
    let bytes = b"PROXY TCP4 192.168.0.1 10.0.0.11 56324 443\r\nhello";
    let (pair, rest, version) = parse_proxy_protocol_header(bytes).unwrap();
    assert_eq!(pair, Some((v4(0xc0a8_0001, 56324), v4(0x0a00_000b, 443))));
    assert_eq!(rest, b"hello");
    assert_eq!(version, 1);
}

#[test]
fn version_1_over_ipv6_is_read() {
    let bytes = b"PROXY TCP6 ::1 2001:db8::2 1000 2000\r\n";
    let (pair, rest, version) = parse_proxy_protocol_header(bytes).unwrap();
    let server: u128 = 0x2001_0db8_0000_0000_0000_0000_0000_0002;
    assert_eq!(pair, Some((v6(1, 1000), v6(server, 2000))));
    assert!(rest.is_empty());
    assert_eq!(version, 1);
}

#[test]
fn version_1_may_name_no_addresses() {
    let (pair, rest, version) = parse_proxy_protocol_header(b"PROXY UNKNOWN\r\nabc").unwrap();
    assert_eq!(pair, None);
    assert_eq!(rest, b"abc");
    assert_eq!(version, 1);
}

#[test]
fn version_2_over_ipv4_is_read() {
    let mut bytes = v2_bytes(0x21, 0x12, 12, &BLOCK_V4);
    bytes.extend_from_slice(b"payload");
    let (pair, rest, version) = parse_proxy_protocol_header(&bytes).unwrap();
    assert_eq!(pair, Some((v4(0x0a00_0001, 5000), v4(0x0a00_0002, 443))));
    assert_eq!(rest, b"payload");
    assert_eq!(version, 2);
}

#[test]
fn version_2_without_addresses_is_read() {
    let bytes = v2_bytes(0x20, 0x00, 0, b"rest");
    let (pair, rest, version) = parse_proxy_protocol_header(&bytes).unwrap();
    assert_eq!(pair, None);
    assert_eq!(rest, b"rest");
    assert_eq!(version, 2);
}

#[test]
fn version_2_extras_are_skipped() {
    let mut block = BLOCK_V4.to_vec();
    block.extend_from_slice(&[0x04, 0x00, 0x00]);
    let mut bytes = v2_bytes(0x21, 0x12, 15, &block);
    bytes.extend_from_slice(b"xyz");
    let (_, rest, version) = parse_proxy_protocol_header(&bytes).unwrap();
    assert_eq!(rest, b"xyz");
    assert_eq!(version, 2);
}

#[test]
fn unix_sockets_are_refused() {
    let bytes = v2_bytes(0x21, 0x31, 216, &[7u8; 216]);
    assert!(matches!(parse_proxy_protocol_header(&bytes), Err(HeaderError::UnixSockets)));
}

#[test]
fn bytes_without_header_are_refused() {
    for bytes in [&b""[..], &b"hello"[..], &b"PROXY"[..], &SIGNATURE[..]] {
        assert!(!is_header_cut_short(bytes));
        assert!(matches!(parse_proxy_protocol_header(bytes), Err(HeaderError::Malformed(_))));
        assert!(matches!(
            try_parse_proxy_protocol_header(bytes),
            Some(Err(HeaderError::Malformed(_)))
        ));
    }
}

#[test]
fn refusal_gives_the_parsers_words() {
    let malformed = |reason: &str| Err(HeaderError::Malformed(reason.to_string()));
    assert_eq!(
        parse_proxy_protocol_header(b"hello, world"),
        malformed("the given data is not a PROXY header")
    );
    assert_eq!(
        parse_proxy_protocol_header(&v2_bytes(0x21, 0x12, 12, b"")),
        malformed("there was an error while parsing the v2 header: an unexpected eof was hit")
    );
    assert_eq!(
        parse_proxy_protocol_header(&v2_bytes(0x31, 0x12, 12, &BLOCK_V4)),
        malformed("the version 3 is invalid")
    );
    assert_eq!(
        interpret_header(Err("some words".to_string())),
        malformed("some words")
    );
}

#[test]
fn version_1_without_line_feed_is_cut_short() {
    let bytes = b"PROXY TCP4 1.2.3.4 5.6.7.8 11 22\r";
    assert!(is_header_cut_short(bytes));
    assert!(try_parse_proxy_protocol_header(bytes).is_none());
    let whole = b"PROXY TCP4 1.2.3.4 5.6.7.8 11 22\r\n";
    assert!(!is_header_cut_short(whole));
    assert!(matches!(try_parse_proxy_protocol_header(whole), Some(Ok((Some(_), _, 1)))));
}

#[test]
fn short_last_port_without_line_feed_is_malformed() {
    let bytes = b"PROXY TCP4 1.2.3.4 5.6.7.8 11 2\r";
    assert!(!is_header_cut_short(bytes));
    assert!(matches!(
        try_parse_proxy_protocol_header(bytes),
        Some(Err(HeaderError::Malformed(_)))
    ));
}

#[test]
fn version_1_broken_off_earlier_is_malformed() {
    let whole = b"PROXY TCP4 1.2.3.4 5.6.7.8 11 22\r\n";
    for n in 0..whole.len() - 1 {
        assert!(!is_header_cut_short(&whole[..n]));
        assert!(matches!(
            try_parse_proxy_protocol_header(&whole[..n]),
            Some(Err(HeaderError::Malformed(_)))
        ));
    }
}

#[test]
fn version_2_with_missing_extras_is_cut_short() {
    let bytes = v2_bytes(0x21, 0x12, 13, &BLOCK_V4);
    assert!(is_header_cut_short(&bytes));
    assert!(try_parse_proxy_protocol_header(&bytes).is_none());
    let local = v2_bytes(0x20, 0x22, 37, &[0u8; 36]);
    assert!(try_parse_proxy_protocol_header(&local).is_none());
    let unix = v2_bytes(0x21, 0x30, 300, &[0u8; 299]);
    assert!(try_parse_proxy_protocol_header(&unix).is_none());
}

#[test]
fn version_2_with_missing_addresses_is_malformed() {
    for n in 0..12 {
        let bytes = v2_bytes(0x21, 0x12, 12, &BLOCK_V4[..n]);
        assert!(!is_header_cut_short(&bytes));
        assert!(matches!(
            try_parse_proxy_protocol_header(&bytes),
            Some(Err(HeaderError::Malformed(_)))
        ));
    }
}

#[test]
fn version_2_is_not_cut_short_on_bad_fields() {
    let bad_command = v2_bytes(0x22, 0x12, 13, &BLOCK_V4);
    let bad_transport = v2_bytes(0x21, 0x13, 13, &BLOCK_V4);
    let bad_family = v2_bytes(0x21, 0x42, 13, &BLOCK_V4);
    let bad_version = v2_bytes(0x31, 0x12, 13, &BLOCK_V4);
    for bytes in [bad_command, bad_transport, bad_family, bad_version] {
        assert!(!is_header_cut_short(&bytes));
        assert!(matches!(
            try_parse_proxy_protocol_header(&bytes),
            Some(Err(HeaderError::Malformed(_)))
        ));
    }
}

#[test]
fn fields_come_from_the_parsed_header() {
    let a = SocketAddrV4 { ip: 1, port: 2 };
    let b = SocketAddrV4 { ip: 3, port: 4 };
    let c = SocketAddrV6 { ip: 5, port: 6, flowinfo: 0, scope_id: 0 };
    let d = SocketAddrV6 { ip: 7, port: 8, flowinfo: 0, scope_id: 0 };
    let rest: &[u8] = b"r";
    let cases = [
        (ProxyHeader::Version1(V1Addresses::Unknown), None, 1),
        (
            ProxyHeader::Version1(V1Addresses::Ipv4 { source: a, destination: b }),
            Some((SocketAddr::V4(a), SocketAddr::V4(b))),
            1,
        ),
        (
            ProxyHeader::Version1(V1Addresses::Ipv6 { source: c, destination: d }),
            Some((SocketAddr::V6(c), SocketAddr::V6(d))),
            1,
        ),
        (ProxyHeader::Version2(V2Addresses::Unspec), None, 2),
        (
            ProxyHeader::Version2(V2Addresses::Ipv4 { source: a, destination: b }),
            Some((SocketAddr::V4(a), SocketAddr::V4(b))),
            2,
        ),
        (
            ProxyHeader::Version2(V2Addresses::Ipv6 { source: c, destination: d }),
            Some((SocketAddr::V6(c), SocketAddr::V6(d))),
            2,
        ),
    ];
    for (header, pair, version) in cases {
        let read = interpret_header(Ok((header, rest))).unwrap();
        assert_eq!(read, (pair, rest, version));
    }
    let unix = V2Addresses::Unix { source_path: [0; 108], destination_path: [0; 108] };
    let read = interpret_header(Ok((ProxyHeader::Version2(unix), rest)));
    assert!(matches!(read, Err(HeaderError::UnixSockets)));
}

#[test]
fn ipv4_client_gets_ipv4_addresses() {
    let made = make_proxy_protocol_addresses(v4(1, 2), v4(3, 4));
    assert_eq!(
        made,
        V2Addresses::Ipv4 {
            source: SocketAddrV4 { ip: 1, port: 2 },
            destination: SocketAddrV4 { ip: 3, port: 4 },
        }
    );
}

#[test]
fn ipv4_client_of_an_ipv6_server() {
    let made = make_proxy_protocol_addresses(v4(1, 2), v6(0x2001, 4));
    assert_eq!(
        made,
        V2Addresses::Ipv4 {
            source: SocketAddrV4 { ip: 1, port: 2 },
            destination: SocketAddrV4 { ip: 0, port: 4 },
        }
    );
    let made = make_proxy_protocol_addresses(v4(1, 2), v6(0xffff_0000_0009, 4));
    assert_eq!(
        made,
        V2Addresses::Ipv4 {
            source: SocketAddrV4 { ip: 1, port: 2 },
            destination: SocketAddrV4 { ip: 9, port: 4 },
        }
    );
}

#[test]
fn mapped_client_gets_the_header_of_an_ipv4_client() {
    let mapped = SocketAddr::V6(SocketAddrV6 {
        ip: 0xffff_0a00_0001,
        port: 5000,
        flowinfo: 3,
        scope_id: 4,
    });
    let server = v4(0x0a00_0002, 443);
    assert_eq!(
        make_proxy_protocol_addresses(mapped, server),
        make_proxy_protocol_addresses(v4(0x0a00_0001, 5000), server)
    );
    assert_eq!(
        udp_proxy_header(mapped, server).unwrap(),
        udp_proxy_header(v4(0x0a00_0001, 5000), server).unwrap()
    );
}

#[test]
fn ipv6_client_gets_ipv6_addresses() {
    let made = make_proxy_protocol_addresses(v6(0x2001, 2), v4(9, 4));
    assert_eq!(
        made,
        V2Addresses::Ipv6 {
            source: SocketAddrV6 { ip: 0x2001, port: 2, flowinfo: 0, scope_id: 0 },
            destination: SocketAddrV6 {
                ip: 0xffff_0000_0009,
                port: 4,
                flowinfo: 0,
                scope_id: 0,
            },
        }
    );
    let server = SocketAddrV6 { ip: 0x2002, port: 4, flowinfo: 5, scope_id: 6 };
    let made = make_proxy_protocol_addresses(v6(0x2001, 2), SocketAddr::V6(server));
    assert_eq!(
        made,
        V2Addresses::Ipv6 {
            source: SocketAddrV6 { ip: 0x2001, port: 2, flowinfo: 0, scope_id: 0 },
            destination: server,
        }
    );
}

#[test]
fn ipv4_header_has_exact_bytes() {
    let header = udp_proxy_header(v4(0x0a00_0001, 5000), v4(0x0a00_0002, 443)).unwrap();
    assert_eq!(header, v2_bytes(0x21, 0x12, 12, &BLOCK_V4));
    assert_eq!(header.len(), 28);
}

#[test]
fn ipv6_header_has_exact_bytes() {
    let client: u128 = 0x2001_0db8_0000_0000_0000_0000_0000_0001;
    let server: u128 = 0x2001_0db8_0000_0000_0000_0000_0000_0002;
    let header = udp_proxy_header(v6(client, 0x1234), v6(server, 0x5678)).unwrap();
    let mut block = client.to_be_bytes().to_vec();
    block.extend_from_slice(&server.to_be_bytes());
    block.extend_from_slice(&[0x12, 0x34, 0x56, 0x78]);
    assert_eq!(header, v2_bytes(0x21, 0x22, 36, &block));
    assert_eq!(header.len(), 52);
}

#[test]
fn written_header_is_read_back() {
    let client = SocketAddr::V6(SocketAddrV6 { ip: 77, port: 9, flowinfo: 11, scope_id: 12 });
    let server = v6(78, 10);
    let header = udp_proxy_header(client, server).unwrap();
    for payload in [&b""[..], &b"x"[..], &[0u8; 2000][..]] {
        let datagram = frame_datagram(&header, payload);
        let (pair, rest, version) =
            try_parse_proxy_protocol_header(&datagram).unwrap().unwrap();
        assert_eq!(pair, Some((v6(77, 9), server)));
        assert_eq!(rest, payload);
        assert_eq!(version, 2);
    }
}

#[test]
fn endpoints_of_a_header_are_of_one_family() {
    for client in [v4(1, 2), v6(3, 4), v6(0xffff_0000_0001, 6)] {
        for server in [v4(7, 8), v6(9, 10), v6(0xffff_0000_0002, 12)] {
            let header = udp_proxy_header(client, server).unwrap();
            let (pair, _, _) = parse_proxy_protocol_header(&header).unwrap();
            let (source, destination) = pair.unwrap();
            assert_eq!(
                matches!(source, SocketAddr::V4(_)),
                matches!(destination, SocketAddr::V4(_))
            );
        }
    }
}

#[test]
fn datagram_is_header_and_payload() {
    assert_eq!(frame_datagram(b"ab", b"cd"), b"abcd".to_vec());
    assert_eq!(frame_datagram(b"ab", b""), b"ab".to_vec());
    assert_eq!(frame_datagram(b"", b"cd"), b"cd".to_vec());
}

#[test]
fn damaged_headers_are_read_or_refused() {
    let mut extended = v2_bytes(0x21, 0x22, 40, &[9u8; 40]);
    extended.extend_from_slice(b"payload");
    let wholes: [Vec<u8>; 5] = [
        b"PROXY TCP4 192.168.0.1 10.0.0.11 56324 443\r\nhello".to_vec(),
        b"PROXY TCP6 ::1 2001:db8::2 1000 2000\r\n".to_vec(),
        b"PROXY UNKNOWN and more\r\n".to_vec(),
        v2_bytes(0x21, 0x12, 12, &BLOCK_V4),
        extended,
    ];
    let mut seed: u64 = 1;
    for round in 0..200_000usize {
        let mut next = |n: usize| {
            seed = seed.wrapping_mul(6364136223846793005).wrapping_add(1442695040888963407);
            (seed >> 33) as usize % n
        };
        let mut bytes = wholes[round % wholes.len()].clone();
        for _ in 0..next(3) {
            let at = next(bytes.len());
            bytes[at] = b" \r\n\t0:.TP\x00\x01\x21\x31\xff"[next(14)];
        }
        if next(2) == 0 {
            let end = next(bytes.len() + 1);
            bytes.truncate(end);
        }
        match try_parse_proxy_protocol_header(&bytes) {
            None => assert!(is_header_cut_short(&bytes)),
            Some(Ok((pair, rest, version))) => {
                assert!(bytes.ends_with(rest));
                assert!(bytes.len() - rest.len() >= 15);
                assert_eq!(version == 2, bytes.starts_with(&SIGNATURE));
                let mut longer = bytes.clone();
                longer.extend_from_slice(b" \r\nmore\r");
                let (pair2, rest2, version2) =
                    try_parse_proxy_protocol_header(&longer).unwrap().unwrap();
                assert_eq!((pair2, version2), (pair, version));
                assert_eq!(rest2, frame_datagram(rest, b" \r\nmore\r"));
            }
            Some(Err(_)) => {}
        }
    }
}

#[test]
fn shortest_header_takes_fifteen_bytes() {
    let (_, rest, version) = parse_proxy_protocol_header(b"PROXY UNKNOWN\r\n").unwrap();
    assert!(rest.is_empty());
    assert_eq!(version, 1);
    assert!(parse_proxy_protocol_header(b"PROXY UNKNOW\r\n").is_err());
}

#[test]
fn payload_changes_neither_addresses_nor_version() {
    for header in [
        &b"PROXY TCP4 1.2.3.4 5.6.7.8 11 22\r\n"[..],
        &b"PROXY UNKNOWN\r\n"[..],
        &v2_bytes(0x21, 0x12, 12, &BLOCK_V4)[..],
        &v2_bytes(0x20, 0x00, 2, b"ab")[..],
    ] {
        let (pair, rest, version) = parse_proxy_protocol_header(header).unwrap();
        assert!(rest.is_empty());
        for payload in [&b"x"[..], &b"\r"[..], &b"\r\n"[..], &SIGNATURE[..]] {
            let datagram = frame_datagram(header, payload);
            let extended = parse_proxy_protocol_header(&datagram).unwrap();
            assert_eq!(extended, (pair, payload, version));
        }
    }
}
