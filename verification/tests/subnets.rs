use mmproxy::addr::IpAddr;
use mmproxy::subnet::{add_subnet, check_origin_allowed, parse_allowed_subnets, IpCidr};
use mmproxy::text::split_lines;

#[test]
fn list_of_subnets_is_read() {
    let nets = parse_allowed_subnets("10.0.0.0/8\r\n192.168.1.7\n2001:db8::/32").unwrap();
    assert_eq!(
        nets,
        vec![
            IpCidr::V4 { first: 0x0a00_0000, prefix: 8 },
            IpCidr::V4 { first: 0xc0a8_0107, prefix: 32 },
            IpCidr::V6 { first: 0x2001_0db8_0000_0000_0000_0000_0000_0000, prefix: 32 },
        ]
    );
}

#[test]
fn empty_list_is_read() {
    assert!(parse_allowed_subnets("").unwrap().is_empty());
}

#[test]
fn bad_line_is_reported() {
    let err = parse_allowed_subnets("10.0.0.0/8\nnonsense\nmore nonsense").unwrap_err();
    assert_eq!(err.line, 1);
    assert!(!err.reason.is_empty());
}

#[test]
fn host_bits_are_refused() {
    assert_eq!(parse_allowed_subnets("10.0.0.1/8").unwrap_err().line, 0);
}

#[test]
fn too_long_prefix_is_refused() {
    assert_eq!(parse_allowed_subnets("::/0\n10.0.0.0/33").unwrap_err().line, 1);
}

#[test]
fn empty_line_is_refused() {
    assert_eq!(parse_allowed_subnets("10.0.0.0/8\n\n").unwrap_err().line, 1);
}

#[test]
fn lone_carriage_return_belongs_to_its_line() {
    assert_eq!(parse_allowed_subnets("10.0.0.0/8\r").unwrap_err().line, 0);
}

#[test]
fn lines_end_as_in_std() {
    for text in [
        "",
        "\n",
        "a",
        "a\n",
        "a\r\nb",
        "a\r",
        "\r\n\r\n",
        "a\n\nb\n",
        "\u{e4}\n\u{1f600}\r\nz",
    ] {
        let expected: Vec<&str> = text.lines().collect();
        assert_eq!(split_lines(text), expected);
    }
}

#[test]
fn list_is_read_in_order() {
    let texts = ["10.0.0.0/8", "::/0", "192.168.1.7", "10.0.0.0/8"];
    let contents: String = texts.iter().map(|text| format!("{text}\n")).collect();
    assert_eq!(split_lines(&contents), texts);
    let nets = parse_allowed_subnets(&contents).unwrap();
    for (net, text) in nets.iter().zip(texts) {
        assert_eq!(vec![*net], parse_allowed_subnets(text).unwrap());
    }
    assert_eq!(nets.len(), texts.len());
}

#[test]
fn parsed_line_is_added() {
    let mut nets = vec![IpCidr::V4 { first: 0, prefix: 0 }];
    let net = IpCidr::V6 { first: 0, prefix: 0 };
    assert!(add_subnet(&mut nets, 4, Ok(net)).is_ok());
    assert_eq!(nets.len(), 2);
    assert_eq!(nets[1], net);
    let err = add_subnet(&mut nets, 5, Err("no".to_string())).unwrap_err();
    assert_eq!(err.line, 5);
    assert_eq!(err.reason, "no");
    assert_eq!(nets.len(), 2);
}

#[test]
fn origin_in_a_subnet_is_allowed() {
    let nets = [
        IpCidr::V4 { first: 0x0a00_0000, prefix: 8 },
        IpCidr::V4 { first: 0xc0a8_0107, prefix: 32 },
        IpCidr::V6 { first: 0x2001_0db8_0000_0000_0000_0000_0000_0000, prefix: 32 },
    ];
    assert!(check_origin_allowed(&IpAddr::V4(0x0a00_0000), &nets));
    assert!(check_origin_allowed(&IpAddr::V4(0x0aff_ffff), &nets));
    assert!(!check_origin_allowed(&IpAddr::V4(0x09ff_ffff), &nets));
    assert!(!check_origin_allowed(&IpAddr::V4(0x0b00_0000), &nets));
    assert!(check_origin_allowed(&IpAddr::V4(0xc0a8_0107), &nets));
    assert!(!check_origin_allowed(&IpAddr::V4(0xc0a8_0108), &nets));
    let inside: u128 = 0x2001_0db8_ffff_ffff_ffff_ffff_ffff_ffff;
    assert!(check_origin_allowed(&IpAddr::V6(inside), &nets));
    assert!(!check_origin_allowed(&IpAddr::V6(inside + 1), &nets));
}

#[test]
fn families_are_kept_apart() {
    let all_v4 = [IpCidr::V4 { first: 0, prefix: 0 }];
    let all_v6 = [IpCidr::V6 { first: 0, prefix: 0 }];
    assert!(check_origin_allowed(&IpAddr::V4(u32::MAX), &all_v4));
    assert!(!check_origin_allowed(&IpAddr::V6(0xffff_0a00_0001), &all_v4));
    assert!(check_origin_allowed(&IpAddr::V6(u128::MAX), &all_v6));
    assert!(!check_origin_allowed(&IpAddr::V4(0), &all_v6));
}

#[test]
fn empty_list_allows_nothing() {
    assert!(!check_origin_allowed(&IpAddr::V4(1), &[]));
}

#[test]
fn more_subnets_allow_more() {
    let one = IpCidr::V4 { first: 5, prefix: 32 };
    let two = IpCidr::V4 { first: 6, prefix: 32 };
    for ip in [4u32, 5, 6, 7] {
        let addr = IpAddr::V4(ip);
        assert_eq!(
            check_origin_allowed(&addr, &[one, two]),
            check_origin_allowed(&addr, &[one]) || check_origin_allowed(&addr, &[two])
        );
    }
}

#[test]
fn longest_prefix_holds_one_address() {
    let host = [IpCidr::V6 { first: 9, prefix: 128 }];
    assert!(check_origin_allowed(&IpAddr::V6(9), &host));
    assert!(!check_origin_allowed(&IpAddr::V6(8), &host));
    assert!(!check_origin_allowed(&IpAddr::V6(10), &host));
}
