use mmproxy::addr::{IpAddr, SocketAddr, SocketAddrV4, SocketAddrV6};
use mmproxy::args::{ArgsMmproxy, ArgsReverseProxy, Command, Protocol};
use mmproxy::header::{
    frame_datagram, interpret_header, udp_proxy_header, HeaderError, ProxyHeader, V1Addresses,
    V2Addresses,
};
use mmproxy::relay::{
    choose_listener, listen_mmproxy, listen_reverse_proxy, open_mmproxy, open_reverse_proxy,
    plan_mmproxy_listeners, plan_mmproxy_upstream, plan_reverse_proxy_listeners, relay_from,
    step_mmproxy, step_reverse_proxy, upstream_from, watch, CloseReason, Connections, ListenAction,
    ListenEvent, ListenFailure, Listener, OpenError, RelayAction, RelayEvent,
    Upstream, WatchAction, WatchEvent, MAX_DGRAM_SIZE,
};
use mmproxy::socket::{Domain, SocketStep};
use mmproxy::subnet::IpCidr;

fn v4(ip: u32, port: u16) -> SocketAddr {
    SocketAddr::V4(SocketAddrV4 { ip, port })
}

fn v6(ip: u128, port: u16) -> SocketAddr {
    SocketAddr::V6(SocketAddrV6 { ip, port, flowinfo: 0, scope_id: 0 })
}

fn reverse_args(protocol: Protocol) -> ArgsReverseProxy {
    ArgsReverseProxy {
        help: false,
        listen_addr: v6(0, 443),
        forward_addr: v4(0x0a00_0002, 444),
        listeners: 0,
        close_after: 60,
        protocol,
    }
}

const V1: &[u8] = b"PROXY TCP4 10.0.0.1 10.0.0.2 5000 443\r\nhi";
const V1_CUT: &[u8] = b"PROXY TCP4 10.0.0.1 10.0.0.2 5000 443\r";

#[test]
fn largest_datagram() {
    assert_eq!(MAX_DGRAM_SIZE, 65_507);
}

#[test]
fn listener_follows_mode_and_protocol() {
    let mut args = ArgsMmproxy::defaults();
    assert_eq!(choose_listener(&Command::mmproxy(args.clone())), Listener::TcpMmproxy);
    args.protocol = Protocol::Udp;
    assert_eq!(choose_listener(&Command::mmproxy(args)), Listener::UdpMmproxy);
    let udp = Command::reverseproxy(reverse_args(Protocol::Udp));
    assert_eq!(choose_listener(&udp), Listener::UdpReverseProxy);
    let tcp = Command::reverseproxy(reverse_args(Protocol::Tcp));
    assert_eq!(choose_listener(&tcp), Listener::Unsupported);
}

#[test]
fn connections_are_kept_by_address() {
    let mut connections: Connections<u32> = Connections::new();
    assert!(connections.get(&v4(1, 1)).is_none());
    connections.insert(v4(1, 1), 10);
    connections.insert(v4(1, 2), 20);
    connections.insert(v4(1, 1), 30);
    assert_eq!(connections.get(&v4(1, 1)), Some(&30));
    assert_eq!(connections.get(&v4(1, 2)), Some(&20));
    connections.remove(&v4(1, 1));
    assert_eq!(connections.get(&v4(1, 1)), None);
    assert_eq!(connections.get(&v4(1, 2)), Some(&20));
    connections.remove(&v6(9, 9));
    assert_eq!(connections.get(&v4(1, 2)), Some(&20));
}

#[test]
fn refused_origin_goes_nowhere() {
    let mut args = ArgsMmproxy::defaults();
    args.allowed_subnets = Some(vec![IpCidr::V4 { first: 0x0a00_0000, prefix: 8 }]);
    let mut connections: Connections<u32> = Connections::new();
    connections.insert(v4(0x0b00_0001, 1), 1);
    let event = ListenEvent::Received(v4(0x0b00_0001, 1), b"x");
    assert!(matches!(
        listen_mmproxy(&args, &connections, event),
        ListenAction::Refuse(IpAddr::V4(0x0b00_0001))
    ));
    let event = ListenEvent::Received(v4(0x0a00_0001, 1), b"x");
    match listen_mmproxy(&args, &connections, event) {
        ListenAction::Open(addr, datagram) => {
            assert_eq!(addr, v4(0x0a00_0001, 1));
            assert_eq!(datagram, b"x");
        }
        _ => panic!("not opened"),
    }
}

#[test]
fn without_subnets_every_origin_is_taken() {
    let args = ArgsMmproxy::defaults();
    let mut connections: Connections<u32> = Connections::new();
    connections.insert(v6(7, 1), 42);
    match listen_mmproxy(&args, &connections, ListenEvent::Received(v6(7, 1), b"abc")) {
        ListenAction::Relay(conn, datagram) => {
            assert_eq!(*conn, 42);
            assert_eq!(datagram, b"abc");
        }
        _ => panic!("not relayed"),
    }
    assert!(matches!(
        listen_mmproxy(&args, &connections, ListenEvent::Received(v6(7, 2), b"")),
        ListenAction::Open(_, _)
    ));
}

#[test]
fn listener_ends_on_failures_of_its_sockets_only() {
    let args = ArgsMmproxy::defaults();
    let connections: Connections<u32> = Connections::new();
    for event in [ListenEvent::Relayed, ListenEvent::Opened, ListenEvent::OpenFailed] {
        assert!(matches!(listen_mmproxy(&args, &connections, event), ListenAction::Receive));
        assert!(matches!(listen_reverse_proxy(&connections, event), ListenAction::Receive));
    }
    assert!(matches!(
        listen_reverse_proxy(&connections, ListenEvent::ReceiveFailed),
        ListenAction::Fail(ListenFailure::Accept)
    ));
    assert!(matches!(
        listen_mmproxy(&args, &connections, ListenEvent::RelayFailed),
        ListenAction::Fail(ListenFailure::Upstream)
    ));
}

#[test]
fn given_up_connection_is_forgotten() {
    let mut connections: Connections<u32> = Connections::new();
    connections.insert(v4(1, 1), 10);
    connections.insert(v4(2, 2), 20);
    connections.remove(&v4(1, 1));
    assert!(matches!(
        listen_reverse_proxy(&connections, ListenEvent::Received(v4(1, 1), b"x")),
        ListenAction::Open(_, _)
    ));
    assert!(matches!(
        listen_reverse_proxy(&connections, ListenEvent::Received(v4(2, 2), b"x")),
        ListenAction::Relay(&20, _)
    ));
}

#[test]
fn only_activity_keeps_a_connection() {
    assert_eq!(watch(60, WatchEvent::Opened), WatchAction::Wait(60));
    assert_eq!(watch(60, WatchEvent::Activity), WatchAction::Wait(60));
    assert_eq!(watch(60, WatchEvent::Timeout), WatchAction::GiveUp);
    assert_eq!(watch(60, WatchEvent::Cancelled), WatchAction::GiveUp);
}

/// When a connection is given up that is used at these times, as `watch` decides; in seconds.
fn given_up_at(close_after: u64, uses: &[u64]) -> u64 {
    let mut now = 0;
    let mut event = WatchEvent::Opened;
    let mut uses = uses.iter().copied().peekable();
    loop {
        match watch(close_after, event) {
            WatchAction::GiveUp => return now,
            WatchAction::Wait(seconds) => match uses.next_if(|at| *at <= now + seconds) {
                Some(at) => {
                    now = at;
                    event = WatchEvent::Activity;
                }
                None => {
                    now += seconds;
                    event = WatchEvent::Timeout;
                }
            },
        }
    }
}

#[test]
fn idle_connection_is_given_up_at_its_first_long_pause() {
    assert_eq!(given_up_at(60, &[]), 60);
    assert_eq!(given_up_at(60, &[59, 118]), 178);
    assert_eq!(given_up_at(60, &[10, 71, 72]), 70);
    assert_eq!(given_up_at(0, &[5]), 0);
}

#[test]
fn relaying_restarts_the_time() {
    let addr = v4(8, 8);
    assert!(matches!(step_mmproxy(addr, addr, RelayEvent::Sent), RelayAction::NoteActivity));
    assert!(matches!(step_reverse_proxy(b"h", RelayEvent::Sent), RelayAction::NoteActivity));
    assert_eq!(watch(7, WatchEvent::Activity), WatchAction::Wait(7));
}

#[test]
fn upstream_socket_carries_the_mark() {
    let mut args = ArgsMmproxy::defaults();
    args.mark = 0;
    let peer = v6(0xffff_0a00_0009, 5000);
    let mut datagram = b"\r\n\r\n\0\r\nQUIT\n".to_vec();
    datagram.extend_from_slice(&[0x21, 0x12, 0, 12]);
    datagram.extend_from_slice(&[192, 0, 2, 1, 198, 51, 100, 2, 0x1f, 0x90, 0x01, 0xbb]);
    let upstream = open_mmproxy(&args, peer, &datagram).unwrap();
    assert_eq!(upstream.src_addr, v4(0xc000_0201, 8080));
    assert_eq!(upstream.target_addr, v4(0x7f00_0001, 443));
    for mark in [0, 9] {
        args.mark = mark;
        let plan = plan_mmproxy_upstream(&args, upstream);
        assert_eq!(plan.domain, Domain::Ipv4);
        assert_eq!(
            plan.steps,
            vec![
                SocketStep::IpTransparent,
                SocketStep::Nonblocking,
                SocketStep::ReuseAddress,
                SocketStep::ReusePort,
                SocketStep::Mark(mark),
                SocketStep::Bind(v4(0xc000_0201, 8080)),
                SocketStep::Connect(v4(0x7f00_0001, 443)),
            ]
        );
    }
}

#[test]
fn as_many_sockets_listen_as_the_settings_say() {
    let mut front = reverse_args(Protocol::Udp);
    let mut back = ArgsMmproxy::defaults();
    for (listeners, sockets) in [(0, 1), (1, 1), (3, 3)] {
        front.listeners = listeners;
        back.listeners = listeners;
        assert_eq!(plan_reverse_proxy_listeners(&front).len(), sockets);
        let plans = plan_mmproxy_listeners(&back);
        assert_eq!(plans.len(), sockets);
        for plan in plans {
            assert_eq!(plan.steps.last(), Some(&SocketStep::Bind(back.listen_addr)));
        }
    }
}

#[test]
fn empty_list_of_subnets_refuses_every_origin() {
    let mut args = ArgsMmproxy::defaults();
    args.allowed_subnets = Some(vec![]);
    let connections: Connections<u32> = Connections::new();
    for addr in [v4(1, 1), v6(1, 1)] {
        assert!(matches!(
            listen_mmproxy(&args, &connections, ListenEvent::Received(addr, b"x")),
            ListenAction::Refuse(_)
        ));
    }
}

#[test]
fn opening_follows_what_was_read() {
    let args = ArgsMmproxy::defaults();
    let addr = v4(9, 9);
    let rest: &[u8] = b"";
    let unspec = interpret_header(Ok((ProxyHeader::Version2(V2Addresses::Unspec), rest)));
    assert_eq!(
        upstream_from(&args, addr, unspec).unwrap(),
        Upstream { src_addr: addr, target_addr: v4(0x7f00_0001, 443) }
    );
    let source = SocketAddrV6 { ip: 5, port: 6, flowinfo: 0, scope_id: 0 };
    let ipv6 = V2Addresses::Ipv6 { source, destination: source };
    let parsed = interpret_header(Ok((ProxyHeader::Version2(ipv6), rest)));
    assert_eq!(
        upstream_from(&args, addr, parsed).unwrap(),
        Upstream { src_addr: v6(5, 6), target_addr: v6(1, 443) }
    );
    let old = interpret_header(Ok((ProxyHeader::Version1(V1Addresses::Unknown), rest)));
    assert!(matches!(upstream_from(&args, addr, old), Err(OpenError::Version1)));
    assert!(matches!(
        upstream_from(&args, addr, Err(HeaderError::UnixSockets)),
        Err(OpenError::Header(HeaderError::UnixSockets))
    ));
}

#[test]
fn first_datagram_opens_a_connection() {
    let args = ArgsMmproxy::defaults();
    let client = v4(0x0a00_0001, 5000);
    let header = udp_proxy_header(client, v4(0x0a00_0002, 443)).unwrap();
    let datagram = frame_datagram(&header, b"hello");
    let upstream = open_mmproxy(&args, v4(8, 8), &datagram).unwrap();
    assert_eq!(upstream.src_addr, client);
    assert_eq!(upstream.target_addr, v4(0x7f00_0001, 443));
    assert_eq!(Domain::for_address(upstream.src_addr), Domain::for_address(upstream.target_addr));
}

#[test]
fn bad_first_datagram_opens_nothing() {
    let args = ArgsMmproxy::defaults();
    assert!(matches!(open_mmproxy(&args, v4(8, 8), V1), Err(OpenError::Version1)));
    assert!(matches!(open_mmproxy(&args, v4(8, 8), V1_CUT), Err(OpenError::CutShort)));
    assert!(matches!(
        open_mmproxy(&args, v4(8, 8), b"junk"),
        Err(OpenError::Header(HeaderError::Malformed(_)))
    ));
    assert!(matches!(open_mmproxy(&args, v4(8, 8), b""), Err(OpenError::Header(_))));
}

#[test]
fn reverse_proxy_sends_the_first_datagram_behind_a_header() {
    let args = reverse_args(Protocol::Udp);
    let client = v4(0x0a00_0001, 5000);
    let header = udp_proxy_header(client, args.forward_addr).unwrap();
    let opening = open_reverse_proxy(&args, client, b"hello").unwrap();
    assert_eq!(opening.header, header);
    assert_eq!(opening.first, frame_datagram(&header, b"hello"));
    let empty = open_reverse_proxy(&args, client, b"").unwrap();
    assert_eq!(empty.first, header);
}

#[test]
fn relaying_follows_what_was_read() {
    let addr = v4(9, 9);
    let rest: &[u8] = b"rest";
    let unspec = ProxyHeader::Version2(V2Addresses::Unspec);
    assert!(matches!(
        relay_from(addr, addr, interpret_header(Ok((unspec, rest)))),
        RelayAction::SendToServer(b"rest")
    ));
    assert!(matches!(
        relay_from(addr, v4(9, 8), interpret_header(Ok((unspec, rest)))),
        RelayAction::Close(CloseReason::SourceChanged)
    ));
    let old = ProxyHeader::Version1(V1Addresses::Unknown);
    assert!(matches!(
        relay_from(addr, addr, interpret_header(Ok((old, rest)))),
        RelayAction::Close(CloseReason::Version1)
    ));
    // A changed source is noticed before the version.
    assert!(matches!(
        relay_from(addr, v4(9, 8), interpret_header(Ok((old, rest)))),
        RelayAction::Close(CloseReason::SourceChanged)
    ));
    assert!(matches!(
        relay_from(addr, addr, Err(HeaderError::UnixSockets)),
        RelayAction::Close(CloseReason::Header(HeaderError::UnixSockets))
    ));
}

#[test]
fn proxies_compose() {
    let front = reverse_args(Protocol::Udp);
    let back = ArgsMmproxy::defaults();
    let middle = v4(0x0a00_0009, 40000);
    for client in [v4(0x0a00_0001, 5000), v6(0x2001, 6000), v6(0xffff_0a00_0001, 7000)] {
        let opening = open_reverse_proxy(&front, client, b"first").unwrap();
        let upstream = open_mmproxy(&back, middle, &opening.first).unwrap();
        let next = RelayEvent::FromClient(b"next");
        let sent = match step_reverse_proxy(&opening.header, next) {
            RelayAction::SendToServer(sent) => sent,
            _ => panic!("not sent"),
        };
        match step_mmproxy(middle, upstream.src_addr, RelayEvent::FromClient(&sent)) {
            RelayAction::SendToServer(payload) => assert_eq!(payload, b"next"),
            _ => panic!("not passed on"),
        }
    }
}

#[test]
fn opener_is_passed_on_when_it_comes_again() {
    let args = ArgsMmproxy::defaults();
    let addr = v4(8, 8);
    let header = udp_proxy_header(v6(3, 3), v6(4, 4)).unwrap();
    let datagram = frame_datagram(&header, b"again");
    let upstream = open_mmproxy(&args, addr, &datagram).unwrap();
    assert!(matches!(
        step_mmproxy(addr, upstream.src_addr, RelayEvent::FromClient(&datagram)),
        RelayAction::SendToServer(b"again")
    ));
}

#[test]
fn connection_keeps_its_client() {
    let addr = v4(8, 8);
    let header = udp_proxy_header(v4(3, 3), v4(4, 4)).unwrap();
    let event = RelayEvent::FromClient(&header);
    assert!(matches!(step_mmproxy(addr, v4(3, 3), event), RelayAction::SendToServer(b"")));
    assert!(matches!(
        step_mmproxy(addr, v4(3, 4), event),
        RelayAction::Close(CloseReason::SourceChanged)
    ));
    assert!(matches!(
        step_mmproxy(addr, v4(0x0a00_0001, 5000), RelayEvent::FromClient(V1)),
        RelayAction::Close(CloseReason::Version1)
    ));
    assert!(matches!(
        step_mmproxy(addr, v4(3, 3), RelayEvent::FromClient(b"junk")),
        RelayAction::Close(CloseReason::Header(HeaderError::Malformed(_)))
    ));
    assert!(matches!(
        step_mmproxy(addr, v4(3, 3), RelayEvent::FromClient(V1_CUT)),
        RelayAction::CutShort
    ));
    assert!(matches!(
        step_mmproxy(addr, v4(3, 3), RelayEvent::FromClient(b"")),
        RelayAction::NoteActivity
    ));
}

#[test]
fn other_events_are_answered_alike_in_both_modes() {
    let addr = v4(8, 8);
    assert!(matches!(
        step_mmproxy(addr, addr, RelayEvent::FromServer(b"reply")),
        RelayAction::SendToClient(b"reply")
    ));
    assert!(matches!(
        step_reverse_proxy(b"h", RelayEvent::FromServer(b"reply")),
        RelayAction::SendToClient(b"reply")
    ));
    assert!(matches!(
        step_reverse_proxy(b"h", RelayEvent::FromServer(b"")),
        RelayAction::NoteActivity
    ));
    assert!(matches!(step_mmproxy(addr, addr, RelayEvent::Sent), RelayAction::NoteActivity));
    for event in [RelayEvent::ClientFailed, RelayEvent::SendToClientFailed] {
        assert!(matches!(
            step_mmproxy(addr, addr, event),
            RelayAction::Close(CloseReason::Source)
        ));
        assert!(matches!(
            step_reverse_proxy(b"h", event),
            RelayAction::Close(CloseReason::Source)
        ));
    }
    for event in [RelayEvent::ServerFailed, RelayEvent::SendToServerFailed] {
        assert!(matches!(
            step_mmproxy(addr, addr, event),
            RelayAction::Close(CloseReason::Destination)
        ));
        assert!(matches!(
            step_reverse_proxy(b"h", event),
            RelayAction::Close(CloseReason::Destination)
        ));
    }
    assert!(matches!(step_mmproxy(addr, addr, RelayEvent::Cancelled), RelayAction::Stop));
    assert!(matches!(step_reverse_proxy(b"h", RelayEvent::Cancelled), RelayAction::Stop));
}

#[test]
fn reverse_proxy_frames_what_is_not_empty() {
    match step_reverse_proxy(b"head", RelayEvent::FromClient(b"tail")) {
        RelayAction::SendToServer(sent) => assert_eq!(sent, b"headtail".to_vec()),
        _ => panic!("not sent"),
    }
    assert!(matches!(
        step_reverse_proxy(b"head", RelayEvent::FromClient(b"")),
        RelayAction::NoteActivity
    ));
}
