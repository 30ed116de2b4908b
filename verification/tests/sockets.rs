use mmproxy::addr::{SocketAddr, SocketAddrV4, SocketAddrV6};
use mmproxy::socket::{
    plan_tcp_upstream, plan_udp_listener, plan_udp_listeners, plan_udp_reverse_proxy,
    plan_udp_upstream, Domain, SocketStep,
};

fn v4(ip: u32, port: u16) -> SocketAddr {
    SocketAddr::V4(SocketAddrV4 { ip, port })
}

fn v6(ip: u128, port: u16) -> SocketAddr {
    SocketAddr::V6(SocketAddrV6 { ip, port, flowinfo: 0, scope_id: 0 })
}

#[test]
fn tcp_upstream_has_the_clients_family() {
    let plan = plan_tcp_upstream(v4(1, 2), v6(3, 4), 5);
    assert_eq!(plan.domain, Domain::Ipv4);
    assert_eq!(
        plan.steps,
        vec![
            SocketStep::Nodelay,
            SocketStep::IpTransparent,
            SocketStep::Nonblocking,
            SocketStep::ReuseAddress,
            SocketStep::ReusePort,
            SocketStep::Mark(5),
            SocketStep::Bind(v4(1, 2)),
            SocketStep::Connect(v6(3, 4)),
        ]
    );
}

#[test]
fn udp_upstream_has_the_servers_family() {
    let plan = plan_udp_upstream(v4(1, 2), v6(3, 4), 0);
    assert_eq!(plan.domain, Domain::Ipv6);
    assert_eq!(
        plan.steps,
        vec![
            SocketStep::IpTransparent,
            SocketStep::Nonblocking,
            SocketStep::ReuseAddress,
            SocketStep::ReusePort,
            SocketStep::Mark(0),
            SocketStep::Bind(v4(1, 2)),
            SocketStep::Connect(v6(3, 4)),
        ]
    );
}

#[test]
fn reverse_proxy_socket_is_not_bound() {
    let plan = plan_udp_reverse_proxy(v4(3, 4));
    assert_eq!(plan.domain, Domain::Ipv4);
    assert_eq!(
        plan.steps,
        vec![
            SocketStep::Nonblocking,
            SocketStep::ReuseAddress,
            SocketStep::ReusePort,
            SocketStep::Connect(v4(3, 4)),
        ]
    );
}

#[test]
fn listener_on_any_address_is_dual_stack() {
    let plan = plan_udp_listener(v6(0, 8443));
    assert_eq!(plan.domain, Domain::Ipv6);
    assert_eq!(
        plan.steps,
        vec![
            SocketStep::ReuseAddress,
            SocketStep::ReusePort,
            SocketStep::DualStack,
            SocketStep::Bind(v6(0, 8443)),
        ]
    );
}

#[test]
fn listeners_share_their_address() {
    let one = plan_udp_listener(v4(1, 8443));
    for (listeners, sockets) in [(0, 1), (1, 1), (2, 2), (100, 100)] {
        let plans = plan_udp_listeners(v4(1, 8443), listeners);
        assert_eq!(plans.len(), sockets);
        for plan in plans {
            assert_eq!(plan.domain, one.domain);
            assert_eq!(plan.steps, one.steps);
        }
    }
}

#[test]
fn other_listeners_keep_to_their_family() {
    for addr in [v6(1, 8443), v4(0, 8443), v4(1, 8443)] {
        let plan = plan_udp_listener(addr);
        assert_eq!(plan.domain, Domain::for_address(addr));
        assert_eq!(
            plan.steps,
            vec![SocketStep::ReuseAddress, SocketStep::ReusePort, SocketStep::Bind(addr)]
        );
    }
}
