//! How the sockets of the proxy are prepared.
use vstd::prelude::*;

use crate::addr::SocketAddr;

verus! {

/// The address family of a socket.
#[derive(Clone, Copy, Debug, PartialEq, Eq, Structural)]
pub enum Domain {
    Ipv4,
    Ipv6,
}

/// A step in the preparation of a socket.
#[derive(Clone, Copy, Debug, PartialEq, Eq, Structural)]
pub enum SocketStep {
    /// Send small segments at once.
    Nodelay,
    /// Allow to bind to an address that is not local.
    IpTransparent,
    Nonblocking,
    ReuseAddress,
    ReusePort,
    /// Mark outbound packets.
    Mark(u32),
    /// Take IPv4 traffic on an IPv6 socket.
    DualStack,
    Bind(SocketAddr),
    Connect(SocketAddr),
}

/// A socket to be made: its family, and the steps that follow, in order.
#[derive(Clone, Debug)]
pub struct SocketPlan {
    pub domain: Domain,
    pub steps: Vec<SocketStep>,
}

/// The family of an address.
pub open spec fn domain_of(addr: SocketAddr) -> Domain {
    match addr {
        SocketAddr::V4(_) => Domain::Ipv4,
        SocketAddr::V6(_) => Domain::Ipv6,
    }
}

impl Domain {
    /// Returns the family of an address.
    pub fn for_address(addr: SocketAddr) -> (r: Domain)
        ensures
            r == domain_of(addr),
    {
        match addr {
            SocketAddr::V4(_) => Domain::Ipv4,
            SocketAddr::V6(_) => Domain::Ipv6,
        }
    }
}

/// The steps that let a socket speak with the client's address.
pub open spec fn mmproxy_steps(src: SocketAddr, mark: u32) -> Seq<SocketStep> {
    seq![
        SocketStep::IpTransparent,
        SocketStep::Nonblocking,
        SocketStep::ReuseAddress,
        SocketStep::ReusePort,
        SocketStep::Mark(mark),
        SocketStep::Bind(src),
    ]
}

/// The steps that prepare a socket of the reverse proxy.
pub open spec fn reverse_proxy_steps() -> Seq<SocketStep> {
    seq![SocketStep::Nonblocking, SocketStep::ReuseAddress, SocketStep::ReusePort]
}

/// Adds the steps that let a socket speak with the client's address.
fn setup_socket_mmproxy(steps: &mut Vec<SocketStep>, src: SocketAddr, mark: u32)
    ensures
        final(steps)@ == old(steps)@ + mmproxy_steps(src, mark),
{
    steps.push(SocketStep::IpTransparent);
    steps.push(SocketStep::Nonblocking);
    steps.push(SocketStep::ReuseAddress);
    steps.push(SocketStep::ReusePort);
    steps.push(SocketStep::Mark(mark));
    steps.push(SocketStep::Bind(src));
    assert(steps@ =~= old(steps)@ + mmproxy_steps(src, mark));
}

/// Adds the steps that prepare a socket of the reverse proxy.
fn setup_socket_reverse_proxy(steps: &mut Vec<SocketStep>)
    ensures
        final(steps)@ == old(steps)@ + reverse_proxy_steps(),
{
    steps.push(SocketStep::Nonblocking);
    steps.push(SocketStep::ReuseAddress);
    steps.push(SocketStep::ReusePort);
    assert(steps@ =~= old(steps)@ + reverse_proxy_steps());
}

/// The steps of a TCP connection to the server, on behalf of a client.
pub open spec fn tcp_upstream_steps(src: SocketAddr, target: SocketAddr, mark: u32) -> Seq<
    SocketStep,
> {
    seq![SocketStep::Nodelay] + mmproxy_steps(src, mark) + seq![SocketStep::Connect(target)]
}

/// Plans a TCP connection to the server, on behalf of a client. Its family is the client's.
pub fn plan_tcp_upstream(src: SocketAddr, target: SocketAddr, mark: u32) -> (r: SocketPlan)
    ensures
        r.domain == domain_of(src),
        r.steps@ == tcp_upstream_steps(src, target, mark),
{
    let mut steps: Vec<SocketStep> = Vec::new();
    steps.push(SocketStep::Nodelay);
    setup_socket_mmproxy(&mut steps, src, mark);
    steps.push(SocketStep::Connect(target));
    assert(steps@ =~= tcp_upstream_steps(src, target, mark));
    SocketPlan { domain: Domain::for_address(src), steps }
}

/// The steps of a UDP socket towards the server, on behalf of a client.
pub open spec fn udp_upstream_steps(src: SocketAddr, target: SocketAddr, mark: u32) -> Seq<
    SocketStep,
> {
    mmproxy_steps(src, mark).push(SocketStep::Connect(target))
}

/// Plans a UDP socket towards the server, on behalf of a client. Its family is the server's.
pub fn plan_udp_upstream(src: SocketAddr, target: SocketAddr, mark: u32) -> (r: SocketPlan)
    ensures
        r.domain == domain_of(target),
        r.steps@ == udp_upstream_steps(src, target, mark),
{
    let mut steps: Vec<SocketStep> = Vec::new();
    setup_socket_mmproxy(&mut steps, src, mark);
    steps.push(SocketStep::Connect(target));
    assert(steps@ =~= udp_upstream_steps(src, target, mark));
    SocketPlan { domain: Domain::for_address(target), steps }
}

/// Plans a UDP socket of the reverse proxy towards the server.
pub fn plan_udp_reverse_proxy(target: SocketAddr) -> (r: SocketPlan)
    ensures
        r.domain == domain_of(target),
        r.steps@ == reverse_proxy_steps().push(SocketStep::Connect(target)),
{
    let mut steps: Vec<SocketStep> = Vec::new();
    setup_socket_reverse_proxy(&mut steps);
    steps.push(SocketStep::Connect(target));
    assert(steps@ =~= reverse_proxy_steps().push(SocketStep::Connect(target)));
    SocketPlan { domain: Domain::for_address(target), steps }
}

/// The address is the IPv6 address `::`, which stands for all local addresses.
pub open spec fn is_any_v6(addr: SocketAddr) -> bool {
    addr matches SocketAddr::V6(v6) && v6.ip == 0
}

/// The steps of a socket that listens for datagrams. On `::` it takes IPv4 traffic too.
pub open spec fn udp_listener_steps(listen_addr: SocketAddr) -> Seq<SocketStep> {
    if is_any_v6(listen_addr) {
        seq![
            SocketStep::ReuseAddress,
            SocketStep::ReusePort,
            SocketStep::DualStack,
            SocketStep::Bind(listen_addr),
        ]
    } else {
        seq![SocketStep::ReuseAddress, SocketStep::ReusePort, SocketStep::Bind(listen_addr)]
    }
}

/// Plans a socket that listens for datagrams.
pub fn plan_udp_listener(listen_addr: SocketAddr) -> (r: SocketPlan)
    ensures
        r.domain == domain_of(listen_addr),
        r.steps@ == udp_listener_steps(listen_addr),
{
    let mut steps: Vec<SocketStep> = Vec::new();
    steps.push(SocketStep::ReuseAddress);
    steps.push(SocketStep::ReusePort);
    if let SocketAddr::V6(v6) = listen_addr {
        if v6.ip == 0 {
            steps.push(SocketStep::DualStack);
        }
    }
    steps.push(SocketStep::Bind(listen_addr));
    assert(steps@ =~= udp_listener_steps(listen_addr));
    SocketPlan { domain: Domain::for_address(listen_addr), steps }
}

/// How many sockets listen where this number of listeners is set: one at least.
pub open spec fn listener_sockets(listeners: u32) -> nat {
    if listeners == 0 {
        1
    } else {
        listeners as nat
    }
}

/// These are the plans of so many sockets that listen on one address.
pub open spec fn plans_listeners(
    plans: Seq<SocketPlan>,
    listen_addr: SocketAddr,
    listeners: u32,
) -> bool {
    &&& plans.len() == listener_sockets(listeners)
    &&& forall|i: int|
        0 <= i < plans.len() ==> (#[trigger] plans[i]).domain == domain_of(listen_addr)
            && plans[i].steps@ == udp_listener_steps(listen_addr)
}

/// Plans all the sockets that listen for datagrams on one address.
pub fn plan_udp_listeners(listen_addr: SocketAddr, listeners: u32) -> (r: Vec<SocketPlan>)
    ensures
        plans_listeners(r@, listen_addr, listeners),
{
    let mut plans: Vec<SocketPlan> = Vec::new();
    plans.push(plan_udp_listener(listen_addr));
    let mut planned: u32 = 1;
    while planned < listeners
        invariant
            1 <= planned,
            planned <= listener_sockets(listeners),
            plans@.len() == planned,
            forall|i: int|
                0 <= i < plans@.len() ==> (#[trigger] plans@[i]).domain == domain_of(listen_addr)
                    && plans@[i].steps@ == udp_listener_steps(listen_addr),
        decreases listeners - planned,
    {
        plans.push(plan_udp_listener(listen_addr));
        planned += 1;
    }
    plans
}

/// Every socket of a listener shares its address and port with the others, is bound to the address
/// it listens on, and to no other.
pub proof fn law_listeners_share_their_address(listen_addr: SocketAddr)
    ensures
        ({
            let steps = udp_listener_steps(listen_addr);
            &&& steps[0] == SocketStep::ReuseAddress && steps[1] == SocketStep::ReusePort
            &&& steps.last() == SocketStep::Bind(listen_addr)
            &&& forall|i: int| 0 <= i < steps.len() - 1 ==> !(#[trigger] steps[i] is Bind)
        }),
{
}

/// Among the steps, the socket is made transparent, then bound to the client's address, and then
/// connected, all before anything else connects it.
pub open spec fn speaks_as(steps: Seq<SocketStep>, src: SocketAddr, target: SocketAddr) -> bool {
    exists|t: int, b: int|
        {
            &&& 0 <= t < b < steps.len() - 1
            &&& #[trigger] steps[t] == SocketStep::IpTransparent
            &&& #[trigger] steps[b] == SocketStep::Bind(src)
            &&& steps.last() == SocketStep::Connect(target)
            &&& forall|i: int| 0 <= i < steps.len() - 1 ==> !(#[trigger] steps[i] is Connect)
            &&& forall|i: int|
                0 <= i < steps.len() && i != b ==> !(#[trigger] steps[i] is Bind)
        }
}

/// The sockets towards the server carry the client's address: they may bind to it, are bound to
/// it and to no other, and connect last.
pub proof fn law_upstream_speaks_as_client(src: SocketAddr, target: SocketAddr, mark: u32)
    ensures
        speaks_as(udp_upstream_steps(src, target, mark), src, target),
        speaks_as(tcp_upstream_steps(src, target, mark), src, target),
{
    let udp = udp_upstream_steps(src, target, mark);
    assert(udp[0] == SocketStep::IpTransparent && udp[5] == SocketStep::Bind(src));
    let tcp = tcp_upstream_steps(src, target, mark);
    assert(tcp[1] == SocketStep::IpTransparent && tcp[6] == SocketStep::Bind(src));
}

/// A socket is of IPv4 exactly where its address is.
pub proof fn law_family_follows_the_address(addr: SocketAddr)
    ensures
        domain_of(addr) == Domain::Ipv4 <==> addr is V4,
        domain_of(addr) == Domain::Ipv6 <==> addr is V6,
{
}

/// A socket towards the server, on behalf of a client, is transparent, does not block, shares its
/// address and port, carries the mark that was asked for and no other, is bound to the client and
/// connected to the server; over TCP it also sends at once. Nothing else is done to it.
pub proof fn law_upstream_steps(
    src: SocketAddr,
    target: SocketAddr,
    mark: u32,
    step: SocketStep,
)
    ensures
        udp_upstream_steps(src, target, mark).contains(step) <==> match step {
            SocketStep::IpTransparent
            | SocketStep::Nonblocking
            | SocketStep::ReuseAddress
            | SocketStep::ReusePort => true,
            SocketStep::Mark(m) => m == mark,
            SocketStep::Bind(addr) => addr == src,
            SocketStep::Connect(addr) => addr == target,
            SocketStep::Nodelay | SocketStep::DualStack => false,
        },
        tcp_upstream_steps(src, target, mark).contains(step) <==> step is Nodelay
            || udp_upstream_steps(src, target, mark).contains(step),
        udp_upstream_steps(src, target, mark).len() == 7,
        tcp_upstream_steps(src, target, mark).len() == 8,
{
    let udp = udp_upstream_steps(src, target, mark);
    assert(udp[0] == SocketStep::IpTransparent);
    assert(udp[1] == SocketStep::Nonblocking);
    assert(udp[2] == SocketStep::ReuseAddress);
    assert(udp[3] == SocketStep::ReusePort);
    assert(udp[4] == SocketStep::Mark(mark));
    assert(udp[5] == SocketStep::Bind(src));
    assert(udp[6] == SocketStep::Connect(target));
    let tcp = tcp_upstream_steps(src, target, mark);
    assert(tcp[0] == SocketStep::Nodelay);
    assert forall|i: int| 0 <= i < 7 implies #[trigger] tcp[i + 1] == udp[i] by {}
    if udp.contains(step) {
        let i = choose|i: int| 0 <= i < udp.len() && udp[i] == step;
        assert(tcp[i + 1] == step);
    }
    if tcp.contains(step) {
        let i = choose|i: int| 0 <= i < tcp.len() && tcp[i] == step;
        if i > 0 {
            assert(tcp[(i - 1) + 1] == udp[i - 1]);
        }
    }
}

/// A socket of the reverse proxy towards the server does not block, shares its address and port and
/// is connected to the server. Nothing else is done to it: it speaks with the proxy's own address.
pub proof fn law_reverse_proxy_steps(target: SocketAddr, step: SocketStep)
    ensures
        ({
            let steps = reverse_proxy_steps().push(SocketStep::Connect(target));
            steps.contains(step) <==> match step {
                SocketStep::Nonblocking | SocketStep::ReuseAddress | SocketStep::ReusePort => true,
                SocketStep::Connect(addr) => addr == target,
                _ => false,
            }
        }),
{
    let steps = reverse_proxy_steps().push(SocketStep::Connect(target));
    assert(steps[0] == SocketStep::Nonblocking);
    assert(steps[1] == SocketStep::ReuseAddress);
    assert(steps[2] == SocketStep::ReusePort);
    assert(steps[3] == SocketStep::Connect(target));
}

/// A socket that listens shares its address and port and is bound to the address that was asked
/// for; it takes IPv4 traffic too exactly where that address is `::`. Nothing else is done to it.
pub proof fn law_listener_steps(listen_addr: SocketAddr, step: SocketStep)
    ensures
        udp_listener_steps(listen_addr).contains(step) <==> match step {
            SocketStep::ReuseAddress | SocketStep::ReusePort => true,
            SocketStep::Bind(addr) => addr == listen_addr,
            SocketStep::DualStack => match listen_addr {
                SocketAddr::V4(_) => false,
                SocketAddr::V6(v6) => v6.ip == 0,
            },
            _ => false,
        },
{
    let steps = udp_listener_steps(listen_addr);
    assert(steps[0] == SocketStep::ReuseAddress);
    assert(steps[1] == SocketStep::ReusePort);
    assert(steps[steps.len() - 1] == SocketStep::Bind(listen_addr));
    if is_any_v6(listen_addr) {
        assert(steps[2] == SocketStep::DualStack);
    }
}

/// As many sockets listen as the settings say, one where they say none, and each is bound to the
/// address that they name.
pub proof fn law_as_many_listeners_as_asked(
    plans: Seq<SocketPlan>,
    listen_addr: SocketAddr,
    listeners: u32,
    i: int,
)
    requires
        plans_listeners(plans, listen_addr, listeners),
        0 <= i < plans.len(),
    ensures
        listeners > 0 ==> plans.len() == listeners,
        listeners == 0 ==> plans.len() == 1,
        plans[i].steps@.last() == SocketStep::Bind(listen_addr),
        plans[i].steps@ == udp_listener_steps(listen_addr),
        plans[i].domain == Domain::Ipv4 <==> listen_addr is V4,
{
    law_listeners_share_their_address(listen_addr);
}

} // verus!
