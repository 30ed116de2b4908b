//! What the listeners do with datagrams.
use vstd::prelude::*;

use crate::addr::{IpAddr, SocketAddr};
use crate::args::{ArgsMmproxy, ArgsReverseProxy, Command, Protocol};
use crate::header::{
    addresses_for, announced_destination, announced_source, be_value, carries, frame_datagram,
    header_cut_short, header_fields, law_header_addresses, law_header_announces_the_client,
    law_v2_header_layout, law_v2_header_len, opens_as_v2, proxy_header,
    try_parse_proxy_protocol_header, udp_proxy_header, v2_header, v2_signature, HeaderError,
    ProxyCommand, ProxyHeader, ProxyProtocolResult, ProxyTransportProtocol, V1Addresses,
    V2Addresses,
};
use crate::socket::{
    domain_of, plan_udp_listeners, plan_udp_upstream, plans_listeners, udp_upstream_steps,
    SocketPlan,
};
use crate::subnet::{check_origin_allowed, origin_allowed, IpCidr};

verus! {

/// The most bytes that a UDP datagram can carry.
pub const MAX_DGRAM_SIZE: usize = 65_507;

// ---------------------------------------------------------------------------------------------
// Choosing a listener
// ---------------------------------------------------------------------------------------------

/// The listeners of the program.
#[derive(Clone, Copy, Debug, PartialEq, Eq, Structural)]
pub enum Listener {
    TcpMmproxy,
    UdpMmproxy,
    UdpReverseProxy,
    /// There is no reverse proxy for TCP.
    Unsupported,
}

/// The listener that serves a mode and its protocol.
pub open spec fn listener_for(command: Command) -> Listener {
    match command {
        Command::mmproxy(args) => match args.protocol {
            Protocol::Tcp => Listener::TcpMmproxy,
            Protocol::Udp => Listener::UdpMmproxy,
        },
        Command::reverseproxy(args) => match args.protocol {
            Protocol::Tcp => Listener::Unsupported,
            Protocol::Udp => Listener::UdpReverseProxy,
        },
    }
}

/// Chooses the listener that serves a mode and its protocol.
pub fn choose_listener(command: &Command) -> (r: Listener)
    ensures
        r == listener_for(*command),
{
    match command {
        Command::mmproxy(args) => match args.protocol {
            Protocol::Tcp => Listener::TcpMmproxy,
            Protocol::Udp => Listener::UdpMmproxy,
        },
        Command::reverseproxy(args) => match args.protocol {
            Protocol::Tcp => Listener::Unsupported,
            Protocol::Udp => Listener::UdpReverseProxy,
        },
    }
}

// ---------------------------------------------------------------------------------------------
// Open connections
// ---------------------------------------------------------------------------------------------

/// The connections of a listener, each under the address of its client.
pub struct Connections<C> {
    entries: Vec<(SocketAddr, C)>,
}

impl<C> View for Connections<C> {
    type V = Map<SocketAddr, C>;

    closed spec fn view(&self) -> Map<SocketAddr, C> {
        Map::new(
            |addr: SocketAddr| exists|i: int|
                0 <= i < self.entries@.len() && (#[trigger] self.entries@[i]).0 == addr,
            |addr: SocketAddr|
                self.entries@[choose|i: int|
                    0 <= i < self.entries@.len() && (#[trigger] self.entries@[i]).0 == addr].1,
        )
    }
}

impl<C> Connections<C> {
    /// No address occurs twice.
    pub closed spec fn wf(self) -> bool {
        forall|i: int, j: int|
            0 <= i < j < self.entries@.len() ==> (#[trigger] self.entries@[i]).0 != (
            #[trigger] self.entries@[j]).0
    }

    proof fn lemma_entry(self, i: int)
        requires
            self.wf(),
            0 <= i < self.entries@.len(),
        ensures
            self@.contains_key(self.entries@[i].0),
            self@[self.entries@[i].0] == self.entries@[i].1,
    {
        let addr = self.entries@[i].0;
        let k = choose|k: int|
            0 <= k < self.entries@.len() && (#[trigger] self.entries@[k]).0 == addr;
        assert(k == i);
    }

    /// No connection.
    pub fn new() -> (r: Self)
        ensures
            r.wf(),
            r@ == Map::<SocketAddr, C>::empty(),
    {
        let r = Connections { entries: Vec::new() };
        assert(r@ =~= Map::empty());
        r
    }

    /// Where the connection of a client stands among the entries.
    fn find(&self, addr: &SocketAddr) -> (r: Option<usize>)
        requires
            self.wf(),
        ensures
            match r {
                Some(i) => i < self.entries@.len() && self.entries@[i as int].0 == *addr,
                None => forall|i: int| 0 <= i < self.entries@.len() ==> (
                #[trigger] self.entries@[i]).0 != *addr,
            },
    {
        let mut i: usize = 0;
        while i < self.entries.len()
            invariant
                i <= self.entries@.len(),
                forall|k: int| 0 <= k < i ==> (#[trigger] self.entries@[k]).0 != *addr,
            decreases self.entries@.len() - i,
        {
            if self.entries[i].0 == *addr {
                return Some(i);
            }
            i += 1;
        }
        None
    }

    /// The connection of a client.
    pub fn get(&self, addr: &SocketAddr) -> (r: Option<&C>)
        requires
            self.wf(),
        ensures
            match r {
                Some(conn) => self@.contains_key(*addr) && self@[*addr] == *conn,
                None => !self@.contains_key(*addr),
            },
    {
        match self.find(addr) {
            Some(i) => {
                proof {
                    self.lemma_entry(i as int);
                }
                Some(&self.entries[i].1)
            },
            None => None,
        }
    }

    /// Adds the connection of a client, in place of the one it had.
    pub fn insert(&mut self, addr: SocketAddr, conn: C)
        requires
            old(self).wf(),
        ensures
            final(self).wf(),
            final(self)@ == old(self)@.insert(addr, conn),
    {
        self.remove(&addr);
        let ghost kept = *self;
        self.entries.push((addr, conn));
        proof {
            let n = kept.entries@.len() as int;
            assert(self.entries@[n] == (addr, conn));
            assert forall|i: int| 0 <= i < n implies (#[trigger] self.entries@[i]).0 != addr by {
                kept.lemma_entry(i);
                assert(self.entries@[i] == kept.entries@[i]);
            }
            assert(self.wf());
            assert forall|a: SocketAddr| #[trigger]
                self@.contains_key(a) == old(self)@.insert(addr, conn).contains_key(a) by {
                if self@.contains_key(a) && a != addr {
                    let i = choose|i: int|
                        0 <= i < self.entries@.len() && (#[trigger] self.entries@[i]).0 == a;
                    assert(kept.entries@[i].0 == a);
                    kept.lemma_entry(i);
                }
                if kept@.contains_key(a) {
                    let i = choose|i: int|
                        0 <= i < kept.entries@.len() && (#[trigger] kept.entries@[i]).0 == a;
                    assert(self.entries@[i].0 == a);
                    self.lemma_entry(i);
                }
                self.lemma_entry(n);
            }
            assert forall|a: SocketAddr| #[trigger] self@.contains_key(a) implies self@[a]
                == old(self)@.insert(addr, conn)[a] by {
                let i = choose|i: int|
                    0 <= i < self.entries@.len() && (#[trigger] self.entries@[i]).0 == a;
                self.lemma_entry(i);
                if i < n {
                    assert(self.entries@[i] == kept.entries@[i]);
                    kept.lemma_entry(i);
                }
            }
            assert(self@ =~= old(self)@.insert(addr, conn));
        }
    }

    /// Drops the connection of a client, if there is one.
    pub fn remove(&mut self, addr: &SocketAddr)
        requires
            old(self).wf(),
        ensures
            final(self).wf(),
            final(self)@ == old(self)@.remove(*addr),
    {
        let ghost before = *self;
        match self.find(addr) {
            Some(k) => {
                self.entries.remove(k);
                proof {
                    let k = k as int;
                    assert forall|i: int| 0 <= i < self.entries@.len() implies (
                    #[trigger] self.entries@[i]) == before.entries@[if i < k {
                        i
                    } else {
                        i + 1
                    }] by {}
                    assert(self.wf());
                    assert forall|a: SocketAddr| #[trigger]
                        self@.contains_key(a) == before@.remove(*addr).contains_key(a) by {
                        if self@.contains_key(a) {
                            let i = choose|i: int|
                                0 <= i < self.entries@.len() && (#[trigger] self.entries@[i]).0
                                    == a;
                            let j = if i < k {
                                i
                            } else {
                                i + 1
                            };
                            assert(before.entries@[j].0 == a);
                            before.lemma_entry(j);
                            assert(before.entries@[k].0 == *addr);
                        }
                        if before@.contains_key(a) && a != *addr {
                            let j = choose|j: int|
                                0 <= j < before.entries@.len() && (#[trigger] before.entries@[j]).0
                                    == a;
                            let i = if j < k {
                                j
                            } else {
                                j - 1
                            };
                            assert(self.entries@[i].0 == a);
                            self.lemma_entry(i);
                        }
                    }
                    assert forall|a: SocketAddr| #[trigger] self@.contains_key(a) implies self@[a]
                        == before@[a] by {
                        let i = choose|i: int|
                            0 <= i < self.entries@.len() && (#[trigger] self.entries@[i]).0 == a;
                        self.lemma_entry(i);
                        before.lemma_entry(
                            if i < k {
                                i
                            } else {
                                i + 1
                            },
                        );
                    }
                    assert(self@ =~= before@.remove(*addr));
                }
            },
            None => {
                assert(self@ =~= before@.remove(*addr));
            },
        }
    }
}

// ---------------------------------------------------------------------------------------------
// Datagrams at the listener
// ---------------------------------------------------------------------------------------------

/// Something that happens to a listener.
#[derive(Clone, Copy, Debug)]
pub enum ListenEvent<'a> {
    /// A datagram came from this address.
    Received(SocketAddr, &'a [u8]),
    /// The socket failed to receive.
    ReceiveFailed,
    /// A datagram went on to the server of its connection.
    Relayed,
    /// A datagram could not go on to the server of its connection.
    RelayFailed,
    /// A connection was opened.
    Opened,
    /// A connection could not be opened.
    OpenFailed,
}

/// Why a listener ends.
#[derive(Clone, Copy, Debug, PartialEq, Eq, Structural)]
pub enum ListenFailure {
    /// The socket failed to receive.
    Accept,
    /// A datagram could not go on to the server of its connection.
    Upstream,
}

/// What a listener does.
#[derive(Debug)]
pub enum ListenAction<'c, 'a, C> {
    /// Wait for the next datagram.
    Receive,
    /// Drop a datagram whose origin is not allowed, and wait for the next.
    Refuse(IpAddr),
    /// Send a datagram, as it is, over the connection that it belongs to.
    Relay(&'c C, &'a [u8]),
    /// Open a connection with a datagram from this address.
    Open(SocketAddr, &'a [u8]),
    /// End.
    Fail(ListenFailure),
}

/// The listener takes datagrams from this address.
pub open spec fn origin_accepted(allowed: Option<Seq<IpCidr>>, ip: IpAddr) -> bool {
    match allowed {
        Some(nets) => origin_allowed(ip, nets),
        None => true,
    }
}

/// What a listener does that takes datagrams from these subnets and has these connections.
pub open spec fn listen_step<'c, 'a, C>(
    allowed: Option<Seq<IpCidr>>,
    connections: Map<SocketAddr, C>,
    event: ListenEvent<'a>,
) -> ListenAction<'c, 'a, C> {
    match event {
        ListenEvent::Received(addr, datagram) => if !origin_accepted(allowed, addr.spec_ip()) {
            ListenAction::Refuse(addr.spec_ip())
        } else if connections.contains_key(addr) {
            ListenAction::Relay(&connections[addr], datagram)
        } else {
            ListenAction::Open(addr, datagram)
        },
        ListenEvent::ReceiveFailed => ListenAction::Fail(ListenFailure::Accept),
        ListenEvent::RelayFailed => ListenAction::Fail(ListenFailure::Upstream),
        ListenEvent::Relayed | ListenEvent::Opened | ListenEvent::OpenFailed => {
            ListenAction::Receive
        },
    }
}

/// Plans the sockets on which `mmproxy` listens.
pub fn plan_mmproxy_listeners(args: &ArgsMmproxy) -> (r: Vec<SocketPlan>)
    ensures
        plans_listeners(r@, args.listen_addr, args.listeners),
{
    plan_udp_listeners(args.listen_addr, args.listeners)
}

/// Plans the sockets on which the reverse proxy listens.
pub fn plan_reverse_proxy_listeners(args: &ArgsReverseProxy) -> (r: Vec<SocketPlan>)
    ensures
        plans_listeners(r@, args.listen_addr, args.listeners),
{
    plan_udp_listeners(args.listen_addr, args.listeners)
}

/// Decides what the listener of `mmproxy` does. The origin of a datagram is judged before
/// anything else.
pub fn listen_mmproxy<'c, 'a, C>(
    args: &ArgsMmproxy,
    connections: &'c Connections<C>,
    event: ListenEvent<'a>,
) -> (r: ListenAction<'c, 'a, C>)
    requires
        args.nets_wf(),
        connections.wf(),
    ensures
        r == listen_step(args@.allowed_subnets, connections@, event),
        event matches ListenEvent::Received(addr, _) ==> (r is Refuse <==> (
        args.allowed_subnets matches Some(nets) && !origin_allowed(addr.spec_ip(), nets@))),
{
    if let ListenEvent::Received(addr, _) = event {
        if let Some(nets) = &args.allowed_subnets {
            let ip_addr = addr.ip();
            if !check_origin_allowed(&ip_addr, nets.as_slice()) {
                return ListenAction::Refuse(ip_addr);
            }
        }
    }
    listen_reverse_proxy(connections, event)
}

/// Decides what the listener of the reverse proxy does. It takes datagrams from everywhere.
pub fn listen_reverse_proxy<'c, 'a, C>(
    connections: &'c Connections<C>,
    event: ListenEvent<'a>,
) -> (r: ListenAction<'c, 'a, C>)
    requires
        connections.wf(),
    ensures
        r == listen_step(None, connections@, event),
{
    match event {
        ListenEvent::Received(addr, datagram) => match connections.get(&addr) {
            Some(conn) => ListenAction::Relay(conn, datagram),
            None => ListenAction::Open(addr, datagram),
        },
        ListenEvent::ReceiveFailed => ListenAction::Fail(ListenFailure::Accept),
        ListenEvent::RelayFailed => ListenAction::Fail(ListenFailure::Upstream),
        ListenEvent::Relayed | ListenEvent::Opened | ListenEvent::OpenFailed => {
            ListenAction::Receive
        },
    }
}

// ---------------------------------------------------------------------------------------------
// Opening a connection
// ---------------------------------------------------------------------------------------------

/// How `mmproxy` speaks with the server for a client.
#[derive(Clone, Copy, Debug, PartialEq, Eq, Structural)]
pub struct Upstream {
    /// The client's address, as the header gives it.
    pub src_addr: SocketAddr,
    /// The server's address.
    pub target_addr: SocketAddr,
}

/// Why a datagram opens no connection. `S` is the type of texts.
#[derive(Clone, Debug, PartialEq, Eq)]
pub enum OpenError<S> {
    /// It has no usable header.
    Header(HeaderError<S>),
    /// Its header is of version 1, which does not speak of datagrams.
    Version1,
    /// It breaks off inside its header.
    CutShort,
}

impl View for OpenError<String> {
    type V = OpenError<Seq<char>>;

    open spec fn view(&self) -> OpenError<Seq<char>> {
        match self {
            OpenError::Header(err) => OpenError::Header(err@),
            OpenError::Version1 => OpenError::Version1,
            OpenError::CutShort => OpenError::CutShort,
        }
    }
}

/// The client's address: the source in the header, or else the address the datagram came from.
pub open spec fn source_of(pair: Option<(SocketAddr, SocketAddr)>, addr: SocketAddr) -> SocketAddr {
    match pair {
        Some((source, _)) => source,
        None => addr,
    }
}

/// The server for a client: one for each address family.
pub open spec fn target_for(args: ArgsMmproxy, src_addr: SocketAddr) -> SocketAddr {
    match src_addr {
        SocketAddr::V4(_) => args.ipv4_fwd,
        SocketAddr::V6(_) => args.ipv6_fwd,
    }
}

/// The connection that a header with these endpoints opens.
pub open spec fn upstream_with(
    args: ArgsMmproxy,
    addr: SocketAddr,
    pair: Option<(SocketAddr, SocketAddr)>,
) -> Upstream {
    let src_addr = source_of(pair, addr);
    Upstream { src_addr, target_addr: target_for(args, src_addr) }
}

/// Decides which connection a header opens, from what was read of it.
pub fn upstream_from(args: &ArgsMmproxy, addr: SocketAddr, parsed: ProxyProtocolResult<'_>) -> (r:
    Result<Upstream, OpenError<String>>)
    ensures
        r == match parsed {
            Err(err) => Err(OpenError::Header(err)),
            Ok((pair, _, version)) => if version < 2 {
                Err(OpenError::Version1)
            } else {
                Ok(upstream_with(*args, addr, pair))
            },
        },
        r matches Ok(u) ==> u.target_addr == (if u.src_addr is V4 {
            args.ipv4_fwd
        } else {
            args.ipv6_fwd
        }),
{
    let (src_addr, version) = match parsed {
        Ok((addr_pair, _, version)) => match addr_pair {
            Some((src, _)) => (src, version),
            None => (addr, version),
        },
        Err(err) => return Err(OpenError::Header(err)),
    };
    if version < 2 {
        return Err(OpenError::Version1);
    }
    let target_addr = match src_addr {
        SocketAddr::V4(_) => args.ipv4_fwd,
        SocketAddr::V6(_) => args.ipv6_fwd,
    };
    Ok(Upstream { src_addr, target_addr })
}

/// The connection that a datagram from `addr` opens, or why it opens none.
pub open spec fn upstream_for(args: ArgsMmproxy, addr: SocketAddr, datagram: Seq<u8>) -> Result<
    Upstream,
    OpenError<Seq<char>>,
> {
    if header_cut_short(datagram) {
        Err(OpenError::CutShort)
    } else {
        match header_fields(datagram) {
            Err(err) => Err(OpenError::Header(err)),
            Ok((pair, _, version)) => if version < 2 {
                Err(OpenError::Version1)
            } else {
                Ok(upstream_with(args, addr, pair))
            },
        }
    }
}

/// Decides how `mmproxy` answers the first datagram of a client. What stands behind its header is
/// not passed on. Only a datagram that opens with the signature of version 2 opens a connection.
pub fn open_mmproxy(args: &ArgsMmproxy, addr: SocketAddr, datagram: &[u8]) -> (r: Result<
    Upstream,
    OpenError<String>,
>)
    ensures
        match r {
            Ok(upstream) => upstream_for(*args, addr, datagram@) == Ok::<
                _,
                OpenError<Seq<char>>,
            >(upstream) && opens_as_v2(datagram@),
            Err(err) => upstream_for(*args, addr, datagram@) == Err::<Upstream, _>(err@),
        },
        r matches Ok(u) ==> u.target_addr == (if u.src_addr is V4 {
            args.ipv4_fwd
        } else {
            args.ipv6_fwd
        }),
{
    match try_parse_proxy_protocol_header(datagram) {
        Some(parsed) => upstream_from(args, addr, parsed),
        None => Err(OpenError::CutShort),
    }
}

/// Plans the socket of a connection of `mmproxy`: it is bound to the client's address, connected to
/// the server's, and its packets carry the mark of the settings.
pub fn plan_mmproxy_upstream(args: &ArgsMmproxy, upstream: Upstream) -> (r: SocketPlan)
    ensures
        r.domain == domain_of(upstream.target_addr),
        r.steps@ == udp_upstream_steps(upstream.src_addr, upstream.target_addr, args.mark),
{
    plan_udp_upstream(upstream.src_addr, upstream.target_addr, args.mark)
}

/// How the reverse proxy begins to speak with the server for a client.
#[derive(Clone, Debug)]
pub struct Opening {
    /// The header of every datagram of the client.
    pub header: Vec<u8>,
    /// The first datagram to the server.
    pub first: Vec<u8>,
}

/// The header of the datagrams of a client.
pub open spec fn client_header(args: ArgsReverseProxy, addr: SocketAddr) -> Seq<u8> {
    v2_header(
        ProxyCommand::Proxy,
        ProxyTransportProtocol::Datagram,
        addresses_for(addr, args.forward_addr),
    )
}

/// Decides how the reverse proxy answers the first datagram of a client: the datagram goes on
/// behind a header, even where it is empty.
pub fn open_reverse_proxy(args: &ArgsReverseProxy, addr: SocketAddr, datagram: &[u8]) -> (r: Result<
    Opening,
    proxy_protocol::EncodeError,
>)
    requires
        client_header(*args, addr).len() + datagram@.len() <= isize::MAX,
    ensures
        r is Ok,
        r matches Ok(opening) ==> {
            &&& opening.header@ == client_header(*args, addr)
            &&& opening.first@ == client_header(*args, addr) + datagram@
            &&& carries(
                opening.header@,
                announced_source(addr),
                announced_destination(addr, args.forward_addr),
            )
        },
{
    match udp_proxy_header(addr, args.forward_addr) {
        Ok(header) => {
            let first = frame_datagram(header.as_slice(), datagram);
            Ok(Opening { header, first })
        },
        Err(err) => Err(err),
    }
}

// ---------------------------------------------------------------------------------------------
// Datagrams of a connection
// ---------------------------------------------------------------------------------------------

/// Something that happens to a connection.
#[derive(Clone, Copy, Debug)]
pub enum RelayEvent<'a> {
    /// The client's socket received a datagram.
    FromClient(&'a [u8]),
    /// The client's socket failed to receive.
    ClientFailed,
    /// The server's socket received a datagram.
    FromServer(&'a [u8]),
    /// The server's socket failed to receive.
    ServerFailed,
    /// A datagram was sent.
    Sent,
    /// A datagram could not be sent to the server.
    SendToServerFailed,
    /// A datagram could not be sent to the client.
    SendToClientFailed,
    /// The connection was given up elsewhere.
    Cancelled,
}

/// Why a connection is given up.
#[derive(Clone, Debug, PartialEq, Eq)]
pub enum CloseReason {
    /// A datagram has no usable header.
    Header(HeaderError<String>),
    /// A datagram names another client.
    SourceChanged,
    /// A header is of version 1.
    Version1,
    /// The socket towards the client failed.
    Source,
    /// The socket towards the server failed.
    Destination,
}

/// What is done for a connection. `B` is the type of what is sent to the server.
#[derive(Debug)]
pub enum RelayAction<'a, B> {
    SendToServer(B),
    SendToClient(&'a [u8]),
    /// Nothing is left to do but to note that the connection is in use.
    NoteActivity,
    /// Tell everyone who works for the connection that it is given up.
    Close(CloseReason),
    /// Stop working for the connection.
    Stop,
    /// A datagram breaks off inside its header.
    CutShort,
}

/// What both modes do on everything but a client's datagram.
pub open spec fn common_step<'a, B>(event: RelayEvent<'a>) -> RelayAction<'a, B> {
    match event {
        RelayEvent::FromServer(datagram) => if datagram@.len() > 0 {
            RelayAction::SendToClient(datagram)
        } else {
            RelayAction::NoteActivity
        },
        RelayEvent::Sent | RelayEvent::FromClient(_) => RelayAction::NoteActivity,
        RelayEvent::ClientFailed | RelayEvent::SendToClientFailed => RelayAction::Close(
            CloseReason::Source,
        ),
        RelayEvent::ServerFailed | RelayEvent::SendToServerFailed => RelayAction::Close(
            CloseReason::Destination,
        ),
        RelayEvent::Cancelled => RelayAction::Stop,
    }
}

/// Decides what is done on everything but a client's datagram.
fn step_other<'a, B>(event: RelayEvent<'a>) -> (r: RelayAction<'a, B>)
    ensures
        r == common_step::<B>(event),
{
    match event {
        RelayEvent::FromServer(datagram) => if datagram.len() > 0 {
            RelayAction::SendToClient(datagram)
        } else {
            RelayAction::NoteActivity
        },
        RelayEvent::Sent | RelayEvent::FromClient(_) => RelayAction::NoteActivity,
        RelayEvent::ClientFailed | RelayEvent::SendToClientFailed => RelayAction::Close(
            CloseReason::Source,
        ),
        RelayEvent::ServerFailed | RelayEvent::SendToServerFailed => RelayAction::Close(
            CloseReason::Destination,
        ),
        RelayEvent::Cancelled => RelayAction::Stop,
    }
}

/// Decides what `mmproxy` does with a datagram of a client, from what was read of its header.
/// `src_addr` is the client's address, `addr` the one the datagram came from.
pub fn relay_from<'a>(
    addr: SocketAddr,
    src_addr: SocketAddr,
    parsed: ProxyProtocolResult<'a>,
) -> (r: RelayAction<'a, &'a [u8]>)
    ensures
        r == match parsed {
            Err(err) => RelayAction::Close(CloseReason::Header(err)),
            Ok((pair, rest, version)) => if source_of(pair, addr) != src_addr {
                RelayAction::Close(CloseReason::SourceChanged)
            } else if version < 2 {
                RelayAction::Close(CloseReason::Version1)
            } else {
                RelayAction::SendToServer(rest)
            },
        },
{
    let (new_src_addr, rest, version) = match parsed {
        Ok((addr_pair, rest, version)) => match addr_pair {
            Some((src, _)) => (src, rest, version),
            None => (addr, rest, version),
        },
        Err(err) => return RelayAction::Close(CloseReason::Header(err)),
    };
    if new_src_addr != src_addr {
        RelayAction::Close(CloseReason::SourceChanged)
    } else if version < 2 {
        RelayAction::Close(CloseReason::Version1)
    } else {
        RelayAction::SendToServer(rest)
    }
}

/// What `mmproxy` passes on to the server of a datagram from `addr`, where the client's address is
/// `src_addr`; `None` where nothing is passed on.
pub open spec fn passed_on(addr: SocketAddr, src_addr: SocketAddr, datagram: Seq<u8>) -> Option<
    Seq<u8>,
> {
    match header_fields(datagram) {
        Ok((pair, payload, version)) if datagram.len() > 0 && !header_cut_short(datagram)
            && source_of(pair, addr) == src_addr && version >= 2 => Some(payload),
        _ => None,
    }
}

/// The action is what `mmproxy` does with a datagram of a client that came from `addr`, where the
/// client's address is `src_addr`.
pub open spec fn answers_client(
    action: RelayAction<'_, &[u8]>,
    addr: SocketAddr,
    src_addr: SocketAddr,
    datagram: Seq<u8>,
) -> bool {
    if datagram.len() == 0 {
        action is NoteActivity
    } else if header_cut_short(datagram) {
        action is CutShort
    } else {
        match header_fields(datagram) {
            Err(err) => action matches RelayAction::Close(CloseReason::Header(e)) && e@ == err,
            Ok((pair, payload, version)) => if source_of(pair, addr) != src_addr {
                action matches RelayAction::Close(CloseReason::SourceChanged)
            } else if version < 2 {
                action matches RelayAction::Close(CloseReason::Version1)
            } else {
                action matches RelayAction::SendToServer(sent) && sent@ == payload
            },
        }
    }
}

/// Decides what is done for a connection of `mmproxy`. Only a datagram that opens with the
/// signature of version 2 is passed on.
pub fn step_mmproxy<'a>(addr: SocketAddr, src_addr: SocketAddr, event: RelayEvent<'a>) -> (r:
    RelayAction<'a, &'a [u8]>)
    ensures
        match event {
            RelayEvent::FromClient(datagram) => {
                &&& answers_client(r, addr, src_addr, datagram@)
                &&& r is SendToServer <==> passed_on(addr, src_addr, datagram@) is Some
                &&& r matches RelayAction::SendToServer(sent) ==> passed_on(
                    addr,
                    src_addr,
                    datagram@,
                ) == Some(sent@)
                &&& r is SendToServer ==> opens_as_v2(datagram@)
            },
            _ => r == common_step::<&'a [u8]>(event),
        },
{
    match event {
        RelayEvent::FromClient(datagram) => {
            if datagram.len() == 0 {
                return RelayAction::NoteActivity;
            }
            match try_parse_proxy_protocol_header(datagram) {
                Some(parsed) => relay_from(addr, src_addr, parsed),
                None => RelayAction::CutShort,
            }
        },
        other => step_other(other),
    }
}

/// Decides what is done for a connection of the reverse proxy, whose datagrams to the server carry
/// this header.
pub fn step_reverse_proxy<'a>(header: &[u8], event: RelayEvent<'a>) -> (r: RelayAction<
    'a,
    Vec<u8>,
>)
    requires
        event matches RelayEvent::FromClient(datagram) ==> header@.len() + datagram@.len()
            <= isize::MAX,
    ensures
        match event {
            RelayEvent::FromClient(datagram) => if datagram@.len() > 0 {
                r matches RelayAction::SendToServer(sent) && sent@ == header@ + datagram@
            } else {
                r is NoteActivity
            },
            _ => r == common_step::<Vec<u8>>(event),
        },
{
    match event {
        RelayEvent::FromClient(datagram) => if datagram.len() > 0 {
            RelayAction::SendToServer(frame_datagram(header, datagram))
        } else {
            RelayAction::NoteActivity
        },
        other => step_other(other),
    }
}

// ---------------------------------------------------------------------------------------------
// Silence
// ---------------------------------------------------------------------------------------------

/// Something that the watcher of a connection learns of.
#[derive(Clone, Copy, Debug, PartialEq, Eq, Structural)]
pub enum WatchEvent {
    /// The connection was opened.
    Opened,
    /// The connection was silent for too long.
    Timeout,
    /// The connection was given up elsewhere.
    Cancelled,
    /// The connection was used.
    Activity,
}

/// What the watcher of a connection does.
#[derive(Clone, Copy, Debug, PartialEq, Eq, Structural)]
pub enum WatchAction {
    /// Wait for so many seconds, or until something else happens.
    Wait(u64),
    /// Forget the connection and tell everyone who works for it.
    GiveUp,
}

/// What the watcher does on an event: whenever the connection is used, it has the full time again.
pub open spec fn watch_step(close_after: u64, event: WatchEvent) -> WatchAction {
    match event {
        WatchEvent::Timeout | WatchEvent::Cancelled => WatchAction::GiveUp,
        WatchEvent::Opened | WatchEvent::Activity => WatchAction::Wait(close_after),
    }
}

/// Decides what the watcher does on an event.
pub fn watch(close_after: u64, event: WatchEvent) -> (r: WatchAction)
    ensures
        r == watch_step(close_after, event),
{
    match event {
        WatchEvent::Timeout | WatchEvent::Cancelled => WatchAction::GiveUp,
        WatchEvent::Opened | WatchEvent::Activity => WatchAction::Wait(close_after),
    }
}

/// So many seconds in nanoseconds.
pub open spec fn nanos(seconds: u64) -> nat {
    seconds as nat * 1_000_000_000
}

/// The watcher can give the connection up at the time `at`, where it learns of `event` at the time
/// `now` and the connection is used at the times `uses` after that. All times are in nanoseconds.
/// The wait that the watcher begins ends when its time is over or when the connection is used,
/// whichever comes first; where both come at once, it ends in either way.
pub open spec fn given_up_at(
    close_after: u64,
    event: WatchEvent,
    now: nat,
    uses: Seq<nat>,
    at: nat,
) -> bool
    decreases
            uses.len(),
            if event == WatchEvent::Timeout {
                0int
            } else {
                1
            },
{
    match watch_step(close_after, event) {
        WatchAction::GiveUp => at == now,
        WatchAction::Wait(seconds) => {
            let end = now + nanos(seconds);
            ||| {
                &&& uses.len() == 0 || end <= uses[0]
                &&& given_up_at(close_after, WatchEvent::Timeout, end, uses, at)
            }
            ||| {
                &&& uses.len() > 0 && uses[0] <= end
                &&& given_up_at(close_after, WatchEvent::Activity, uses[0], uses.skip(1), at)
            }
        },
    }
}

/// The times are in order, and none is before `start`.
pub open spec fn in_order(start: nat, uses: Seq<nat>) -> bool {
    &&& forall|i: int| 0 <= i < uses.len() ==> start <= #[trigger] uses[i]
    &&& forall|i: int, j: int| 0 <= i < j < uses.len() ==> #[trigger] uses[i] <= #[trigger] uses[j]
}

/// When the connection was used for the `k`-th time; opening it counts as the use before the first.
pub open spec fn used_at(start: nat, uses: Seq<nat>, k: int) -> nat {
    if k <= 0 {
        start
    } else {
        uses[k - 1]
    }
}

/// The `k`-th use is the last before the connection is given up at the time `at`: the full time has
/// passed since, with no use in between, and no earlier pause was longer than that.
pub open spec fn last_use(close_after: u64, start: nat, uses: Seq<nat>, at: nat, k: int) -> bool {
    &&& 0 <= k <= uses.len()
    &&& at == used_at(start, uses, k) + nanos(close_after)
    &&& k < uses.len() ==> at <= uses[k]
    &&& forall|j: int|
        0 <= j < k ==> #[trigger] used_at(start, uses, j + 1) <= used_at(start, uses, j) + nanos(
            close_after,
        )
}

// ---------------------------------------------------------------------------------------------
// Laws of the proxy
// ---------------------------------------------------------------------------------------------

/// What the reverse proxy puts on, `mmproxy` takes off: a datagram of a client that arrives behind
/// the client's header opens a connection that speaks with the client's address, to the server of
/// its family; and of each later datagram on that connection, the payload goes on unchanged.
pub proof fn law_proxies_compose(
    front: ArgsReverseProxy,
    back: ArgsMmproxy,
    client: SocketAddr,
    addr: SocketAddr,
    payload: Seq<u8>,
)
    requires
        carries(
            client_header(front, client),
            announced_source(client),
            announced_destination(client, front.forward_addr),
        ),
    ensures
        ({
            let datagram = client_header(front, client) + payload;
            let src_addr = announced_source(client);
            &&& upstream_for(back, addr, datagram) == Ok::<_, OpenError<Seq<char>>>(
                Upstream { src_addr, target_addr: target_for(back, src_addr) },
            )
            &&& passed_on(addr, src_addr, datagram) == Some(payload)
        }),
{
    let header = client_header(front, client);
    law_v2_header_len(
        ProxyCommand::Proxy,
        ProxyTransportProtocol::Datagram,
        addresses_for(client, front.forward_addr),
    );
    assert(!header_cut_short(header + payload));
}

/// The datagrams of one connection all speak for one client: a datagram that names another client
/// than the one that opened the connection is not passed on, and neither is one with a header of
/// version 1.
pub proof fn law_connection_keeps_its_client(
    addr: SocketAddr,
    src_addr: SocketAddr,
    datagram: Seq<u8>,
)
    requires
        passed_on(addr, src_addr, datagram) is Some,
    ensures
        header_fields(datagram) matches Ok((pair, payload, version)) && source_of(pair, addr)
            == src_addr && version >= 2 && passed_on(addr, src_addr, datagram) == Some(payload),
{
}

/// A datagram that opens a connection would be passed on over it, if it came again: both judge the
/// header alike.
pub proof fn law_opener_is_passed_on(args: ArgsMmproxy, addr: SocketAddr, datagram: Seq<u8>)
    requires
        datagram.len() > 0,
    ensures
        upstream_for(args, addr, datagram) matches Ok(upstream) ==> passed_on(
            addr,
            upstream.src_addr,
            datagram,
        ) is Some,
{
}

/// Where the servers are of the families that they serve, the socket towards the server has the
/// family of the client's address that it is bound to.
pub proof fn law_target_has_source_family(args: ArgsMmproxy, src_addr: SocketAddr)
    requires
        args.ipv4_fwd is V4,
        args.ipv6_fwd is V6,
    ensures
        domain_of(target_for(args, src_addr)) == domain_of(src_addr),
{
}

/// A datagram from outside the allowed subnets is dropped, whatever it holds and whatever
/// connections there are.
pub proof fn law_refused_origin_goes_nowhere<'a, C>(
    nets: Seq<IpCidr>,
    connections: Map<SocketAddr, C>,
    addr: SocketAddr,
    datagram: &'a [u8],
)
    requires
        !origin_allowed(addr.spec_ip(), nets),
    ensures
        listen_step(Some(nets), connections, ListenEvent::Received(addr, datagram)) is Refuse,
{
}

/// What a listener decides to do ends it only where one of its sockets fails: not where an origin
/// is refused, and not where a connection cannot be opened.
pub proof fn law_listener_ends_on_failure_only<'a, C>(
    allowed: Option<Seq<IpCidr>>,
    connections: Map<SocketAddr, C>,
    event: ListenEvent<'a>,
)
    ensures
        listen_step(allowed, connections, event) is Fail <==> event is ReceiveFailed
            || event is RelayFailed,
{
}

/// A connection that nothing else ends is given up at the first pause of the full time, and not
/// before: it is always given up at some time; and whenever it is, the full time has passed since
/// its last use, while no earlier pause was longer.
pub proof fn law_idle_connection_is_given_up(close_after: u64, start: nat, uses: Seq<nat>)
    requires
        in_order(start, uses),
    ensures
        exists|at: nat| given_up_at(close_after, WatchEvent::Opened, start, uses, at),
        forall|at: nat| #[trigger]
            given_up_at(close_after, WatchEvent::Opened, start, uses, at) ==> exists|k: int|
                last_use(close_after, start, uses, at, k),
{
    lemma_some_time(close_after, WatchEvent::Opened, start, uses);
    assert forall|at: nat| #[trigger]
        given_up_at(close_after, WatchEvent::Opened, start, uses, at) implies exists|k: int|
        last_use(close_after, start, uses, at, k) by {
        lemma_last_use(close_after, WatchEvent::Opened, start, uses, at);
    }
}

proof fn lemma_some_time(close_after: u64, event: WatchEvent, now: nat, uses: Seq<nat>)
    requires
        event == WatchEvent::Opened || event == WatchEvent::Activity,
    ensures
        exists|at: nat| given_up_at(close_after, event, now, uses, at),
    decreases uses.len(),
{
    let end = now + nanos(close_after);
    if uses.len() > 0 && uses[0] <= end {
        lemma_some_time(close_after, WatchEvent::Activity, uses[0], uses.skip(1));
        let at = choose|at: nat|
            given_up_at(close_after, WatchEvent::Activity, uses[0], uses.skip(1), at);
        assert(given_up_at(close_after, event, now, uses, at));
    } else {
        assert(given_up_at(close_after, WatchEvent::Timeout, end, uses, end));
        assert(given_up_at(close_after, event, now, uses, end));
    }
}

proof fn lemma_last_use(
    close_after: u64,
    event: WatchEvent,
    now: nat,
    uses: Seq<nat>,
    at: nat,
)
    requires
        event == WatchEvent::Opened || event == WatchEvent::Activity,
        in_order(now, uses),
        given_up_at(close_after, event, now, uses, at),
    ensures
        exists|k: int| last_use(close_after, now, uses, at, k),
    decreases uses.len(),
{
    let end = now + nanos(close_after);
    if (uses.len() == 0 || end <= uses[0]) && given_up_at(
        close_after,
        WatchEvent::Timeout,
        end,
        uses,
        at,
    ) {
        assert(last_use(close_after, now, uses, at, 0));
    } else {
        let tail = uses.skip(1);
        assert forall|i: int| 0 <= i < tail.len() implies uses[0] <= #[trigger] tail[i] by {
            assert(tail[i] == uses[i + 1]);
        }
        lemma_last_use(close_after, WatchEvent::Activity, uses[0], tail, at);
        let k = choose|k: int| last_use(close_after, uses[0], tail, at, k);
        assert forall|j: int| 0 <= j < k + 1 implies #[trigger] used_at(now, uses, j + 1)
            <= used_at(now, uses, j) + nanos(close_after) by {
            if j > 0 {
                assert(used_at(uses[0], tail, (j - 1) + 1) <= used_at(uses[0], tail, j - 1) + nanos(
                    close_after,
                ));
            }
        }
        assert(last_use(close_after, now, uses, at, k + 1));
    }
}

/// A datagram that is passed on in either direction gives its connection the full time again; and
/// once a connection is given up, those who work for it stop.
pub proof fn law_relaying_restarts_the_time<B>(close_after: u64)
    ensures
        common_step::<B>(RelayEvent::Sent) is NoteActivity,
        watch_step(close_after, WatchEvent::Activity) == WatchAction::Wait(close_after),
        watch_step(close_after, WatchEvent::Timeout) is GiveUp,
        common_step::<B>(RelayEvent::Cancelled) is Stop,
{
}

/// Once a connection is given up, the next datagram of its client opens a new one; what becomes of
/// other clients' datagrams does not change.
pub proof fn law_given_up_is_forgotten<'a, C>(
    allowed: Option<Seq<IpCidr>>,
    connections: Map<SocketAddr, C>,
    gone: SocketAddr,
    addr: SocketAddr,
    datagram: &'a [u8],
)
    ensures
        ({
            let event = ListenEvent::Received(addr, datagram);
            let after = listen_step(allowed, connections.remove(gone), event);
            if addr == gone {
                after == listen_step(allowed, Map::<SocketAddr, C>::empty(), event)
            } else {
                after == listen_step(allowed, connections, event)
            }
        }),
{
}

// ---------------------------------------------------------------------------------------------
// Laws of each decision
// ---------------------------------------------------------------------------------------------

/// Each mode and protocol has its own listener; only the reverse proxy has none for TCP.
pub proof fn law_each_mode_has_its_listener(command: Command)
    ensures
        match command {
            Command::mmproxy(args) => {
                &&& listener_for(command) == Listener::UdpMmproxy <==> args.protocol
                    == Protocol::Udp
                &&& listener_for(command) == Listener::TcpMmproxy <==> args.protocol
                    == Protocol::Tcp
            },
            Command::reverseproxy(args) => {
                &&& listener_for(command) == Listener::UdpReverseProxy <==> args.protocol
                    == Protocol::Udp
                &&& listener_for(command) == Listener::Unsupported <==> args.protocol
                    == Protocol::Tcp
            },
        },
{
}

/// A datagram is refused exactly where a list of subnets is in force and none of its networks
/// holds the datagram's IP address. A datagram that is not refused goes, as it is, over the
/// connection of the address it came from, if there is one, and else opens a connection.
pub proof fn law_listener_takes_what_is_allowed<'c, 'a, C>(
    allowed: Option<Seq<IpCidr>>,
    connections: Map<SocketAddr, C>,
    addr: SocketAddr,
    datagram: &'a [u8],
)
    ensures
        ({
            let ip = match addr {
                SocketAddr::V4(v4) => IpAddr::V4(v4.ip),
                SocketAddr::V6(v6) => IpAddr::V6(v6.ip),
            };
            let action: ListenAction<'c, 'a, C> = listen_step(
                allowed,
                connections,
                ListenEvent::Received(addr, datagram),
            );
            &&& action is Refuse <==> (allowed matches Some(nets) && forall|i: int|
                0 <= i < nets.len() ==> !(#[trigger] nets[i]).contains(ip))
            &&& action is Refuse <==> (allowed matches Some(nets) && !origin_allowed(ip, nets))
            &&& action matches ListenAction::Refuse(refused) ==> refused == ip
            &&& action !is Refuse && connections.contains_key(addr) ==> (
            action matches ListenAction::Relay(conn, sent) && *conn == connections[addr] && sent@
                == datagram@)
            &&& action !is Refuse && !connections.contains_key(addr) ==> (
            action matches ListenAction::Open(from, opener) && from == addr && opener@
                == datagram@)
        }),
{
}

/// Between datagrams, a listener goes on where a datagram was relayed and where a connection was
/// opened or could not be; where a socket fails it ends, and says which.
pub proof fn law_listener_goes_on<'c, 'a, C>(
    allowed: Option<Seq<IpCidr>>,
    connections: Map<SocketAddr, C>,
)
    ensures
        ({
            let step = |event: ListenEvent<'a>| -> ListenAction<'c, 'a, C>
                { listen_step(allowed, connections, event) };
            &&& step(ListenEvent::Relayed) is Receive
            &&& step(ListenEvent::Opened) is Receive
            &&& step(ListenEvent::OpenFailed) is Receive
            &&& step(ListenEvent::ReceiveFailed) == ListenAction::<'c, 'a, C>::Fail(
                ListenFailure::Accept,
            )
            &&& step(ListenEvent::RelayFailed) == ListenAction::<'c, 'a, C>::Fail(
                ListenFailure::Upstream,
            )
        }),
{
}

/// The client that a header speaks for: the source that it names, or the sender of the datagram
/// where it names none.
pub open spec fn speaks_for(header: ProxyHeader, addr: SocketAddr) -> SocketAddr {
    match header {
        ProxyHeader::Version1(V1Addresses::Ipv4 { source, .. }) => SocketAddr::V4(source),
        ProxyHeader::Version1(V1Addresses::Ipv6 { source, .. }) => SocketAddr::V6(source),
        ProxyHeader::Version2(V2Addresses::Ipv4 { source, .. }) => SocketAddr::V4(source),
        ProxyHeader::Version2(V2Addresses::Ipv6 { source, .. }) => SocketAddr::V6(source),
        _ => addr,
    }
}

/// A connection is opened exactly by a header of version 2 that does not name UNIX sockets. It
/// speaks with the address of the client that the header speaks for; and it goes to the server that
/// the settings give for IPv4 where that address is an IPv4 address, and to the one for IPv6 where
/// it is not.
pub proof fn law_connection_goes_to_the_set_server(
    args: ArgsMmproxy,
    addr: SocketAddr,
    datagram: Seq<u8>,
)
    requires
        !header_cut_short(datagram),
    ensures
        match proxy_header(datagram) {
            Ok((ProxyHeader::Version2(V2Addresses::Unix { .. }), _)) => upstream_for(
                args,
                addr,
                datagram,
            ) == Err::<Upstream, _>(OpenError::Header(HeaderError::<Seq<char>>::UnixSockets)),
            Ok((header, _)) => match header {
                ProxyHeader::Version1(_) => upstream_for(args, addr, datagram) == Err::<
                    Upstream,
                    _,
                >(OpenError::<Seq<char>>::Version1),
                ProxyHeader::Version2(_) => upstream_for(args, addr, datagram) matches Ok(
                    upstream,
                ) && {
                    &&& upstream.src_addr == speaks_for(header, addr)
                    &&& upstream.src_addr is V4 ==> upstream.target_addr == args.ipv4_fwd
                    &&& upstream.src_addr is V6 ==> upstream.target_addr == args.ipv6_fwd
                },
            },
            Err(words) => upstream_for(args, addr, datagram) == Err::<Upstream, _>(
                OpenError::Header(HeaderError::Malformed(words)),
            ),
        },
{
}

/// A datagram that breaks off inside its header opens nothing.
pub proof fn law_broken_datagram_opens_nothing(
    args: ArgsMmproxy,
    addr: SocketAddr,
    datagram: Seq<u8>,
)
    ensures
        upstream_for(args, addr, datagram) == Err::<Upstream, _>(
            OpenError::<Seq<char>>::CutShort,
        ) <==> header_cut_short(datagram),
{
}

/// From what was read of a header: the connection speaks for the source that was read, or for the
/// sender where none was, and goes to the server that the settings give for its family.
pub proof fn law_target_is_the_setting(
    args: ArgsMmproxy,
    addr: SocketAddr,
    source: SocketAddr,
    destination: SocketAddr,
)
    ensures
        upstream_with(args, addr, Some((source, destination))) == (Upstream {
            src_addr: source,
            target_addr: if source is V4 {
                args.ipv4_fwd
            } else {
                args.ipv6_fwd
            },
        }),
        upstream_with(args, addr, None) == upstream_with(args, destination, Some((addr, source))),
        source_of(Some((source, destination)), addr) == source,
        source_of(None, addr) == addr,
{
}

/// What `mmproxy` does with a datagram of a client is settled by its bytes: an empty one is noted;
/// one that breaks off inside its header is reported; one without a usable header ends the
/// connection, and so does one that speaks for another client, and one with a header of version 1.
/// Of any other, exactly the bytes behind the header go on to the server, all of them.
pub proof fn law_client_datagram_is_judged_by_its_bytes(
    action: RelayAction<'_, &[u8]>,
    addr: SocketAddr,
    src_addr: SocketAddr,
    datagram: Seq<u8>,
)
    requires
        answers_client(action, addr, src_addr, datagram),
    ensures
        datagram.len() == 0 ==> action is NoteActivity,
        datagram.len() > 0 ==> (action is CutShort <==> header_cut_short(datagram)),
        datagram.len() > 0 && !header_cut_short(datagram) ==> match proxy_header(datagram) {
            Err(words) => action matches RelayAction::Close(
                CloseReason::Header(HeaderError::Malformed(reason)),
            ) && reason@ == words,
            Ok((ProxyHeader::Version2(V2Addresses::Unix { .. }), _)) => {
                action matches RelayAction::Close(CloseReason::Header(HeaderError::UnixSockets))
            },
            Ok((header, used)) => if speaks_for(header, addr) != src_addr {
                action matches RelayAction::Close(CloseReason::SourceChanged)
            } else if header is Version1 {
                action matches RelayAction::Close(CloseReason::Version1)
            } else {
                action matches RelayAction::SendToServer(sent) && sent@ == datagram.skip(
                    used as int,
                )
            },
        },
{
}

/// The payload behind a client's header goes on whole, of whatever length: a datagram that is a
/// header which carries the client, and a payload, makes `mmproxy` send exactly the payload.
pub proof fn law_payload_goes_on_whole(
    action: RelayAction<'_, &[u8]>,
    addr: SocketAddr,
    src_addr: SocketAddr,
    destination: SocketAddr,
    header: Seq<u8>,
    payload: Seq<u8>,
)
    requires
        carries(header, src_addr, destination),
        header.len() > 0,
        answers_client(action, addr, src_addr, header + payload),
    ensures
        action matches RelayAction::SendToServer(sent) && sent@ == payload && sent@.len()
            == payload.len(),
{
    assert(!header_cut_short(header + payload));
}

/// Two datagrams that differ in their payloads alone are answered alike: a longer payload makes
/// what is sent longer by as much, and by those very bytes.
pub proof fn law_longer_payload_is_sent_longer(
    first: RelayAction<'_, &[u8]>,
    second: RelayAction<'_, &[u8]>,
    addr: SocketAddr,
    src_addr: SocketAddr,
    destination: SocketAddr,
    header: Seq<u8>,
    payload: Seq<u8>,
    more: Seq<u8>,
)
    requires
        carries(header, src_addr, destination),
        header.len() > 0,
        answers_client(first, addr, src_addr, header + payload),
        answers_client(second, addr, src_addr, header + payload + more),
    ensures
        first matches RelayAction::SendToServer(sent) && (second matches RelayAction::SendToServer(
            longer,
        ) && longer@ == sent@ + more),
{
    assert(header + payload + more =~= header + (payload + more));
    law_payload_goes_on_whole(first, addr, src_addr, destination, header, payload);
    law_payload_goes_on_whole(second, addr, src_addr, destination, header, payload + more);
}

/// What the server sends goes to the client as it is, unless it is empty; a failure on either side
/// ends the connection, and names that side; what was sent counts as activity; and whoever is told
/// that the connection was given up stops.
pub proof fn law_other_events_are_answered<'a, B>(datagram: &'a [u8])
    ensures
        datagram@.len() > 0 ==> (common_step::<B>(
            RelayEvent::FromServer(datagram),
        ) matches RelayAction::SendToClient(sent) && sent@ == datagram@),
        datagram@.len() == 0 ==> common_step::<B>(RelayEvent::FromServer(datagram)) is NoteActivity,
        common_step::<B>(RelayEvent::Sent) is NoteActivity,
        common_step::<B>(RelayEvent::ClientFailed) == RelayAction::<'a, B>::Close(
            CloseReason::Source,
        ),
        common_step::<B>(RelayEvent::SendToClientFailed) == RelayAction::<'a, B>::Close(
            CloseReason::Source,
        ),
        common_step::<B>(RelayEvent::ServerFailed) == RelayAction::<'a, B>::Close(
            CloseReason::Destination,
        ),
        common_step::<B>(RelayEvent::SendToServerFailed) == RelayAction::<'a, B>::Close(
            CloseReason::Destination,
        ),
        common_step::<B>(RelayEvent::Cancelled) is Stop,
{
}

/// A connection goes on exactly while it is used: only silence and an end elsewhere give it up.
pub proof fn law_only_silence_gives_up(close_after: u64, event: WatchEvent)
    ensures
        watch_step(close_after, event) is GiveUp <==> event == WatchEvent::Timeout || event
            == WatchEvent::Cancelled,
        watch_step(close_after, event) matches WatchAction::Wait(seconds) ==> seconds
            == close_after,
{
}

/// The header of a client's datagrams is a version 2 header for datagrams that a proxy speaks,
/// and its bytes hold the addresses and ports that it announces, source first.
pub proof fn law_client_header_bytes(args: ArgsReverseProxy, client: SocketAddr)
    ensures
        ({
            let header = client_header(args, client);
            let server = announced_destination(client, args.forward_addr);
            &&& opens_as_v2(header)
            &&& header[12] == 0x21
            &&& match (announced_source(client), server) {
                (SocketAddr::V4(source), SocketAddr::V4(destination)) => {
                    &&& header[13] == 0x12 && header.len() == 28
                    &&& be_value(header.subrange(16, 20)) == source.ip
                    &&& be_value(header.subrange(20, 24)) == destination.ip
                    &&& be_value(header.subrange(24, 26)) == source.port
                    &&& be_value(header.subrange(26, 28)) == destination.port
                },
                (SocketAddr::V6(source), SocketAddr::V6(destination)) => {
                    &&& header[13] == 0x22 && header.len() == 52
                    &&& be_value(header.subrange(16, 32)) == source.ip
                    &&& be_value(header.subrange(32, 48)) == destination.ip
                    &&& be_value(header.subrange(48, 50)) == source.port
                    &&& be_value(header.subrange(50, 52)) == destination.port
                },
                _ => false,
            }
        }),
{
    law_v2_header_layout(
        ProxyCommand::Proxy,
        ProxyTransportProtocol::Datagram,
        addresses_for(client, args.forward_addr),
    );
    law_header_addresses(client, args.forward_addr);
    law_header_announces_the_client(client);
    let header = client_header(args, client);
    assert(header.take(12) =~= v2_signature());
}

/// The reasons that are shown are those that were found.
pub proof fn law_open_errors_are_shown(reason: String, err: HeaderError<String>)
    ensures
        OpenError::<String>::Header(err)@ == OpenError::<Seq<char>>::Header(err@),
        HeaderError::<String>::Malformed(reason)@ == HeaderError::<Seq<char>>::Malformed(reason@),
        HeaderError::<String>::UnixSockets@ == HeaderError::<Seq<char>>::UnixSockets,
        OpenError::<String>::Version1@ == OpenError::<Seq<char>>::Version1,
        OpenError::<String>::CutShort@ == OpenError::<Seq<char>>::CutShort,
{
}

} // verus!
