//! PROXY protocol headers: what they hold, how they are read and how they are written.
use vstd::prelude::*;

use proxy_protocol::{version1, version2};

use crate::addr::{
    mapped_ipv4, mapped_ipv6, to_ipv4_mapped, to_ipv6_mapped, IpAddr, SocketAddr, SocketAddrV4,
    SocketAddrV6,
};

verus! {

/// What a version 2 header says of the connection.
#[derive(Clone, Copy, Debug, PartialEq, Eq, Structural)]
pub enum ProxyCommand {
    Local,
    Proxy,
}

/// The transport over which the client spoke.
#[derive(Clone, Copy, Debug, PartialEq, Eq, Structural)]
pub enum ProxyTransportProtocol {
    Unspec,
    Stream,
    Datagram,
}

/// The addresses of a version 1 header.
#[derive(Clone, Copy, Debug, PartialEq, Eq)]
pub enum V1Addresses {
    Unknown,
    Ipv4 { source: SocketAddrV4, destination: SocketAddrV4 },
    Ipv6 { source: SocketAddrV6, destination: SocketAddrV6 },
}

/// The addresses of a version 2 header.
#[derive(Clone, Copy, Debug, PartialEq, Eq)]
pub enum V2Addresses {
    Unspec,
    Ipv4 { source: SocketAddrV4, destination: SocketAddrV4 },
    Ipv6 { source: SocketAddrV6, destination: SocketAddrV6 },
    Unix { source_path: [u8; 108], destination_path: [u8; 108] },
}

/// A PROXY protocol header, as far as the proxy reads it.
#[derive(Clone, Copy, Debug, PartialEq, Eq)]
pub enum ProxyHeader {
    Version1(V1Addresses),
    Version2(V2Addresses),
}

/// Why a datagram has no usable header. `S` is the type of texts.
#[derive(Clone, Debug, PartialEq, Eq)]
pub enum HeaderError<S> {
    /// The bytes are not a PROXY header; the parser says why.
    Malformed(S),
    /// The header names UNIX sockets.
    UnixSockets,
}

impl View for HeaderError<String> {
    type V = HeaderError<Seq<char>>;

    open spec fn view(&self) -> HeaderError<Seq<char>> {
        match self {
            HeaderError::Malformed(reason) => HeaderError::Malformed(reason@),
            HeaderError::UnixSockets => HeaderError::UnixSockets,
        }
    }
}

/// Source and destination (where the header names them), the bytes behind the header, and the
/// version of the header.
pub type ProxyProtocolResult<'a> = Result<
    (Option<(SocketAddr, SocketAddr)>, &'a [u8], i32),
    HeaderError<String>,
>;

// ---------------------------------------------------------------------------------------------
// The wire format of version 2
// ---------------------------------------------------------------------------------------------

/// The twelve bytes that open every version 2 header.
pub open spec fn v2_signature() -> Seq<u8> {
    seq![0x0du8, 0x0a, 0x0d, 0x0a, 0x00, 0x0d, 0x0a, 0x51, 0x55, 0x49, 0x54, 0x0a]
}

/// The bytes open with the signature of version 2.
pub open spec fn opens_as_v2(bytes: Seq<u8>) -> bool {
    bytes.len() >= 12 && bytes.take(12) == v2_signature()
}

/// A number as `n` bytes in network byte order.
pub open spec fn be_bytes(x: nat, n: nat) -> Seq<u8>
    decreases n,
{
    if n == 0 {
        Seq::empty()
    } else {
        be_bytes(x / 256, (n - 1) as nat).push((x % 256) as u8)
    }
}

/// The address block of a version 2 header.
pub open spec fn v2_address_block(addresses: V2Addresses) -> Seq<u8> {
    match addresses {
        V2Addresses::Unspec => Seq::empty(),
        V2Addresses::Ipv4 { source, destination } => be_bytes(source.ip as nat, 4)
            + be_bytes(destination.ip as nat, 4) + be_bytes(source.port as nat, 2) + be_bytes(
            destination.port as nat,
            2,
        ),
        V2Addresses::Ipv6 { source, destination } => be_bytes(source.ip as nat, 16)
            + be_bytes(destination.ip as nat, 16) + be_bytes(source.port as nat, 2) + be_bytes(
            destination.port as nat,
            2,
        ),
        V2Addresses::Unix { source_path, destination_path } => source_path@ + destination_path@,
    }
}

/// The byte that holds version and command.
pub open spec fn v2_command_byte(command: ProxyCommand) -> u8 {
    match command {
        ProxyCommand::Local => 0x20,
        ProxyCommand::Proxy => 0x21,
    }
}

/// The byte that holds address family and transport.
pub open spec fn v2_family_byte(
    addresses: V2Addresses,
    transport_protocol: ProxyTransportProtocol,
) -> u8 {
    let family: int = match addresses {
        V2Addresses::Unspec => 0,
        V2Addresses::Ipv4 { .. } => 0x10,
        V2Addresses::Ipv6 { .. } => 0x20,
        V2Addresses::Unix { .. } => 0x30,
    };
    let transport: int = match transport_protocol {
        ProxyTransportProtocol::Unspec => 0,
        ProxyTransportProtocol::Stream => 1,
        ProxyTransportProtocol::Datagram => 2,
    };
    (family + transport) as u8
}

/// A whole version 2 header on the wire.
pub open spec fn v2_header(
    command: ProxyCommand,
    transport_protocol: ProxyTransportProtocol,
    addresses: V2Addresses,
) -> Seq<u8> {
    v2_signature() + seq![v2_command_byte(command), v2_family_byte(addresses, transport_protocol)]
        + be_bytes(v2_address_block(addresses).len(), 2) + v2_address_block(addresses)
}

/// An IPv6 socket address as the wire carries it: without flow label and scope.
pub open spec fn v6_on_wire(addr: SocketAddrV6) -> SocketAddrV6 {
    SocketAddrV6 { ip: addr.ip, port: addr.port, flowinfo: 0, scope_id: 0 }
}

/// Addresses as the wire carries them.
pub open spec fn on_wire(addresses: V2Addresses) -> V2Addresses {
    match addresses {
        V2Addresses::Ipv6 { source, destination } => V2Addresses::Ipv6 {
            source: v6_on_wire(source),
            destination: v6_on_wire(destination),
        },
        _ => addresses,
    }
}

// ---------------------------------------------------------------------------------------------
// Headers that break off
// ---------------------------------------------------------------------------------------------

/// The bytes `PROXY T`, with which a version 1 header that names addresses opens.
pub open spec fn v1_tcp_opening() -> Seq<u8> {
    seq![0x50u8, 0x52, 0x4f, 0x58, 0x59, 0x20, 0x54]
}

/// How many bytes of addresses a version 2 header of this family holds at least.
pub open spec fn v2_needed(family: int) -> int {
    if family == 1 {
        12
    } else if family == 2 {
        36
    } else {
        216
    }
}

/// A version 2 header with addresses that announces more bytes than follow, though the addresses
/// themselves are there.
pub open spec fn v2_cut_short(bytes: Seq<u8>) -> bool {
    &&& bytes.len() >= 16
    &&& bytes.take(12) == v2_signature()
    &&& bytes[12] == 0x20 || bytes[12] == 0x21
    &&& 1 <= bytes[13] / 16 <= 3
    &&& bytes[13] % 16 <= 2
    &&& v2_needed((bytes[13] / 16) as int) <= bytes.len() - 16 < v2_announced(bytes)
}

/// A version 1 header with addresses that is complete but for the line feed behind its last
/// carriage return. (With a destination port of one digit the header counts as too short.)
pub open spec fn v1_cut_short(bytes: Seq<u8>) -> bool {
    &&& bytes.len() >= 9
    &&& bytes.take(7) == v1_tcp_opening()
    &&& bytes.last() == 0x0d
    &&& bytes[bytes.len() - 3] != 0x20
    &&& proxy_header(bytes.push(0x0a)) matches Ok((_, used)) && used == bytes.len() + 1
}

/// The bytes break off inside a header in a way that its parser does not survive.
pub open spec fn header_cut_short(bytes: Seq<u8>) -> bool {
    v1_cut_short(bytes) || v2_cut_short(bytes)
}

// ---------------------------------------------------------------------------------------------
// Trusted: the `proxy_protocol` crate
// ---------------------------------------------------------------------------------------------

/// `std`'s IPv4 socket address.
#[verifier::external_type_specification]
#[verifier::external_body]
pub struct ExSocketAddrV4(core::net::SocketAddrV4);

/// `std`'s IPv6 socket address.
#[verifier::external_type_specification]
#[verifier::external_body]
pub struct ExSocketAddrV6(core::net::SocketAddrV6);

/// The version 1 addresses of the `proxy_protocol` crate.
#[verifier::external_type_specification]
#[verifier::external_body]
pub struct ExV1Addresses(version1::ProxyAddresses);

/// The version 2 addresses of the `proxy_protocol` crate.
#[verifier::external_type_specification]
#[verifier::external_body]
pub struct ExV2Addresses(version2::ProxyAddresses);

/// The encode error of the `proxy_protocol` crate.
#[verifier::external_type_specification]
#[verifier::external_body]
pub struct ExEncodeError(proxy_protocol::EncodeError);

/// The header that `proxy_protocol::parse` reads from the front of the bytes, and how many bytes
/// it takes; or the words of the error that it reports.
pub uninterp spec fn proxy_header(bytes: Seq<u8>) -> Result<(ProxyHeader, nat), Seq<char>>;

/// How many bytes a version 2 header announces behind its first sixteen.
pub open spec fn v2_announced(bytes: Seq<u8>) -> int {
    bytes[14] * 256 + bytes[15]
}

/// The bytes hold this header whole, in their first `used` bytes: a version 2 header is as long as
/// it announces, no header is shorter than `PROXY UNKNOWN` and its line ending, and whatever
/// follows the bytes does not change what is read.
pub open spec fn holds_header(bytes: Seq<u8>, header: ProxyHeader, used: nat) -> bool {
    &&& 15 <= used <= bytes.len()
    &&& header is Version2 <==> opens_as_v2(bytes)
    &&& header is Version2 ==> used == 16 + v2_announced(bytes)
    &&& forall|more: Seq<u8>| #[trigger]
        proxy_header(bytes + more) == Ok::<_, Seq<char>>((header, used))
}

/// Whatever follows them, the parser reads a version 2 header with these addresses from the bytes,
/// and takes them all.
pub open spec fn reads_back(bytes: Seq<u8>, addresses: V2Addresses) -> bool {
    forall|payload: Seq<u8>| #[trigger]
        proxy_header(bytes + payload) == Ok::<_, Seq<char>>(
            (ProxyHeader::Version2(on_wire(addresses)), bytes.len()),
        )
}

/// Converts `std`'s IPv4 socket address, field by field.
#[verifier::external_body]
fn plain_v4(addr: core::net::SocketAddrV4) -> (r: SocketAddrV4) {
    SocketAddrV4 { ip: u32::from(*addr.ip()), port: addr.port() }
}

/// Converts `std`'s IPv6 socket address, field by field.
#[verifier::external_body]
fn plain_v6(addr: core::net::SocketAddrV6) -> (r: SocketAddrV6) {
    SocketAddrV6 {
        ip: u128::from(*addr.ip()),
        port: addr.port(),
        flowinfo: addr.flowinfo(),
        scope_id: addr.scope_id(),
    }
}

/// Converts an IPv4 socket address into `std`'s, field by field.
#[verifier::external_body]
fn outside_v4(addr: SocketAddrV4) -> (r: core::net::SocketAddrV4) {
    core::net::SocketAddrV4::new(core::net::Ipv4Addr::from(addr.ip), addr.port)
}

/// Converts an IPv6 socket address into `std`'s, field by field.
#[verifier::external_body]
fn outside_v6(addr: SocketAddrV6) -> (r: core::net::SocketAddrV6) {
    let ip = core::net::Ipv6Addr::from(addr.ip);
    core::net::SocketAddrV6::new(ip, addr.port, addr.flowinfo, addr.scope_id)
}

/// Converts the version 1 addresses of `proxy_protocol`, variant by variant.
#[verifier::external_body]
fn plain_v1(addresses: version1::ProxyAddresses) -> (r: V1Addresses) {
    match addresses {
        version1::ProxyAddresses::Unknown => V1Addresses::Unknown,
        version1::ProxyAddresses::Ipv4 { source, destination } => {
            V1Addresses::Ipv4 { source: plain_v4(source), destination: plain_v4(destination) }
        },
        version1::ProxyAddresses::Ipv6 { source, destination } => {
            V1Addresses::Ipv6 { source: plain_v6(source), destination: plain_v6(destination) }
        },
    }
}

/// Converts the version 2 addresses of `proxy_protocol`, variant by variant.
#[verifier::external_body]
fn plain_v2(addresses: version2::ProxyAddresses) -> (r: V2Addresses) {
    match addresses {
        version2::ProxyAddresses::Unspec => V2Addresses::Unspec,
        version2::ProxyAddresses::Ipv4 { source, destination } => {
            V2Addresses::Ipv4 { source: plain_v4(source), destination: plain_v4(destination) }
        },
        version2::ProxyAddresses::Ipv6 { source, destination } => {
            V2Addresses::Ipv6 { source: plain_v6(source), destination: plain_v6(destination) }
        },
        version2::ProxyAddresses::Unix { source, destination } => {
            V2Addresses::Unix { source_path: source, destination_path: destination }
        },
    }
}

/// Converts addresses into the version 2 addresses of `proxy_protocol`, variant by variant.
#[verifier::external_body]
fn outside_v2(addresses: V2Addresses) -> (r: version2::ProxyAddresses) {
    match addresses {
        V2Addresses::Unspec => version2::ProxyAddresses::Unspec,
        V2Addresses::Ipv4 { source, destination } => version2::ProxyAddresses::Ipv4 {
            source: outside_v4(source),
            destination: outside_v4(destination),
        },
        V2Addresses::Ipv6 { source, destination } => version2::ProxyAddresses::Ipv6 {
            source: outside_v6(source),
            destination: outside_v6(destination),
        },
        V2Addresses::Unix { source_path, destination_path } => version2::ProxyAddresses::Unix {
            source: source_path,
            destination: destination_path,
        },
    }
}

/// Calls `proxy_protocol::parse` on the buffer. Its result goes by the name `proxy_header`: the
/// header, with the bytes behind it, or the words of its error. A header is of version 2 exactly
/// where the signature of that version opens the bytes, and is then as long as it announces; any
/// header takes at least fifteen bytes; and bytes behind it do not change what is read. On a header
/// that breaks off as `header_cut_short` says it would panic, and on no other bytes.
#[verifier::external_body]
fn parse_header(buffer: &[u8]) -> (r: Result<(ProxyHeader, &[u8]), String>)
    requires
        !header_cut_short(buffer@),
    ensures
        match r {
            Ok((header, rest)) => proxy_header(buffer@) matches Ok((named, used)) && named == header
                && holds_header(buffer@, header, used) && rest@ == buffer@.skip(used as int),
            Err(reason) => proxy_header(buffer@) == Err::<(ProxyHeader, nat), _>(reason@),
        },
{
    let mut rest = buffer;
    match proxy_protocol::parse(&mut rest) {
        Ok(proxy_protocol::ProxyHeader::Version1 { addresses }) => {
            Ok((ProxyHeader::Version1(plain_v1(addresses)), rest))
        },
        Ok(proxy_protocol::ProxyHeader::Version2 { addresses, .. }) => {
            Ok((ProxyHeader::Version2(plain_v2(addresses)), rest))
        },
        Err(err) => Err(err.to_string()),
    }
}

/// Calls `proxy_protocol::encode` for a version 2 header. It always succeeds, writes the bytes
/// of `v2_header`, and `proxy_protocol::parse` reads the header back from them, whatever follows.
#[verifier::external_body]
fn encode_header(
    command: ProxyCommand,
    transport_protocol: ProxyTransportProtocol,
    addresses: V2Addresses,
) -> (r: Result<Vec<u8>, proxy_protocol::EncodeError>)
    ensures
        r is Ok,
        r matches Ok(bytes) ==> bytes@ == v2_header(command, transport_protocol, addresses),
        r matches Ok(bytes) ==> reads_back(bytes@, addresses),
{
    let command = match command {
        ProxyCommand::Local => version2::ProxyCommand::Local,
        ProxyCommand::Proxy => version2::ProxyCommand::Proxy,
    };
    let transport_protocol = match transport_protocol {
        ProxyTransportProtocol::Unspec => version2::ProxyTransportProtocol::Unspec,
        ProxyTransportProtocol::Stream => version2::ProxyTransportProtocol::Stream,
        ProxyTransportProtocol::Datagram => version2::ProxyTransportProtocol::Datagram,
    };
    let addresses = outside_v2(addresses);
    proxy_protocol::encode(
        proxy_protocol::ProxyHeader::Version2 { command, transport_protocol, addresses },
    ).map(|bytes| bytes.to_vec())
}

// ---------------------------------------------------------------------------------------------
// Reading
// ---------------------------------------------------------------------------------------------

/// Tells whether the buffer opens with the given bytes.
fn opens_with(buffer: &[u8], front: &[u8]) -> (r: bool)
    ensures
        r == (buffer@.len() >= front@.len() && buffer@.take(front@.len() as int) == front@),
{
    if buffer.len() < front.len() {
        return false;
    }
    let mut i: usize = 0;
    while i < front.len()
        invariant
            i <= front@.len() <= buffer@.len(),
            forall|j: int| 0 <= j < i ==> buffer@[j] == front@[j],
        decreases front@.len() - i,
    {
        if buffer[i] != front[i] {
            assert(buffer@.take(front@.len() as int)[i as int] != front@[i as int]);
            return false;
        }
        i += 1;
    }
    assert(buffer@.take(front@.len() as int) =~= front@);
    true
}

/// Tells whether a version 2 header announces more bytes than follow.
fn v2_breaks_off(buffer: &[u8]) -> (r: bool)
    ensures
        r == v2_cut_short(buffer@),
{
    let signature: [u8; 12] = [
        0x0d,
        0x0a,
        0x0d,
        0x0a,
        0x00,
        0x0d,
        0x0a,
        0x51,
        0x55,
        0x49,
        0x54,
        0x0a,
    ];
    assert(signature@ =~= v2_signature());
    if buffer.len() < 16 || !opens_with(buffer, signature.as_slice()) {
        return false;
    }
    if buffer[12] != 0x20 && buffer[12] != 0x21 {
        return false;
    }
    let family: u8 = buffer[13] / 16;
    if family < 1 || family > 3 || buffer[13] % 16 > 2 {
        return false;
    }
    let needed: usize = if family == 1 {
        12
    } else if family == 2 {
        36
    } else {
        216
    };
    let announced: usize = buffer[14] as usize * 256 + buffer[15] as usize;
    needed <= buffer.len() - 16 && buffer.len() - 16 < announced
}

/// Tells whether a version 1 header lacks nothing but its line feed.
fn v1_breaks_off(buffer: &[u8]) -> (r: bool)
    ensures
        r == v1_cut_short(buffer@),
{
    let opening: [u8; 7] = [0x50, 0x52, 0x4f, 0x58, 0x59, 0x20, 0x54];
    assert(opening@ =~= v1_tcp_opening());
    let n: usize = buffer.len();
    if n < 9 || !opens_with(buffer, opening.as_slice()) {
        return false;
    }
    if buffer[n - 1] != 0x0d || buffer[n - 3] == 0x20 {
        return false;
    }
    let mut completed: Vec<u8> = Vec::new();
    completed.extend_from_slice(buffer);
    completed.push(0x0a);
    assert(completed@ =~= buffer@.push(0x0a));
    assert(!header_cut_short(completed@)) by {
        assert(completed@.last() == 0x0a);
        assert(completed@[0] == buffer@.take(7)[0]);
        if v2_cut_short(completed@) {
            assert(completed@[0] == v2_signature()[0]);
        }
    }
    match parse_header(completed.as_slice()) {
        Ok((_, rest)) => rest.len() == 0,
        Err(_) => false,
    }
}

/// Tells whether the bytes break off inside a header in a way that its parser does not survive.
pub fn is_header_cut_short(buffer: &[u8]) -> (r: bool)
    ensures
        r == header_cut_short(buffer@),
{
    v1_breaks_off(buffer) || v2_breaks_off(buffer)
}

/// Source and destination that a header names.
pub open spec fn endpoints(header: ProxyHeader) -> Option<(SocketAddr, SocketAddr)> {
    match header {
        ProxyHeader::Version1(V1Addresses::Ipv4 { source, destination }) => Some(
            (SocketAddr::V4(source), SocketAddr::V4(destination)),
        ),
        ProxyHeader::Version1(V1Addresses::Ipv6 { source, destination }) => Some(
            (SocketAddr::V6(source), SocketAddr::V6(destination)),
        ),
        ProxyHeader::Version2(V2Addresses::Ipv4 { source, destination }) => Some(
            (SocketAddr::V4(source), SocketAddr::V4(destination)),
        ),
        ProxyHeader::Version2(V2Addresses::Ipv6 { source, destination }) => Some(
            (SocketAddr::V6(source), SocketAddr::V6(destination)),
        ),
        _ => None,
    }
}

/// The version of a header.
pub open spec fn version_of(header: ProxyHeader) -> i32 {
    match header {
        ProxyHeader::Version1(_) => 1,
        ProxyHeader::Version2(_) => 2,
    }
}

/// The header names UNIX sockets.
pub open spec fn names_unix_sockets(header: ProxyHeader) -> bool {
    header matches ProxyHeader::Version2(V2Addresses::Unix { .. })
}

/// What a datagram says in its header: source and destination, the bytes behind the header, and
/// the version; or why it has no usable header.
pub open spec fn header_fields(bytes: Seq<u8>) -> Result<
    (Option<(SocketAddr, SocketAddr)>, Seq<u8>, i32),
    HeaderError<Seq<char>>,
> {
    match proxy_header(bytes) {
        Ok((header, used)) => if names_unix_sockets(header) {
            Err(HeaderError::UnixSockets)
        } else {
            Ok((endpoints(header), bytes.skip(used as int), version_of(header)))
        },
        Err(reason) => Err(HeaderError::Malformed(reason)),
    }
}

/// The bytes end in `rest`, and `rest` is not all of them.
pub open spec fn proper_tail(rest: Seq<u8>, bytes: Seq<u8>) -> bool {
    &&& rest.len() < bytes.len()
    &&& rest == bytes.skip(bytes.len() - rest.len())
}

/// Whatever follows the bytes, their header stays readable and says the same, and what follows
/// joins the bytes behind the header.
pub open spec fn says_whatever_follows(
    bytes: Seq<u8>,
    pair: Option<(SocketAddr, SocketAddr)>,
    rest: Seq<u8>,
    version: i32,
) -> bool {
    forall|more: Seq<u8>|
        {
            &&& !header_cut_short(#[trigger] (bytes + more))
            &&& header_fields(bytes + more) == Ok::<_, HeaderError<Seq<char>>>(
                (pair, rest + more, version),
            )
        }
}

/// A result is what the header of these bytes says.
pub open spec fn reads_as(result: ProxyProtocolResult<'_>, bytes: Seq<u8>) -> bool {
    match result {
        Ok((pair, rest, version)) => {
            &&& header_fields(bytes) == Ok::<_, HeaderError<Seq<char>>>((pair, rest@, version))
            &&& version == 2 <==> opens_as_v2(bytes)
            &&& proper_tail(rest@, bytes)
            &&& proxy_header(bytes) matches Ok((_, used)) && used + rest@.len() == bytes.len()
            &&& says_whatever_follows(bytes, pair, rest@, version)
        },
        Err(err) => header_fields(bytes) == Err::<
            (Option<(SocketAddr, SocketAddr)>, Seq<u8>, i32),
            _,
        >(err@),
    }
}

/// Reads the fields out of what the parser returned.
pub fn interpret_header<'a>(parsed: Result<(ProxyHeader, &'a [u8]), String>) -> (r:
    ProxyProtocolResult<'a>)
    ensures
        match parsed {
            Ok((header, rest)) => if names_unix_sockets(header) {
                r == Err::<(Option<(SocketAddr, SocketAddr)>, &'a [u8], i32), _>(
                    HeaderError::<String>::UnixSockets,
                )
            } else {
                r == Ok::<_, HeaderError<String>>((endpoints(header), rest, version_of(header)))
            },
            Err(reason) => r == Err::<(Option<(SocketAddr, SocketAddr)>, &'a [u8], i32), _>(
                HeaderError::Malformed(reason),
            ),
        },
{
    match parsed {
        Ok((header, rest)) => match header {
            ProxyHeader::Version1(addresses) => match addresses {
                V1Addresses::Unknown => Ok((None, rest, 1)),
                V1Addresses::Ipv4 { source, destination } => Ok(
                    (Some((SocketAddr::V4(source), SocketAddr::V4(destination))), rest, 1),
                ),
                V1Addresses::Ipv6 { source, destination } => Ok(
                    (Some((SocketAddr::V6(source), SocketAddr::V6(destination))), rest, 1),
                ),
            },
            ProxyHeader::Version2(addresses) => match addresses {
                V2Addresses::Unspec => Ok((None, rest, 2)),
                V2Addresses::Ipv4 { source, destination } => Ok(
                    (Some((SocketAddr::V4(source), SocketAddr::V4(destination))), rest, 2),
                ),
                V2Addresses::Ipv6 { source, destination } => Ok(
                    (Some((SocketAddr::V6(source), SocketAddr::V6(destination))), rest, 2),
                ),
                V2Addresses::Unix { .. } => Err(HeaderError::UnixSockets),
            },
        },
        Err(reason) => Err(HeaderError::Malformed(reason)),
    }
}

/// A buffer that holds a whole header does not break off inside one, however it goes on.
proof fn lemma_more_does_not_cut_short(
    bytes: Seq<u8>,
    header: ProxyHeader,
    used: nat,
    more: Seq<u8>,
)
    requires
        holds_header(bytes, header, used),
    ensures
        !header_cut_short(bytes + more),
        proxy_header(bytes + more) == Ok::<_, Seq<char>>((header, used)),
{
    let longer = bytes + more;
    assert(longer.push(0x0a) =~= bytes + more.push(0x0a));
    if opens_as_v2(longer) {
        assert(bytes.take(12) =~= longer.take(12));
    }
}

/// What stands behind a complete header changes neither its addresses nor its version: bytes that
/// are appended to a readable datagram are appended to its payload, and to nothing else.
pub proof fn law_payload_is_free(
    bytes: Seq<u8>,
    more: Seq<u8>,
    result: ProxyProtocolResult<'_>,
    extended: ProxyProtocolResult<'_>,
)
    requires
        reads_as(result, bytes),
        result is Ok,
        reads_as(extended, bytes + more),
    ensures
        !header_cut_short(bytes + more),
        result matches Ok((pair, rest, version)) && (extended matches Ok((pair2, rest2, version2))
            && pair2 == pair && rest2@ == rest@ + more && version2 == version),
{
    assert(!header_cut_short(bytes + more));
}

/// Reads the PROXY protocol header at the front of the buffer.
pub fn parse_proxy_protocol_header(buffer: &[u8]) -> (r: ProxyProtocolResult<'_>)
    requires
        !header_cut_short(buffer@),
    ensures
        reads_as(r, buffer@),
{
    let parsed = parse_header(buffer);
    proof {
        if let Ok((header, rest)) = parsed {
            let used = proxy_header(buffer@)->Ok_0.1;
            assert(proper_tail(rest@, buffer@)) by {
                assert(buffer@.skip(buffer@.len() - rest@.len()) =~= rest@);
            }
            assert forall|more: Seq<u8>|
                !header_cut_short(#[trigger] (buffer@ + more)) && (buffer@ + more).skip(
                    used as int,
                ) == rest@ + more by {
                lemma_more_does_not_cut_short(buffer@, header, used, more);
                assert((buffer@ + more).skip(used as int) =~= rest@ + more);
            }
        }
    }
    interpret_header(parsed)
}

/// Reads the header where the buffer does not break off inside one; `None` where it does.
pub fn try_parse_proxy_protocol_header(buffer: &[u8]) -> (r: Option<ProxyProtocolResult<'_>>)
    ensures
        r is None <==> header_cut_short(buffer@),
        r matches Some(result) ==> reads_as(result, buffer@),
{
    if is_header_cut_short(buffer) {
        None
    } else {
        Some(parse_proxy_protocol_header(buffer))
    }
}

// ---------------------------------------------------------------------------------------------
// Writing
// ---------------------------------------------------------------------------------------------

/// An address as an IPv4 header names it as the destination: an IPv6 address that carries no IPv4
/// address becomes `0.0.0.0`.
pub open spec fn destination_v4(addr: SocketAddr) -> SocketAddrV4 {
    match addr {
        SocketAddr::V4(v4) => v4,
        SocketAddr::V6(v6) => SocketAddrV4 {
            ip: match mapped_ipv4(v6.ip) {
                Some(ip) => ip,
                None => 0,
            },
            port: v6.port,
        },
    }
}

/// An address as an IPv6 header names it as the destination.
pub open spec fn destination_v6(addr: SocketAddr) -> SocketAddrV6 {
    match addr {
        SocketAddr::V4(v4) => SocketAddrV6 {
            ip: mapped_ipv6(v4.ip),
            port: v4.port,
            flowinfo: 0,
            scope_id: 0,
        },
        SocketAddr::V6(v6) => v6,
    }
}

/// The client's address with an IPv4-mapped IPv6 address read as IPv4.
pub open spec fn unmapped(addr: SocketAddr) -> SocketAddr {
    match addr {
        SocketAddr::V6(v6) => match mapped_ipv4(v6.ip) {
            Some(ip) => SocketAddr::V4(SocketAddrV4 { ip, port: v6.port }),
            None => addr,
        },
        SocketAddr::V4(_) => addr,
    }
}

/// The addresses of the header for a client and the server that its datagrams go to.
pub open spec fn addresses_for(src_addr: SocketAddr, forward_addr: SocketAddr) -> V2Addresses {
    match unmapped(src_addr) {
        SocketAddr::V4(source) => V2Addresses::Ipv4 {
            source,
            destination: destination_v4(forward_addr),
        },
        SocketAddr::V6(source) => V2Addresses::Ipv6 {
            source,
            destination: destination_v6(forward_addr),
        },
    }
}

fn proxy_protocol_get_dest_v4(addr: SocketAddr) -> (r: SocketAddrV4)
    ensures
        r == destination_v4(addr),
{
    match addr {
        SocketAddr::V4(v4) => v4,
        SocketAddr::V6(v6) => SocketAddrV4 {
            ip: to_ipv4_mapped(v6.ip).unwrap_or(0),
            port: v6.port,
        },
    }
}

fn proxy_protocol_get_dest_v6(addr: SocketAddr) -> (r: SocketAddrV6)
    ensures
        r == destination_v6(addr),
{
    match addr {
        SocketAddr::V4(v4) => SocketAddrV6 {
            ip: to_ipv6_mapped(v4.ip),
            port: v4.port,
            flowinfo: 0,
            scope_id: 0,
        },
        SocketAddr::V6(v6) => v6,
    }
}

/// Chooses the addresses of the header: a client that speaks IPv4, mapped or not, gets an IPv4
/// header, any other an IPv6 header.
pub fn make_proxy_protocol_addresses(src_addr: SocketAddr, forward_addr: SocketAddr) -> (r:
    V2Addresses)
    ensures
        r == addresses_for(src_addr, forward_addr),
        src_addr matches SocketAddr::V4(v4) ==> (r matches V2Addresses::Ipv4 { source, .. }
            && source == v4),
        r matches V2Addresses::Ipv6 { source, .. } ==> src_addr == SocketAddr::V6(source),
{
    match src_addr {
        SocketAddr::V4(src_addr4) => {
            V2Addresses::Ipv4 {
                source: src_addr4,
                destination: proxy_protocol_get_dest_v4(forward_addr),
            }
        },
        SocketAddr::V6(src_addr6) => {
            if let Some(mapped) = to_ipv4_mapped(src_addr6.ip) {
                V2Addresses::Ipv4 {
                    source: SocketAddrV4 { ip: mapped, port: src_addr6.port },
                    destination: proxy_protocol_get_dest_v4(forward_addr),
                }
            } else {
                V2Addresses::Ipv6 {
                    source: src_addr6,
                    destination: proxy_protocol_get_dest_v6(forward_addr),
                }
            }
        },
    }
}

/// The source that the receiver of a header for this client reads.
pub open spec fn announced_source(src_addr: SocketAddr) -> SocketAddr {
    match unmapped(src_addr) {
        SocketAddr::V4(v4) => SocketAddr::V4(v4),
        SocketAddr::V6(v6) => SocketAddr::V6(v6_on_wire(v6)),
    }
}

/// The destination that the receiver of a header for this client reads.
pub open spec fn announced_destination(
    src_addr: SocketAddr,
    forward_addr: SocketAddr,
) -> SocketAddr {
    match unmapped(src_addr) {
        SocketAddr::V4(_) => SocketAddr::V4(destination_v4(forward_addr)),
        SocketAddr::V6(_) => SocketAddr::V6(v6_on_wire(destination_v6(forward_addr))),
    }
}

/// Source and destination of a header are of one family: IPv4 where the client speaks IPv4, mapped
/// or not, else IPv6. The ports are those of the client and of the server.
pub proof fn law_endpoints_agree(src_addr: SocketAddr, forward_addr: SocketAddr)
    ensures
        announced_source(src_addr) is V4 <==> announced_destination(src_addr, forward_addr) is V4,
        announced_source(src_addr) is V4 <==> (match src_addr {
            SocketAddr::V4(_) => true,
            SocketAddr::V6(v6) => mapped_ipv4(v6.ip) is Some,
        }),
        announced_source(src_addr).spec_port() == src_addr.spec_port(),
        announced_destination(src_addr, forward_addr).spec_port() == forward_addr.spec_port(),
{
}

/// A client whose IPv4 address arrives mapped into IPv6 gets the header it would get without the
/// mapping.
pub proof fn law_mapping_does_not_show(
    client: SocketAddrV4,
    seen: SocketAddrV6,
    forward_addr: SocketAddr,
)
    requires
        seen.ip == mapped_ipv6(client.ip),
        seen.port == client.port,
    ensures
        addresses_for(SocketAddr::V6(seen), forward_addr) == addresses_for(
            SocketAddr::V4(client),
            forward_addr,
        ),
{
}

/// In front of any payload, the header reads as version 2 with these endpoints, and the payload
/// comes out whole.
pub open spec fn carries(header: Seq<u8>, source: SocketAddr, destination: SocketAddr) -> bool {
    forall|payload: Seq<u8>|
        {
            &&& !header_cut_short(#[trigger] (header + payload))
            &&& header_fields(header + payload) == Ok::<_, HeaderError<Seq<char>>>(
                (Some((source, destination)), payload, 2i32),
            )
        }
}

proof fn lemma_be_bytes_len(x: nat, n: nat)
    ensures
        be_bytes(x, n).len() == n,
    decreases n,
{
    if n > 0 {
        lemma_be_bytes_len(x / 256, (n - 1) as nat);
    }
}

/// How long a version 2 header is: 28 bytes for IPv4, 52 for IPv6.
pub proof fn law_v2_header_len(
    command: ProxyCommand,
    transport_protocol: ProxyTransportProtocol,
    addresses: V2Addresses,
)
    ensures
        v2_header(command, transport_protocol, addresses).len() == match addresses {
            V2Addresses::Unspec => 16int,
            V2Addresses::Ipv4 { .. } => 28,
            V2Addresses::Ipv6 { .. } => 52,
            V2Addresses::Unix { .. } => 232,
        },
{
    assert forall|x: nat, n: nat| #[trigger] be_bytes(x, n).len() == n by {
        lemma_be_bytes_len(x, n);
    }
}

/// A whole version 2 header does not break off, whatever follows it.
pub proof fn law_v2_header_is_whole(
    command: ProxyCommand,
    transport_protocol: ProxyTransportProtocol,
    addresses: V2Addresses,
    payload: Seq<u8>,
)
    ensures
        !header_cut_short(v2_header(command, transport_protocol, addresses) + payload),
{
    let header = v2_header(command, transport_protocol, addresses);
    let block = v2_address_block(addresses);
    let bytes = header + payload;
    law_v2_header_len(command, transport_protocol, addresses);
    assert forall|x: nat, n: nat| #[trigger] be_bytes(x, n).len() == n by {
        lemma_be_bytes_len(x, n);
    }
    assert(bytes[0] == v2_signature()[0]);
    if bytes.take(7) == v1_tcp_opening() {
        assert(bytes.take(7)[0] == v1_tcp_opening()[0]);
    }
    let announced = be_bytes(block.len(), 2);
    assert(bytes[13] == v2_family_byte(addresses, transport_protocol));
    assert(bytes[14] == announced[0]);
    assert(bytes[15] == announced[1]);
    assert(announced[0] == block.len() / 256 && announced[1] == block.len() % 256) by {
        reveal_with_fuel(be_bytes, 3);
    }
}

/// Writes the header for the datagrams of a client.
pub fn udp_proxy_header(src_addr: SocketAddr, forward_addr: SocketAddr) -> (r: Result<
    Vec<u8>,
    proxy_protocol::EncodeError,
>)
    ensures
        r is Ok,
        r matches Ok(header) ==> header@ == v2_header(
            ProxyCommand::Proxy,
            ProxyTransportProtocol::Datagram,
            addresses_for(src_addr, forward_addr),
        ),
        r matches Ok(header) ==> carries(
            header@,
            announced_source(src_addr),
            announced_destination(src_addr, forward_addr),
        ),
{
    let addresses = make_proxy_protocol_addresses(src_addr, forward_addr);
    let encoded = encode_header(ProxyCommand::Proxy, ProxyTransportProtocol::Datagram, addresses);
    proof {
        let header = encoded->Ok_0@;
        let source = announced_source(src_addr);
        let destination = announced_destination(src_addr, forward_addr);
        assert forall|payload: Seq<u8>|
            {
                &&& !header_cut_short(#[trigger] (header + payload))
                &&& header_fields(header + payload) == Ok::<_, HeaderError<Seq<char>>>(
                    (Some((source, destination)), payload, 2i32),
                )
            } by {
            law_v2_header_is_whole(
                ProxyCommand::Proxy,
                ProxyTransportProtocol::Datagram,
                addresses,
                payload,
            );
            assert(proxy_header(header + payload) is Ok);
            assert((header + payload).skip(header.len() as int) =~= payload);
        }
    }
    encoded
}

/// Puts a header in front of a payload.
pub fn frame_datagram(header: &[u8], payload: &[u8]) -> (r: Vec<u8>)
    requires
        header@.len() + payload@.len() <= isize::MAX,
    ensures
        r@ == header@ + payload@,
{
    let mut send_buffer: Vec<u8> = Vec::with_capacity(header.len() + payload.len());
    send_buffer.extend_from_slice(header);
    send_buffer.extend_from_slice(payload);
    send_buffer
}

// ---------------------------------------------------------------------------------------------
// Laws of reading
// ---------------------------------------------------------------------------------------------

/// What is read of a datagram is what its header says: the endpoints that the header names, source
/// first, each with its own address and port; the version of the header; and all bytes behind the
/// header. A header that names UNIX sockets is refused, and bytes that hold no header are refused
/// with the words of the parser.
pub proof fn law_result_is_what_the_header_says(result: ProxyProtocolResult<'_>, bytes: Seq<u8>)
    requires
        reads_as(result, bytes),
    ensures
        match proxy_header(bytes) {
            Err(words) => result matches Err(HeaderError::Malformed(reason)) && reason@ == words,
            Ok((ProxyHeader::Version2(V2Addresses::Unix { .. }), _)) => result matches Err(
                HeaderError::UnixSockets,
            ),
            Ok((header, used)) => result matches Ok((pair, rest, version)) && {
                &&& rest@ == bytes.subrange(used as int, bytes.len() as int)
                &&& used + rest@.len() == bytes.len()
                &&& used > 0
                &&& match header {
                    ProxyHeader::Version1(V1Addresses::Unknown) => pair is None && version == 1,
                    ProxyHeader::Version1(V1Addresses::Ipv4 { source, destination }) => pair
                        == Some((SocketAddr::V4(source), SocketAddr::V4(destination))) && version
                        == 1,
                    ProxyHeader::Version1(V1Addresses::Ipv6 { source, destination }) => pair
                        == Some((SocketAddr::V6(source), SocketAddr::V6(destination))) && version
                        == 1,
                    ProxyHeader::Version2(V2Addresses::Unspec) => pair is None && version == 2,
                    ProxyHeader::Version2(V2Addresses::Ipv4 { source, destination }) => pair
                        == Some((SocketAddr::V4(source), SocketAddr::V4(destination))) && version
                        == 2,
                    ProxyHeader::Version2(V2Addresses::Ipv6 { source, destination }) => pair
                        == Some((SocketAddr::V6(source), SocketAddr::V6(destination))) && version
                        == 2,
                    ProxyHeader::Version2(V2Addresses::Unix { .. }) => false,
                }
            },
        },
{
    if let Ok((pair, rest, version)) = result {
        let used = proxy_header(bytes)->Ok_0.1;
        assert(bytes.skip(used as int) =~= bytes.subrange(used as int, bytes.len() as int));
    }
}

/// The number that bytes denote in network byte order.
pub open spec fn be_value(bytes: Seq<u8>) -> nat
    decreases bytes.len(),
{
    if bytes.len() == 0 {
        0
    } else {
        be_value(bytes.drop_last()) * 256 + bytes.last() as nat
    }
}

/// The first number that `n` bytes cannot hold.
pub open spec fn be_limit(n: nat) -> nat
    decreases n,
{
    if n == 0 {
        1
    } else {
        256 * be_limit((n - 1) as nat)
    }
}

/// A number that fits is denoted by its own bytes.
pub proof fn law_bytes_denote_their_number(x: nat, n: nat)
    requires
        x < be_limit(n),
    ensures
        be_bytes(x, n).len() == n,
        be_value(be_bytes(x, n)) == x,
    decreases n,
{
    lemma_be_bytes_len(x, n);
    if n > 0 {
        let front = be_bytes(x / 256, (n - 1) as nat);
        law_bytes_denote_their_number(x / 256, (n - 1) as nat);
        assert(be_bytes(x, n).drop_last() =~= front);
    }
}

/// Where each part of a version 2 header stands: the signature, version and command, family and
/// transport, the length of what follows, and then source address, destination address, source port
/// and destination port, each in network byte order.
pub proof fn law_v2_header_layout(
    command: ProxyCommand,
    transport_protocol: ProxyTransportProtocol,
    addresses: V2Addresses,
)
    ensures
        ({
            let header = v2_header(command, transport_protocol, addresses);
            &&& header.len() >= 16
            &&& header.take(12) =~= seq![
                0x0du8,
                0x0a,
                0x0d,
                0x0a,
                0x00,
                0x0d,
                0x0a,
                0x51,
                0x55,
                0x49,
                0x54,
                0x0a,
            ]
            &&& header[12] / 16 == 2
            &&& header[12] % 16 == 1 <==> command == ProxyCommand::Proxy
            &&& header[12] % 16 == 0 <==> command == ProxyCommand::Local
            &&& header[13] % 16 == 0 <==> transport_protocol == ProxyTransportProtocol::Unspec
            &&& header[13] % 16 == 1 <==> transport_protocol == ProxyTransportProtocol::Stream
            &&& header[13] % 16 == 2 <==> transport_protocol == ProxyTransportProtocol::Datagram
            &&& header[14] * 256 + header[15] == header.len() - 16
            &&& match addresses {
                V2Addresses::Unspec => header[13] / 16 == 0 && header.len() == 16,
                V2Addresses::Ipv4 { source, destination } => {
                    &&& header[13] / 16 == 1 && header.len() == 28
                    &&& be_value(header.subrange(16, 20)) == source.ip
                    &&& be_value(header.subrange(20, 24)) == destination.ip
                    &&& be_value(header.subrange(24, 26)) == source.port
                    &&& be_value(header.subrange(26, 28)) == destination.port
                },
                V2Addresses::Ipv6 { source, destination } => {
                    &&& header[13] / 16 == 2 && header.len() == 52
                    &&& be_value(header.subrange(16, 32)) == source.ip
                    &&& be_value(header.subrange(32, 48)) == destination.ip
                    &&& be_value(header.subrange(48, 50)) == source.port
                    &&& be_value(header.subrange(50, 52)) == destination.port
                },
                V2Addresses::Unix { source_path, destination_path } => {
                    &&& header[13] / 16 == 3 && header.len() == 232
                    &&& header.subrange(16, 124) == source_path@
                    &&& header.subrange(124, 232) == destination_path@
                },
            }
        }),
{
    let header = v2_header(command, transport_protocol, addresses);
    let block = v2_address_block(addresses);
    law_v2_header_len(command, transport_protocol, addresses);
    lemma_limits();
    assert forall|x: nat, n: nat| #[trigger] be_bytes(x, n).len() == n by {
        lemma_be_bytes_len(x, n);
    }
    let announced = be_bytes(block.len(), 2);
    assert(announced[0] == block.len() / 256 && announced[1] == block.len() % 256) by {
        reveal_with_fuel(be_bytes, 3);
    }
    assert(header.take(12) =~= v2_signature());
    assert(header[12] == v2_command_byte(command));
    assert(header[13] == v2_family_byte(addresses, transport_protocol));
    assert(header[14] == announced[0] && header[15] == announced[1]);
    match addresses {
        V2Addresses::Ipv4 { source, destination } => {
            law_bytes_denote_their_number(source.ip as nat, 4);
            law_bytes_denote_their_number(destination.ip as nat, 4);
            law_bytes_denote_their_number(source.port as nat, 2);
            law_bytes_denote_their_number(destination.port as nat, 2);
            assert(header.subrange(16, 20) =~= be_bytes(source.ip as nat, 4));
            assert(header.subrange(20, 24) =~= be_bytes(destination.ip as nat, 4));
            assert(header.subrange(24, 26) =~= be_bytes(source.port as nat, 2));
            assert(header.subrange(26, 28) =~= be_bytes(destination.port as nat, 2));
        },
        V2Addresses::Ipv6 { source, destination } => {
            law_bytes_denote_their_number(source.ip as nat, 16);
            law_bytes_denote_their_number(destination.ip as nat, 16);
            law_bytes_denote_their_number(source.port as nat, 2);
            law_bytes_denote_their_number(destination.port as nat, 2);
            assert(header.subrange(16, 32) =~= be_bytes(source.ip as nat, 16));
            assert(header.subrange(32, 48) =~= be_bytes(destination.ip as nat, 16));
            assert(header.subrange(48, 50) =~= be_bytes(source.port as nat, 2));
            assert(header.subrange(50, 52) =~= be_bytes(destination.port as nat, 2));
        },
        V2Addresses::Unix { source_path, destination_path } => {
            assert(header.subrange(16, 124) =~= source_path@);
            assert(header.subrange(124, 232) =~= destination_path@);
        },
        V2Addresses::Unspec => {},
    }
}

proof fn lemma_limits()
    ensures
        be_limit(2) == 0x1_0000,
        be_limit(4) == 0x1_0000_0000,
        be_limit(16) == 0x1_0000_0000_0000_0000 * 0x1_0000_0000_0000_0000,
{
    reveal_with_fuel(be_limit, 17);
}

/// A datagram counts as broken off in exactly two ways: it is a version 2 header with addresses,
/// valid in all its fields, of which the addresses are there but not all that it announces; or it
/// is a version 1 header with addresses that becomes whole with the line feed that it lacks.
pub proof fn law_what_breaks_off(bytes: Seq<u8>)
    ensures
        v2_cut_short(bytes) <==> {
            &&& opens_as_v2(bytes) && bytes.len() >= 28
            &&& bytes[12] / 16 == 2 && bytes[12] % 16 <= 1
            &&& bytes[13] % 16 <= 2
            &&& bytes[13] / 16 == 1 || (bytes[13] / 16 == 2 && bytes.len() >= 52) || (bytes[13] / 16
                == 3 && bytes.len() >= 232)
            &&& bytes.len() < 16 + bytes[14] * 256 + bytes[15]
        },
        v1_cut_short(bytes) ==> {
            &&& bytes.len() >= 9 && bytes[0] == 0x50 && bytes[6] == 0x54
            &&& bytes[bytes.len() - 1] == 0x0d
            &&& proxy_header(bytes + seq![0x0a]) matches Ok((_, used)) && used == bytes.len() + 1
        },
        v1_cut_short(bytes) <== {
            &&& bytes.len() >= 9 && bytes.take(7) == seq![
                0x50u8,
                0x52,
                0x4f,
                0x58,
                0x59,
                0x20,
                0x54,
            ]
            &&& bytes[bytes.len() - 1] == 0x0d && bytes[bytes.len() - 3] != 0x20
            &&& proxy_header(bytes + seq![0x0a]) matches Ok((_, used)) && used == bytes.len() + 1
        },
        header_cut_short(bytes) <==> v1_cut_short(bytes) || v2_cut_short(bytes),
{
    assert(bytes.push(0x0a) =~= bytes + seq![0x0a]);
    if v1_cut_short(bytes) {
        assert(bytes[0] == bytes.take(7)[0] && bytes[6] == bytes.take(7)[6]);
    }
}

// ---------------------------------------------------------------------------------------------
// Laws of writing
// ---------------------------------------------------------------------------------------------

/// The source that a header announces is the client: an IPv4 client with its own address; a client
/// whose IPv6 address is `::ffff` and an IPv4 address with that IPv4 address; any other client with
/// its own IPv6 address. The port is the client's.
pub proof fn law_header_announces_the_client(client: SocketAddr)
    ensures
        announced_source(client).spec_port() == client.spec_port(),
        client is V4 ==> announced_source(client).spec_ip() == client.spec_ip(),
        client matches SocketAddr::V6(v6) ==> if v6.ip / 0x1_0000_0000 == 0xffff {
            announced_source(client).spec_ip() == IpAddr::V4((v6.ip % 0x1_0000_0000) as u32)
        } else {
            announced_source(client) == SocketAddr::V6(
                (SocketAddrV6 { ip: v6.ip, port: v6.port, flowinfo: 0, scope_id: 0 }),
            )
        },
{
}

/// Clients that are announced alike are one and the same, but for the mapping of an IPv4 address
/// into IPv6 and for what only a local socket knows.
pub proof fn law_clients_are_told_apart(a: SocketAddr, b: SocketAddr)
    requires
        announced_source(a) == announced_source(b),
    ensures
        a.spec_port() == b.spec_port(),
        match (a.spec_ip(), b.spec_ip()) {
            (IpAddr::V4(x), IpAddr::V4(y)) => x == y,
            (IpAddr::V6(x), IpAddr::V6(y)) => x == y,
            (IpAddr::V4(x), IpAddr::V6(y)) => y == 0xffff_0000_0000 + x,
            (IpAddr::V6(x), IpAddr::V4(y)) => x == 0xffff_0000_0000 + y,
        },
{
}

/// The destination that a header announces is the server: with its own address where client and
/// server are of one family; to an IPv6 client, an IPv4 server is announced as mapped into IPv6; to
/// an IPv4 client, an IPv6 server that carries an IPv4 address is announced with that address, and
/// any other as `0.0.0.0`. The port is the server's.
pub proof fn law_header_announces_the_server(client: SocketAddr, server: SocketAddr)
    ensures
        announced_destination(client, server).spec_port() == server.spec_port(),
        announced_destination(client, server).spec_ip() == match (
            announced_source(client),
            server,
        ) {
            (SocketAddr::V4(_), SocketAddr::V4(v4)) => IpAddr::V4(v4.ip),
            (SocketAddr::V4(_), SocketAddr::V6(v6)) => IpAddr::V4(
                if v6.ip / 0x1_0000_0000 == 0xffff {
                    (v6.ip % 0x1_0000_0000) as u32
                } else {
                    0
                },
            ),
            (SocketAddr::V6(_), SocketAddr::V4(v4)) => IpAddr::V6(
                (0xffff_0000_0000 + v4.ip) as u128,
            ),
            (SocketAddr::V6(_), SocketAddr::V6(v6)) => IpAddr::V6(v6.ip),
        },
{
}

/// The addresses of a header are those that it announces: source and destination are of one
/// family, and each is the announced one; an IPv6 client and an IPv6 server keep, up to the wire,
/// what only a local socket knows.
pub proof fn law_header_addresses(client: SocketAddr, server: SocketAddr)
    ensures
        match addresses_for(client, server) {
            V2Addresses::Ipv4 { source, destination } => {
                &&& announced_source(client) == SocketAddr::V4(source)
                &&& announced_destination(client, server) == SocketAddr::V4(destination)
            },
            V2Addresses::Ipv6 { source, destination } => {
                &&& client == SocketAddr::V6(source)
                &&& announced_source(client).spec_ip() == IpAddr::V6(source.ip)
                &&& announced_destination(client, server).spec_ip() == IpAddr::V6(destination.ip)
                &&& announced_destination(client, server).spec_port() == destination.port
                &&& server matches SocketAddr::V6(v6) ==> destination == v6
                &&& server is V4 ==> destination.flowinfo == 0 && destination.scope_id == 0
            },
            _ => false,
        },
{
}

} // verus!
