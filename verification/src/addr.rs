//! Internet addresses as plain values.
use vstd::prelude::*;

verus! {

/// First IPv6 address of `::ffff:0:0/96`, the block that carries IPv4 addresses.
pub const MAPPED_FIRST: u128 = 0xffff_0000_0000;

/// Last IPv6 address of `::ffff:0:0/96`.
pub const MAPPED_LAST: u128 = 0xffff_ffff_ffff;

/// An IP address; the number is the address read in network byte order.
#[derive(Clone, Copy, Debug, PartialEq, Eq, Hash, Structural)]
pub enum IpAddr {
    V4(u32),
    V6(u128),
}

/// An IPv4 address and a port.
#[derive(Clone, Copy, Debug, PartialEq, Eq, Hash, Structural)]
pub struct SocketAddrV4 {
    pub ip: u32,
    pub port: u16,
}

/// An IPv6 address and a port, with the flow label and the scope that a local socket knows.
#[derive(Clone, Copy, Debug, PartialEq, Eq, Hash, Structural)]
pub struct SocketAddrV6 {
    pub ip: u128,
    pub port: u16,
    pub flowinfo: u32,
    pub scope_id: u32,
}

/// The address of a socket.
#[derive(Clone, Copy, Debug, PartialEq, Eq, Hash, Structural)]
pub enum SocketAddr {
    V4(SocketAddrV4),
    V6(SocketAddrV6),
}

/// The IPv4 address that an IPv6 address of `::ffff:0:0/96` carries.
pub open spec fn mapped_ipv4(ip: u128) -> Option<u32> {
    if MAPPED_FIRST <= ip <= MAPPED_LAST {
        Some((ip - MAPPED_FIRST) as u32)
    } else {
        None
    }
}

/// The IPv6 address that carries an IPv4 address.
pub open spec fn mapped_ipv6(ip: u32) -> u128 {
    (MAPPED_FIRST + ip) as u128
}

/// Reads the IPv4 address out of an IPv4-mapped IPv6 address.
pub fn to_ipv4_mapped(ip: u128) -> (r: Option<u32>)
    ensures
        r == mapped_ipv4(ip),
{
    if MAPPED_FIRST <= ip && ip <= MAPPED_LAST {
        Some((ip - MAPPED_FIRST) as u32)
    } else {
        None
    }
}

/// Maps an IPv4 address into IPv6.
pub fn to_ipv6_mapped(ip: u32) -> (r: u128)
    ensures
        r == mapped_ipv6(ip),
{
    MAPPED_FIRST + ip as u128
}

/// Mapping an IPv4 address into IPv6 and reading it back gives the same address.
pub proof fn law_mapping_round_trip(ip: u32)
    ensures
        mapped_ipv4(mapped_ipv6(ip)) == Some(ip),
{
}

/// Different IPv4 addresses are carried by different IPv6 addresses, and every IPv6 address that
/// carries one is the image of the address it carries.
pub proof fn law_mapping_is_exact(ip: u128)
    ensures
        mapped_ipv4(ip) matches Some(v4) ==> mapped_ipv6(v4) == ip,
{
}

impl SocketAddr {
    /// The IP address of this socket address.
    pub open spec fn spec_ip(self) -> IpAddr {
        match self {
            SocketAddr::V4(v4) => IpAddr::V4(v4.ip),
            SocketAddr::V6(v6) => IpAddr::V6(v6.ip),
        }
    }

    /// The port of this socket address.
    pub open spec fn spec_port(self) -> u16 {
        match self {
            SocketAddr::V4(v4) => v4.port,
            SocketAddr::V6(v6) => v6.port,
        }
    }

    /// Returns the IP address.
    pub fn ip(&self) -> (r: IpAddr)
        ensures
            r == self.spec_ip(),
    {
        match self {
            SocketAddr::V4(v4) => IpAddr::V4(v4.ip),
            SocketAddr::V6(v6) => IpAddr::V6(v6.ip),
        }
    }
}

/// The socket address that `str::parse::<SocketAddr>` reads from a text, or the words with which
/// it refuses the text.
pub uninterp spec fn socket_addr_text(text: Seq<char>) -> Result<SocketAddr, Seq<char>>;

/// Calls `str::parse` at `std`'s `SocketAddr`. Its result goes by the name `socket_addr_text`.
#[verifier::external_body]
pub(crate) fn parse_socket_addr(text: &str) -> (r: Result<SocketAddr, String>)
    ensures
        match r {
            Ok(addr) => socket_addr_text(text@) == Ok::<_, Seq<char>>(addr),
            Err(reason) => socket_addr_text(text@) == Err::<SocketAddr, _>(reason@),
        },
{
    match text.parse::<core::net::SocketAddr>() {
        Ok(core::net::SocketAddr::V4(addr)) => {
            Ok(SocketAddr::V4(SocketAddrV4 { ip: u32::from(*addr.ip()), port: addr.port() }))
        },
        Ok(core::net::SocketAddr::V6(addr)) => Ok(SocketAddr::V6(SocketAddrV6 {
            ip: u128::from(*addr.ip()),
            port: addr.port(),
            flowinfo: addr.flowinfo(),
            scope_id: addr.scope_id(),
        })),
        Err(err) => Err(err.to_string()),
    }
}

/// An IPv6 address carries an IPv4 address exactly where its upper 96 bits are `::ffff`; its lower
/// 32 bits are then that address, and mapping puts them there.
pub proof fn law_mapped_address_is_the_lower_half(ip: u128, v4: u32)
    ensures
        mapped_ipv4(ip) == Some(v4) <==> ip / 0x1_0000_0000 == 0xffff && ip % 0x1_0000_0000 == v4,
        mapped_ipv4(ip) is None <==> ip / 0x1_0000_0000 != 0xffff,
        mapped_ipv6(v4) / 0x1_0000_0000 == 0xffff,
        mapped_ipv6(v4) % 0x1_0000_0000 == v4,
{
}

/// A socket address is its IP address and its port, whatever else a local socket knows.
pub proof fn law_socket_address_parts(v4: SocketAddrV4, v6: SocketAddrV6)
    ensures
        SocketAddr::V4(v4).spec_ip() == IpAddr::V4(v4.ip),
        SocketAddr::V4(v4).spec_port() == v4.port,
        SocketAddr::V6(v6).spec_ip() == IpAddr::V6(v6.ip),
        SocketAddr::V6(v6).spec_port() == v6.port,
{
}

} // verus!
