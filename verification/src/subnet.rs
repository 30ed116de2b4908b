//! Subnets of the proxy servers whose datagrams are accepted.
use vstd::arithmetic::div_mod::{lemma_fundamental_div_mod, lemma_mod_bound, lemma_small_mod};
use vstd::arithmetic::power2::{lemma2_to64, lemma_pow2_adds, lemma_pow2_pos, pow2};
use vstd::prelude::*;

use crate::addr::IpAddr;
use crate::text::{is_line, joined, law_lines_are_read_back, lines, split_lines};

verus! {

/// A network: its first address and the length of the prefix that its addresses share.
#[derive(Clone, Copy, Debug, PartialEq, Eq, Structural)]
pub enum IpCidr {
    V4 { first: u32, prefix: u8 },
    V6 { first: u128, prefix: u8 },
}

impl IpCidr {
    /// The prefix is no longer than an address, and the first address has no bit set behind it.
    pub open spec fn wf(self) -> bool {
        match self {
            IpCidr::V4 { first, prefix } => prefix <= 32 && first as nat % pow2(
                (32 - prefix) as nat,
            ) == 0,
            IpCidr::V6 { first, prefix } => prefix <= 128 && first as nat % pow2(
                (128 - prefix) as nat,
            ) == 0,
        }
    }

    /// The address is of the network's family and shares its prefix.
    pub open spec fn contains(self, addr: IpAddr) -> bool {
        match (self, addr) {
            (IpCidr::V4 { first, prefix }, IpAddr::V4(ip)) => first <= ip < first + pow2(
                (32 - prefix) as nat,
            ),
            (IpCidr::V6 { first, prefix }, IpAddr::V6(ip)) => first <= ip < first + pow2(
                (128 - prefix) as nat,
            ),
            _ => false,
        }
    }
}

/// Why a list of subnets cannot be used.
#[derive(Debug)]
pub struct SubnetsError {
    /// The first line that is no network, counted from zero.
    pub line: usize,
    /// What is wrong with it.
    pub reason: String,
}

// ---------------------------------------------------------------------------------------------
// Trusted: the `cidr` crate
// ---------------------------------------------------------------------------------------------

/// The network that `cidr::IpCidr::from_str` reads from a text, or the words with which it refuses
/// the text.
pub uninterp spec fn cidr_text(text: Seq<char>) -> Result<IpCidr, Seq<char>>;

/// Calls `cidr::IpCidr::from_str`. Its result goes by the name `cidr_text`; a network that it
/// returns has a prefix that fits its family, and no bit set behind it.
#[verifier::external_body]
fn parse_cidr(text: &str) -> (r: Result<IpCidr, String>)
    ensures
        match r {
            Ok(net) => cidr_text(text@) == Ok::<_, Seq<char>>(net) && net.wf(),
            Err(reason) => cidr_text(text@) == Err::<IpCidr, _>(reason@),
        },
{
    match text.parse::<cidr::IpCidr>() {
        Ok(cidr::IpCidr::V4(net)) => {
            Ok(IpCidr::V4 { first: net.first_address().into(), prefix: net.network_length() })
        },
        Ok(cidr::IpCidr::V6(net)) => {
            Ok(IpCidr::V6 { first: net.first_address().into(), prefix: net.network_length() })
        },
        Err(err) => Err(err.to_string()),
    }
}

/// Calls `cidr::IpCidr::contains`, on the network that `cidr::IpCidr::new` makes of the first
/// address and the prefix. It tells whether the address lies in the network.
#[verifier::external_body]
fn net_contains(net: &IpCidr, addr: &IpAddr) -> (r: bool)
    requires
        net.wf(),
    ensures
        r == net.contains(*addr),
{
    let made = match *net {
        IpCidr::V4 { first, prefix } => {
            cidr::IpCidr::new(core::net::Ipv4Addr::from(first).into(), prefix)
        },
        IpCidr::V6 { first, prefix } => {
            cidr::IpCidr::new(core::net::Ipv6Addr::from(first).into(), prefix)
        },
    };
    let addr = match *addr {
        IpAddr::V4(ip) => core::net::IpAddr::V4(ip.into()),
        IpAddr::V6(ip) => core::net::IpAddr::V6(ip.into()),
    };
    made.is_ok_and(|net| net.contains(&addr))
}

// ---------------------------------------------------------------------------------------------
// Reading and asking
// ---------------------------------------------------------------------------------------------

/// The networks that these lines name, or the first line that names none, with the reason.
pub open spec fn subnets(lines: Seq<Seq<char>>) -> Result<Seq<IpCidr>, (nat, Seq<char>)>
    decreases lines.len(),
{
    if lines.len() == 0 {
        Ok(Seq::empty())
    } else {
        match subnets(lines.drop_last()) {
            Err(refused) => Err(refused),
            Ok(nets) => match cidr_text(lines.last()) {
                Ok(net) => Ok(nets.push(net)),
                Err(reason) => Err(((lines.len() - 1) as nat, reason)),
            },
        }
    }
}

proof fn lemma_refused_prefix(lines: Seq<Seq<char>>, n: int)
    requires
        0 <= n <= lines.len(),
        subnets(lines.take(n)) is Err,
    ensures
        subnets(lines) == subnets(lines.take(n)),
    decreases lines.len() - n,
{
    if n == lines.len() {
        assert(lines.take(n) =~= lines);
    } else {
        assert(lines.take(n + 1).drop_last() =~= lines.take(n));
        lemma_refused_prefix(lines, n + 1);
    }
}

/// A list of networks is usable: every network is well formed.
pub open spec fn all_wf(nets: Seq<IpCidr>) -> bool {
    forall|i: int| 0 <= i < nets.len() ==> (#[trigger] nets[i]).wf()
}

/// Adds what was read from a line to the list, or tells why the line is refused.
pub fn add_subnet(
    data: &mut Vec<IpCidr>,
    line: usize,
    parsed: Result<IpCidr, String>,
) -> (r: Result<(), SubnetsError>)
    ensures
        match parsed {
            Ok(net) => r is Ok && final(data)@ == old(data)@.push(net),
            Err(reason) => (r matches Err(err) && err.line == line && err.reason == reason)
                && final(data)@ == old(data)@,
        },
{
    match parsed {
        Ok(net) => {
            data.push(net);
            Ok(())
        },
        Err(reason) => Err(SubnetsError { line, reason }),
    }
}

/// Reads a list of subnets, one on each line.
pub fn parse_allowed_subnets(contents: &str) -> (r: Result<Vec<IpCidr>, SubnetsError>)
    ensures
        match r {
            Ok(nets) => subnets(lines(contents@)) == Ok::<_, (nat, Seq<char>)>(nets@) && all_wf(
                nets@,
            ),
            Err(err) => subnets(lines(contents@)) == Err::<Seq<IpCidr>, _>(
                (err.line as nat, err.reason@),
            ),
        },
{
    let mut data: Vec<IpCidr> = Vec::new();
    let found = split_lines(contents);
    let ghost all = lines(contents@);
    let mut i: usize = 0;
    assert(all.take(0) =~= Seq::empty());
    while i < found.len()
        invariant
            i <= found@.len(),
            found@.len() == all.len(),
            all == lines(contents@),
            forall|k: int| 0 <= k < found@.len() ==> (#[trigger] found@[k])@ == all[k],
            subnets(all.take(i as int)) == Ok::<_, (nat, Seq<char>)>(data@),
            all_wf(data@),
        decreases found@.len() - i,
    {
        assert(all.take(i + 1).drop_last() =~= all.take(i as int));
        assert(all.take(i + 1).last() == all[i as int]);
        let parsed = parse_cidr(found[i]);
        if let Err(err) = add_subnet(&mut data, i, parsed) {
            proof {
                lemma_refused_prefix(all, i + 1);
            }
            return Err(err);
        }
        i += 1;
    }
    assert(all.take(i as int) =~= all);
    Ok(data)
}

/// A list that holds a text for each of these networks, one on each line, is read as these
/// networks, in this order.
pub proof fn law_list_is_read_in_order(texts: Seq<Seq<char>>, nets: Seq<IpCidr>)
    requires
        texts.len() == nets.len(),
        forall|i: int|
            0 <= i < texts.len() ==> is_line(#[trigger] texts[i]) && cidr_text(texts[i]) == Ok::<
                _,
                Seq<char>,
            >(nets[i]),
    ensures
        subnets(lines(joined(texts))) == Ok::<_, (nat, Seq<char>)>(nets),
{
    law_lines_are_read_back(texts);
    lemma_subnets_in_order(texts, nets);
}

proof fn lemma_subnets_in_order(texts: Seq<Seq<char>>, nets: Seq<IpCidr>)
    requires
        texts.len() == nets.len(),
        forall|i: int|
            0 <= i < texts.len() ==> cidr_text(#[trigger] texts[i]) == Ok::<_, Seq<char>>(nets[i]),
    ensures
        subnets(texts) == Ok::<_, (nat, Seq<char>)>(nets),
    decreases texts.len(),
{
    if texts.len() > 0 {
        assert forall|i: int| 0 <= i < texts.drop_last().len() implies cidr_text(
            #[trigger] texts.drop_last()[i],
        ) == Ok::<_, Seq<char>>(nets.drop_last()[i]) by {
            assert(texts.drop_last()[i] == texts[i]);
        }
        lemma_subnets_in_order(texts.drop_last(), nets.drop_last());
        assert(cidr_text(texts[texts.len() - 1]) == Ok::<_, Seq<char>>(nets[nets.len() - 1]));
        assert(nets.drop_last().push(nets.last()) =~= nets);
    } else {
        assert(nets =~= Seq::empty());
    }
}

/// The address lies in one of the networks.
pub open spec fn origin_allowed(addr: IpAddr, nets: Seq<IpCidr>) -> bool {
    exists|i: int| 0 <= i < nets.len() && (#[trigger] nets[i]).contains(addr)
}

/// Tells whether an address lies in one of the subnets.
pub fn check_origin_allowed(addr: &IpAddr, nets: &[IpCidr]) -> (r: bool)
    requires
        all_wf(nets@),
    ensures
        r == origin_allowed(*addr, nets@),
{
    let mut i: usize = 0;
    while i < nets.len()
        invariant
            i <= nets@.len(),
            all_wf(nets@),
            forall|k: int| 0 <= k < i ==> !(#[trigger] nets@[k]).contains(*addr),
        decreases nets@.len() - i,
    {
        if net_contains(&nets[i], addr) {
            return true;
        }
        i += 1;
    }
    false
}

/// More subnets let more origins in, never fewer; an empty list lets none in.
pub proof fn law_subnets_add_up(addr: IpAddr, nets: Seq<IpCidr>, more: Seq<IpCidr>)
    ensures
        origin_allowed(addr, nets + more) <==> origin_allowed(addr, nets) || origin_allowed(
            addr,
            more,
        ),
        !origin_allowed(addr, Seq::empty()),
{
    let both = nets + more;
    if origin_allowed(addr, nets) {
        let i = choose|i: int| 0 <= i < nets.len() && (#[trigger] nets[i]).contains(addr);
        assert(both[i].contains(addr));
    }
    if origin_allowed(addr, more) {
        let i = choose|i: int| 0 <= i < more.len() && (#[trigger] more[i]).contains(addr);
        assert(both[nets.len() + i].contains(addr));
    }
    if origin_allowed(addr, both) {
        let i = choose|i: int| 0 <= i < both.len() && (#[trigger] both[i]).contains(addr);
        if i < nets.len() {
            assert(nets[i].contains(addr));
        } else {
            assert(more[i - nets.len()].contains(addr));
        }
    }
}

/// A network holds its first address; with the longest prefix it holds no other, and with the
/// empty prefix it holds every address of its family.
pub proof fn law_prefix_extremes(net: IpCidr, addr: IpAddr)
    requires
        net.wf(),
    ensures
        net matches IpCidr::V4 { first, prefix } ==> {
            &&& net.contains(IpAddr::V4(first))
            &&& prefix == 32 ==> (net.contains(addr) <==> addr == IpAddr::V4(first))
            &&& prefix == 0 ==> (net.contains(addr) <==> addr is V4)
        },
        net matches IpCidr::V6 { first, prefix } ==> {
            &&& net.contains(IpAddr::V6(first))
            &&& prefix == 128 ==> (net.contains(addr) <==> addr == IpAddr::V6(first))
            &&& prefix == 0 ==> (net.contains(addr) <==> addr is V6)
        },
{
    lemma2_to64();
    match net {
        IpCidr::V4 { first, prefix } => {
            lemma_pow2_pos((32 - prefix) as nat);
            assert(pow2(32) == 0x1_0000_0000);
            if prefix == 0 {
                lemma_small_mod(first as nat, pow2(32));
            }
        },
        IpCidr::V6 { first, prefix } => {
            lemma_pow2_pos((128 - prefix) as nat);
            lemma_pow2_adds(64, 64);
            assert(pow2(128) == 0x1_0000_0000_0000_0000 * 0x1_0000_0000_0000_0000);
            if prefix == 0 {
                lemma_small_mod(first as nat, pow2(128));
            }
        },
    }
}

/// Two numbers lie in one block of `size` numbers.
proof fn lemma_same_block(first: nat, ip: nat, size: nat)
    requires
        size > 0,
        first % size == 0,
    ensures
        first <= ip < first + size <==> ip / size == first / size,
{
    lemma_fundamental_div_mod(first as int, size as int);
    lemma_fundamental_div_mod(ip as int, size as int);
    let f = (first / size) as int;
    let q = (ip / size) as int;
    let r = (ip % size) as int;
    let s = size as int;
    assert(0 <= r < s) by {
        lemma_mod_bound(ip as int, s);
    }
    if first <= ip < first + size && q != f {
        assert(false) by (nonlinear_arith)
            requires
                s * f <= s * q + r < s * f + s,
                0 <= r < s,
                s > 0,
                q != f,
        ;
    }
}

/// An address lies in a network exactly where both are of one family and agree in the leading bits
/// that the prefix counts.
pub proof fn law_network_is_a_shared_prefix(net: IpCidr, addr: IpAddr)
    requires
        net.wf(),
    ensures
        net.contains(addr) <==> match (net, addr) {
            (IpCidr::V4 { first, prefix }, IpAddr::V4(ip)) => ip as nat / pow2((32 - prefix) as nat)
                == first as nat / pow2((32 - prefix) as nat),
            (IpCidr::V6 { first, prefix }, IpAddr::V6(ip)) => ip as nat / pow2(
                (128 - prefix) as nat,
            ) == first as nat / pow2((128 - prefix) as nat),
            _ => false,
        },
{
    match (net, addr) {
        (IpCidr::V4 { first, prefix }, IpAddr::V4(ip)) => {
            lemma_pow2_pos((32 - prefix) as nat);
            lemma_same_block(first as nat, ip as nat, pow2((32 - prefix) as nat));
        },
        (IpCidr::V6 { first, prefix }, IpAddr::V6(ip)) => {
            lemma_pow2_pos((128 - prefix) as nat);
            lemma_same_block(first as nat, ip as nat, pow2((128 - prefix) as nat));
        },
        _ => {},
    }
}

/// An origin is allowed exactly where some network of its family has its leading bits.
pub proof fn law_allowed_origin_shares_a_prefix(v4: u32, v6: u128, nets: Seq<IpCidr>)
    requires
        all_wf(nets),
    ensures
        origin_allowed(IpAddr::V4(v4), nets) <==> exists|i: int|
            0 <= i < nets.len() && (#[trigger] nets[i] matches IpCidr::V4 { first, prefix }
                && v4 as nat / pow2((32 - prefix) as nat) == first as nat / pow2(
                (32 - prefix) as nat,
            )),
        origin_allowed(IpAddr::V6(v6), nets) <==> exists|i: int|
            0 <= i < nets.len() && (#[trigger] nets[i] matches IpCidr::V6 { first, prefix }
                && v6 as nat / pow2((128 - prefix) as nat) == first as nat / pow2(
                (128 - prefix) as nat,
            )),
{
    assert forall|i: int| 0 <= i < nets.len() implies (#[trigger] nets[i]).contains(IpAddr::V4(v4))
        == (nets[i] matches IpCidr::V4 { first, prefix } && v4 as nat / pow2((32 - prefix) as nat)
        == first as nat / pow2((32 - prefix) as nat)) by {
        law_network_is_a_shared_prefix(nets[i], IpAddr::V4(v4));
    }
    assert forall|i: int| 0 <= i < nets.len() implies (#[trigger] nets[i]).contains(IpAddr::V6(v6))
        == (nets[i] matches IpCidr::V6 { first, prefix } && v6 as nat / pow2((128 - prefix) as nat)
        == first as nat / pow2((128 - prefix) as nat)) by {
        law_network_is_a_shared_prefix(nets[i], IpAddr::V6(v6));
    }
}

/// Each line of a list gives one network, in order, and no line is passed over; a list with a line
/// that names no network is refused for the first such line, with its reason.
pub proof fn law_each_line_gives_one_network(lines: Seq<Seq<char>>)
    ensures
        match subnets(lines) {
            Ok(nets) => nets.len() == lines.len() && forall|i: int|
                0 <= i < lines.len() ==> cidr_text(#[trigger] lines[i]) == Ok::<_, Seq<char>>(
                    nets[i],
                ),
            Err((at, reason)) => at < lines.len() && cidr_text(lines[at as int]) == Err::<
                IpCidr,
                _,
            >(reason) && forall|i: int| 0 <= i < at ==> cidr_text(#[trigger] lines[i]) is Ok,
        },
    decreases lines.len(),
{
    if lines.len() > 0 {
        let front = lines.drop_last();
        law_each_line_gives_one_network(front);
        assert forall|i: int| 0 <= i < front.len() implies front[i] == #[trigger] lines[i] by {}
        if let Ok(nets) = subnets(front) {
            assert forall|i: int| 0 <= i < front.len() implies cidr_text(#[trigger] lines[i])
                == Ok::<_, Seq<char>>(nets[i]) by {
                assert(cidr_text(front[i]) == Ok::<_, Seq<char>>(nets[i]));
            }
        } else {
            let at = subnets(front)->Err_0.0;
            assert forall|i: int| 0 <= i < at implies cidr_text(#[trigger] lines[i]) is Ok by {
                assert(cidr_text(front[i]) is Ok);
            }
        }
    }
}

} // verus!
