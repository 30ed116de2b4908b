//! The command line.
use vstd::prelude::*;
use vstd::string::*;

use crate::addr::{
    parse_socket_addr, socket_addr_text, SocketAddr, SocketAddrV4, SocketAddrV6,
};
use crate::subnet::{
    all_wf, cidr_text, law_each_line_gives_one_network, law_list_is_read_in_order,
    parse_allowed_subnets, subnets, IpCidr,
};
use crate::text::{
    ascii_lowercase, decimal_value, is_decimal, is_decimal_up_to, is_line, is_text, joined, lines,
    lowercase, parse_u32, parse_u64, to_lowercase, u32_parse_error, u64_parse_error,
};

verus! {

// ---------------------------------------------------------------------------------------------
// Settings
// ---------------------------------------------------------------------------------------------

/// The transport protocol that is proxied.
#[derive(Clone, Copy, Debug, PartialEq, Eq, Structural)]
pub enum Protocol {
    Tcp,
    Udp,
}

impl Default for Protocol {
    fn default() -> (r: Self)
        ensures
            r == Protocol::Tcp,
    {
        Self::Tcp
    }
}

/// Settings of the mode that takes PROXY headers off and speaks with the client's address.
#[derive(Clone, Debug)]
pub struct ArgsMmproxy {
    pub help: bool,
    pub ipv4_fwd: SocketAddr,
    pub ipv6_fwd: SocketAddr,
    /// The subnets from which datagrams are taken; `None` for all.
    pub allowed_subnets: Option<Vec<IpCidr>>,
    /// Seconds of silence after which a connection is given up.
    pub close_after: u64,
    pub mark: u32,
    pub listen_addr: SocketAddr,
    pub listeners: u32,
    pub protocol: Protocol,
}

/// Settings of the mode that puts PROXY headers on.
#[derive(Clone, Debug)]
pub struct ArgsReverseProxy {
    pub help: bool,
    pub listen_addr: SocketAddr,
    pub forward_addr: SocketAddr,
    pub listeners: u32,
    /// Seconds of silence after which a connection is given up.
    pub close_after: u64,
    pub protocol: Protocol,
}

/// The mode of the program.
#[allow(non_camel_case_types)]
#[derive(Clone, Debug)]
pub enum Command {
    mmproxy(ArgsMmproxy),
    reverseproxy(ArgsReverseProxy),
}

/// What the command line asks for.
#[derive(Clone, Debug)]
pub struct Args {
    pub help: bool,
    pub command: Command,
}

/// `ArgsMmproxy` as a mathematical value.
pub struct MmproxySettings {
    pub help: bool,
    pub ipv4_fwd: SocketAddr,
    pub ipv6_fwd: SocketAddr,
    pub allowed_subnets: Option<Seq<IpCidr>>,
    pub close_after: u64,
    pub mark: u32,
    pub listen_addr: SocketAddr,
    pub listeners: u32,
    pub protocol: Protocol,
}

/// `Command` as a mathematical value.
#[allow(non_camel_case_types)]
pub enum CommandView {
    mmproxy(MmproxySettings),
    reverseproxy(ArgsReverseProxy),
}

impl View for ArgsMmproxy {
    type V = MmproxySettings;

    open spec fn view(&self) -> MmproxySettings {
        MmproxySettings {
            help: self.help,
            ipv4_fwd: self.ipv4_fwd,
            ipv6_fwd: self.ipv6_fwd,
            allowed_subnets: match self.allowed_subnets {
                Some(nets) => Some(nets@),
                None => None,
            },
            close_after: self.close_after,
            mark: self.mark,
            listen_addr: self.listen_addr,
            listeners: self.listeners,
            protocol: self.protocol,
        }
    }
}

impl View for Command {
    type V = CommandView;

    open spec fn view(&self) -> CommandView {
        match self {
            Command::mmproxy(args) => CommandView::mmproxy(args@),
            Command::reverseproxy(args) => CommandView::reverseproxy(*args),
        }
    }
}

/// A list of subnets that is in force is not empty and holds well-formed networks.
pub open spec fn usable_subnets(allowed: Option<Seq<IpCidr>>) -> bool {
    allowed matches Some(nets) ==> nets.len() > 0 && all_wf(nets)
}

impl ArgsMmproxy {
    /// A list of subnets is in force only where it is not empty, and can be asked.
    pub open spec fn wf(self) -> bool {
        usable_subnets(self@.allowed_subnets)
    }

    /// The subnets in force, if any, can be asked.
    pub open spec fn nets_wf(self) -> bool {
        self@.allowed_subnets matches Some(nets) ==> all_wf(nets)
    }
}

impl Command {
    /// The settings can be used.
    pub open spec fn wf(self) -> bool {
        self matches Command::mmproxy(args) ==> args.wf()
    }
}

/// The socket address `0.0.0.0` plus the given number, at a port.
pub open spec fn v4_at(ip: u32, port: u16) -> SocketAddr {
    SocketAddr::V4(SocketAddrV4 { ip, port })
}

/// The socket address `[::]` plus the given number, at a port.
pub open spec fn v6_at(ip: u128, port: u16) -> SocketAddr {
    SocketAddr::V6(SocketAddrV6 { ip, port, flowinfo: 0, scope_id: 0 })
}

/// The settings before any switch: forward to `127.0.0.1:443` and `[::1]:443`, listen on
/// `[::]:8443`, take datagrams from everywhere, give a connection up after a minute.
pub open spec fn mmproxy_defaults() -> MmproxySettings {
    MmproxySettings {
        help: false,
        ipv4_fwd: v4_at(0x7f00_0001, 443),
        ipv6_fwd: v6_at(1, 443),
        allowed_subnets: None,
        close_after: 60,
        mark: 0,
        listen_addr: v6_at(0, 8443),
        listeners: 0,
        protocol: Protocol::Tcp,
    }
}

impl ArgsMmproxy {
    /// The settings before any switch.
    pub fn defaults() -> (r: Self)
        ensures
            r@ == mmproxy_defaults(),
            r.wf(),
    {
        ArgsMmproxy {
            help: false,
            ipv4_fwd: SocketAddr::V4(SocketAddrV4 { ip: 0x7f00_0001, port: 443 }),
            ipv6_fwd: SocketAddr::V6(
                SocketAddrV6 { ip: 1, port: 443, flowinfo: 0, scope_id: 0 },
            ),
            allowed_subnets: None,
            close_after: 60,
            mark: 0,
            listen_addr: SocketAddr::V6(
                SocketAddrV6 { ip: 0, port: 8443, flowinfo: 0, scope_id: 0 },
            ),
            listeners: 0,
            protocol: Protocol::Tcp,
        }
    }
}

/// Settings of the reverse proxy while the command line is read.
#[derive(Clone, Copy, Debug)]
pub struct ReverseProxyDraft {
    pub help: bool,
    pub listen_addr: SocketAddr,
    pub forward_addr: Option<SocketAddr>,
    pub listeners: u32,
    pub close_after: u64,
    pub protocol: Protocol,
}

/// The settings before any switch: listen on `[::]:443`, give a connection up after a minute.
pub open spec fn reverse_proxy_defaults() -> ReverseProxyDraft {
    ReverseProxyDraft {
        help: false,
        listen_addr: v6_at(0, 443),
        forward_addr: None,
        listeners: 0,
        close_after: 60,
        protocol: Protocol::Tcp,
    }
}

impl ReverseProxyDraft {
    /// The settings before any switch.
    pub fn defaults() -> (r: Self)
        ensures
            r == reverse_proxy_defaults(),
    {
        ReverseProxyDraft {
            help: false,
            listen_addr: SocketAddr::V6(
                SocketAddrV6 { ip: 0, port: 443, flowinfo: 0, scope_id: 0 },
            ),
            forward_addr: None,
            listeners: 0,
            close_after: 60,
            protocol: Protocol::Tcp,
        }
    }
}

// ---------------------------------------------------------------------------------------------
// Switches
// ---------------------------------------------------------------------------------------------

/// A switch of one of the two modes.
#[derive(Clone, Copy, Debug, PartialEq, Eq, Structural)]
pub enum Switch {
    Help,
    Ipv4,
    Ipv6,
    AllowedSubnets,
    CloseAfter,
    ListenAddr,
    ForwardAddr,
    Listeners,
    Protocol,
    Mark,
}

/// The text is the switch that asks for help.
pub open spec fn is_help(text: Seq<char>) -> bool {
    text == "-h"@ || text == "--help"@
}

/// The switch of the mode `mmproxy` that a text denotes.
pub open spec fn mmproxy_switch(text: Seq<char>) -> Option<Switch> {
    if is_help(text) {
        Some(Switch::Help)
    } else if text == "-4"@ || text == "--ipv4"@ {
        Some(Switch::Ipv4)
    } else if text == "-6"@ || text == "--ipv6"@ {
        Some(Switch::Ipv6)
    } else if text == "-a"@ || text == "--allowed-subnets"@ {
        Some(Switch::AllowedSubnets)
    } else if text == "-c"@ || text == "--close-after"@ {
        Some(Switch::CloseAfter)
    } else if text == "-l"@ || text == "--listen-addr"@ {
        Some(Switch::ListenAddr)
    } else if text == "--listeners"@ {
        Some(Switch::Listeners)
    } else if text == "-p"@ || text == "--protocol"@ {
        Some(Switch::Protocol)
    } else if text == "-m"@ || text == "--mark"@ {
        Some(Switch::Mark)
    } else {
        None
    }
}

/// The switch of the mode `reverseproxy` that a text denotes.
pub open spec fn reverse_proxy_switch(text: Seq<char>) -> Option<Switch> {
    if is_help(text) {
        Some(Switch::Help)
    } else if text == "-l"@ || text == "--listen-addr"@ {
        Some(Switch::ListenAddr)
    } else if text == "-f"@ || text == "--forward-addr"@ {
        Some(Switch::ForwardAddr)
    } else if text == "--listeners"@ {
        Some(Switch::Listeners)
    } else if text == "-c"@ || text == "--close-after"@ {
        Some(Switch::CloseAfter)
    } else if text == "-p"@ || text == "--protocol"@ {
        Some(Switch::Protocol)
    } else {
        None
    }
}

/// Tells whether a text asks for help.
pub fn find_help(text: &String) -> (r: bool)
    ensures
        r == is_help(text@),
{
    is_text(text, "-h") || is_text(text, "--help")
}

/// Finds the switch of the mode `mmproxy` that a text denotes.
pub fn find_mmproxy_switch(text: &String) -> (r: Option<Switch>)
    ensures
        r == mmproxy_switch(text@),
{
    if find_help(text) {
        Some(Switch::Help)
    } else if is_text(text, "-4") || is_text(text, "--ipv4") {
        Some(Switch::Ipv4)
    } else if is_text(text, "-6") || is_text(text, "--ipv6") {
        Some(Switch::Ipv6)
    } else if is_text(text, "-a") || is_text(text, "--allowed-subnets") {
        Some(Switch::AllowedSubnets)
    } else if is_text(text, "-c") || is_text(text, "--close-after") {
        Some(Switch::CloseAfter)
    } else if is_text(text, "-l") || is_text(text, "--listen-addr") {
        Some(Switch::ListenAddr)
    } else if is_text(text, "--listeners") {
        Some(Switch::Listeners)
    } else if is_text(text, "-p") || is_text(text, "--protocol") {
        Some(Switch::Protocol)
    } else if is_text(text, "-m") || is_text(text, "--mark") {
        Some(Switch::Mark)
    } else {
        None
    }
}

/// Finds the switch of the mode `reverseproxy` that a text denotes.
pub fn find_reverse_proxy_switch(text: &String) -> (r: Option<Switch>)
    ensures
        r == reverse_proxy_switch(text@),
{
    if find_help(text) {
        Some(Switch::Help)
    } else if is_text(text, "-l") || is_text(text, "--listen-addr") {
        Some(Switch::ListenAddr)
    } else if is_text(text, "-f") || is_text(text, "--forward-addr") {
        Some(Switch::ForwardAddr)
    } else if is_text(text, "--listeners") {
        Some(Switch::Listeners)
    } else if is_text(text, "-c") || is_text(text, "--close-after") {
        Some(Switch::CloseAfter)
    } else if is_text(text, "-p") || is_text(text, "--protocol") {
        Some(Switch::Protocol)
    } else {
        None
    }
}

// ---------------------------------------------------------------------------------------------
// Values
// ---------------------------------------------------------------------------------------------

/// The protocol that a lower-case name denotes.
pub open spec fn protocol_of(name: Seq<char>) -> Option<Protocol> {
    if name == "tcp"@ {
        Some(Protocol::Tcp)
    } else if name == "udp"@ {
        Some(Protocol::Udp)
    } else {
        None
    }
}

/// Finds the protocol that a lower-case name denotes.
pub fn find_protocol(name: &String) -> (r: Option<Protocol>)
    ensures
        r == protocol_of(name@),
{
    if is_text(name, "tcp") {
        Some(Protocol::Tcp)
    } else if is_text(name, "udp") {
        Some(Protocol::Udp)
    } else {
        None
    }
}

/// The protocol that a text names in any letter case, or the words that refuse it.
pub open spec fn protocol_text(text: Seq<char>) -> Result<Protocol, Seq<char>> {
    match protocol_of(lowercase(text)) {
        Some(protocol) => Ok(protocol),
        None => Err("invalid protocol value: "@ + text),
    }
}

/// Reads the name of a protocol in any letter case.
pub fn parse_protocol(text: &String) -> (r: Result<Protocol, String>)
    ensures
        match r {
            Ok(protocol) => protocol_text(text@) == Ok::<_, Seq<char>>(protocol),
            Err(reason) => protocol_text(text@) == Err::<Protocol, _>(reason@),
        },
        // Where the text is ASCII, the letters `A` to `Z` read as `a` to `z`.
        text.is_ascii() ==> (r is Ok <==> protocol_of(ascii_lowercase(text@)) is Some),
        text.is_ascii() && r is Ok ==> protocol_of(ascii_lowercase(text@)) == Some(r->Ok_0),
{
    let name = to_lowercase(text.as_str());
    match find_protocol(&name) {
        Some(protocol) => Ok(protocol),
        None => {
            let mut reason = "invalid protocol value: ".to_owned();
            reason.append(text.as_str());
            Err(reason)
        },
    }
}

/// How many listeners a number on the command line stands for: zero stands for the number of
/// threads that run at once, or for one where that number is not known.
pub open spec fn listener_count(requested: u32, parallelism: Option<u64>) -> u32 {
    if requested != 0 {
        requested
    } else {
        match parallelism {
            Some(n) => (n as int % 0x1_0000_0000) as u32,
            None => 1,
        }
    }
}

/// Computes how many listeners a number on the command line stands for.
pub fn count_listeners(requested: u32, parallelism: Option<u64>) -> (r: u32)
    ensures
        r == listener_count(requested, parallelism),
{
    if requested != 0 {
        requested
    } else {
        match parallelism {
            Some(n) => (n % 0x1_0000_0000) as u32,
            None => 1,
        }
    }
}

/// The number that a text denotes, or the words that refuse it.
pub open spec fn u32_text(text: Seq<char>) -> Result<u32, Seq<char>> {
    if is_decimal_up_to(text, u32::MAX as nat) {
        Ok(decimal_value(text) as u32)
    } else {
        Err(u32_parse_error(text))
    }
}

/// The number that a text denotes, or the words that refuse it.
pub open spec fn u64_text(text: Seq<char>) -> Result<u64, Seq<char>> {
    if is_decimal_up_to(text, u64::MAX as nat) {
        Ok(decimal_value(text) as u64)
    } else {
        Err(u64_parse_error(text))
    }
}

/// What a switch sets. `N` is the type of lists of networks.
#[derive(Clone, Debug)]
pub enum Setting<N> {
    Help,
    Ipv4(SocketAddr),
    Ipv6(SocketAddr),
    /// `None` for no limit.
    AllowedSubnets(Option<N>),
    CloseAfter(u64),
    ListenAddr(SocketAddr),
    ForwardAddr(SocketAddr),
    Listeners(u32),
    Protocol(Protocol),
    Mark(u32),
}

impl View for Setting<Vec<IpCidr>> {
    type V = Setting<Seq<IpCidr>>;

    open spec fn view(&self) -> Setting<Seq<IpCidr>> {
        match self {
            Setting::Help => Setting::Help,
            Setting::Ipv4(addr) => Setting::Ipv4(*addr),
            Setting::Ipv6(addr) => Setting::Ipv6(*addr),
            Setting::AllowedSubnets(Some(nets)) => Setting::AllowedSubnets(Some(nets@)),
            Setting::AllowedSubnets(None) => Setting::AllowedSubnets(None),
            Setting::CloseAfter(n) => Setting::CloseAfter(*n),
            Setting::ListenAddr(addr) => Setting::ListenAddr(*addr),
            Setting::ForwardAddr(addr) => Setting::ForwardAddr(*addr),
            Setting::Listeners(n) => Setting::Listeners(*n),
            Setting::Protocol(protocol) => Setting::Protocol(*protocol),
            Setting::Mark(n) => Setting::Mark(*n),
        }
    }
}

/// The switch takes a value that stands on the command line itself.
pub open spec fn takes_value(switch: Switch) -> bool {
    switch != Switch::Help && switch != Switch::AllowedSubnets
}

/// What a switch sets when this value stands behind it, or the words that refuse the value.
pub open spec fn setting_text(
    switch: Switch,
    value: Seq<char>,
    parallelism: Option<u64>,
) -> Result<Setting<Seq<IpCidr>>, Seq<char>>
    recommends
        takes_value(switch),
{
    match switch {
        Switch::Ipv4 => match socket_addr_text(value) {
            Ok(addr) => Ok(Setting::Ipv4(addr)),
            Err(reason) => Err(reason),
        },
        Switch::Ipv6 => match socket_addr_text(value) {
            Ok(addr) => Ok(Setting::Ipv6(addr)),
            Err(reason) => Err(reason),
        },
        Switch::CloseAfter => match u64_text(value) {
            Ok(n) => Ok(Setting::CloseAfter(n)),
            Err(reason) => Err(reason),
        },
        Switch::ListenAddr => match socket_addr_text(value) {
            Ok(addr) => Ok(Setting::ListenAddr(addr)),
            Err(reason) => Err(reason),
        },
        Switch::ForwardAddr => match socket_addr_text(value) {
            Ok(addr) => Ok(Setting::ForwardAddr(addr)),
            Err(reason) => Err(reason),
        },
        Switch::Listeners => match u32_text(value) {
            Ok(n) => Ok(Setting::Listeners(listener_count(n, parallelism))),
            Err(reason) => Err(reason),
        },
        Switch::Protocol => match protocol_text(value) {
            Ok(protocol) => Ok(Setting::Protocol(protocol)),
            Err(reason) => Err(reason),
        },
        Switch::Mark => match u32_text(value) {
            Ok(n) => Ok(Setting::Mark(n)),
            Err(reason) => Err(reason),
        },
        Switch::Help | Switch::AllowedSubnets => Ok(Setting::Help),
    }
}

/// Reads the value behind a switch.
pub fn read_setting(switch: Switch, value: &String, parallelism: Option<u64>) -> (r: Result<
    Setting<Vec<IpCidr>>,
    String,
>)
    requires
        takes_value(switch),
    ensures
        match r {
            Ok(setting) => setting_text(switch, value@, parallelism) == Ok::<_, Seq<char>>(
                setting@,
            ) && setting !is AllowedSubnets,
            Err(reason) => setting_text(switch, value@, parallelism) == Err::<
                Setting<Seq<IpCidr>>,
                _,
            >(reason@),
        },
{
    match switch {
        Switch::Ipv4 => match parse_socket_addr(value.as_str()) {
            Ok(addr) => Ok(Setting::Ipv4(addr)),
            Err(reason) => Err(reason),
        },
        Switch::Ipv6 => match parse_socket_addr(value.as_str()) {
            Ok(addr) => Ok(Setting::Ipv6(addr)),
            Err(reason) => Err(reason),
        },
        Switch::CloseAfter => match parse_u64(value.as_str()) {
            Ok(n) => Ok(Setting::CloseAfter(n)),
            Err(reason) => Err(reason),
        },
        Switch::ListenAddr => match parse_socket_addr(value.as_str()) {
            Ok(addr) => Ok(Setting::ListenAddr(addr)),
            Err(reason) => Err(reason),
        },
        Switch::ForwardAddr => match parse_socket_addr(value.as_str()) {
            Ok(addr) => Ok(Setting::ForwardAddr(addr)),
            Err(reason) => Err(reason),
        },
        Switch::Listeners => match parse_u32(value.as_str()) {
            Ok(n) => Ok(Setting::Listeners(count_listeners(n, parallelism))),
            Err(reason) => Err(reason),
        },
        Switch::Protocol => match parse_protocol(value) {
            Ok(protocol) => Ok(Setting::Protocol(protocol)),
            Err(reason) => Err(reason),
        },
        Switch::Mark => match parse_u32(value.as_str()) {
            Ok(n) => Ok(Setting::Mark(n)),
            Err(reason) => Err(reason),
        },
        Switch::Help | Switch::AllowedSubnets => Ok(Setting::Help),
    }
}

/// The settings of `mmproxy` with one of them replaced.
pub open spec fn mmproxy_with(
    settings: MmproxySettings,
    setting: Setting<Seq<IpCidr>>,
) -> MmproxySettings {
    match setting {
        Setting::Help => MmproxySettings { help: true, ..settings },
        Setting::Ipv4(ipv4_fwd) => MmproxySettings { ipv4_fwd, ..settings },
        Setting::Ipv6(ipv6_fwd) => MmproxySettings { ipv6_fwd, ..settings },
        Setting::AllowedSubnets(allowed_subnets) => MmproxySettings { allowed_subnets, ..settings },
        Setting::CloseAfter(close_after) => MmproxySettings { close_after, ..settings },
        Setting::ListenAddr(listen_addr) => MmproxySettings { listen_addr, ..settings },
        Setting::Listeners(listeners) => MmproxySettings { listeners, ..settings },
        Setting::Protocol(protocol) => MmproxySettings { protocol, ..settings },
        Setting::Mark(mark) => MmproxySettings { mark, ..settings },
        Setting::ForwardAddr(_) => settings,
    }
}

/// The settings of the reverse proxy with one of them replaced.
pub open spec fn reverse_proxy_with(
    draft: ReverseProxyDraft,
    setting: Setting<Seq<IpCidr>>,
) -> ReverseProxyDraft {
    match setting {
        Setting::Help => ReverseProxyDraft { help: true, ..draft },
        Setting::ListenAddr(listen_addr) => ReverseProxyDraft { listen_addr, ..draft },
        Setting::ForwardAddr(addr) => ReverseProxyDraft { forward_addr: Some(addr), ..draft },
        Setting::Listeners(listeners) => ReverseProxyDraft { listeners, ..draft },
        Setting::CloseAfter(close_after) => ReverseProxyDraft { close_after, ..draft },
        Setting::Protocol(protocol) => ReverseProxyDraft { protocol, ..draft },
        _ => draft,
    }
}

impl ArgsMmproxy {
    /// Replaces one setting. A setting that only the other mode has changes nothing.
    pub fn apply(&mut self, setting: Setting<Vec<IpCidr>>)
        ensures
            final(self)@ == mmproxy_with(old(self)@, setting@),
    {
        match setting {
            Setting::Help => self.help = true,
            Setting::Ipv4(addr) => self.ipv4_fwd = addr,
            Setting::Ipv6(addr) => self.ipv6_fwd = addr,
            Setting::AllowedSubnets(allowed) => self.allowed_subnets = allowed,
            Setting::CloseAfter(n) => self.close_after = n,
            Setting::ListenAddr(addr) => self.listen_addr = addr,
            Setting::Listeners(n) => self.listeners = n,
            Setting::Protocol(protocol) => self.protocol = protocol,
            Setting::Mark(n) => self.mark = n,
            Setting::ForwardAddr(_) => {},
        }
    }
}

impl ReverseProxyDraft {
    /// Replaces one setting. A setting that only the other mode has changes nothing.
    pub fn apply(&mut self, setting: Setting<Vec<IpCidr>>)
        ensures
            *final(self) == reverse_proxy_with(*old(self), setting@),
    {
        match setting {
            Setting::Help => self.help = true,
            Setting::ListenAddr(addr) => self.listen_addr = addr,
            Setting::ForwardAddr(addr) => self.forward_addr = Some(addr),
            Setting::Listeners(n) => self.listeners = n,
            Setting::CloseAfter(n) => self.close_after = n,
            Setting::Protocol(protocol) => self.protocol = protocol,
            _ => {},
        }
    }
}

/// Two settings set the same thing.
pub open spec fn same_switch(a: Setting<Seq<IpCidr>>, b: Setting<Seq<IpCidr>>) -> bool {
    match (a, b) {
        (Setting::Help, Setting::Help) => true,
        (Setting::Ipv4(_), Setting::Ipv4(_)) => true,
        (Setting::Ipv6(_), Setting::Ipv6(_)) => true,
        (Setting::AllowedSubnets(_), Setting::AllowedSubnets(_)) => true,
        (Setting::CloseAfter(_), Setting::CloseAfter(_)) => true,
        (Setting::ListenAddr(_), Setting::ListenAddr(_)) => true,
        (Setting::ForwardAddr(_), Setting::ForwardAddr(_)) => true,
        (Setting::Listeners(_), Setting::Listeners(_)) => true,
        (Setting::Protocol(_), Setting::Protocol(_)) => true,
        (Setting::Mark(_), Setting::Mark(_)) => true,
        _ => false,
    }
}

/// Where a switch is given twice, the later one counts.
pub proof fn law_last_setting_wins(
    settings: MmproxySettings,
    draft: ReverseProxyDraft,
    first: Setting<Seq<IpCidr>>,
    second: Setting<Seq<IpCidr>>,
)
    requires
        same_switch(first, second),
    ensures
        mmproxy_with(mmproxy_with(settings, first), second) == mmproxy_with(settings, second),
        reverse_proxy_with(reverse_proxy_with(draft, first), second) == reverse_proxy_with(
            draft,
            second,
        ),
{
}

/// The order of different switches does not matter.
pub proof fn law_settings_commute(
    settings: MmproxySettings,
    draft: ReverseProxyDraft,
    a: Setting<Seq<IpCidr>>,
    b: Setting<Seq<IpCidr>>,
)
    requires
        !same_switch(a, b),
    ensures
        mmproxy_with(mmproxy_with(settings, a), b) == mmproxy_with(mmproxy_with(settings, b), a),
        reverse_proxy_with(reverse_proxy_with(draft, a), b) == reverse_proxy_with(
            reverse_proxy_with(draft, b),
            a,
        ),
{
}

// ---------------------------------------------------------------------------------------------
// The command line as a whole
// ---------------------------------------------------------------------------------------------

/// The name of the value behind a switch, for messages.
#[derive(Clone, Copy, Debug, PartialEq, Eq, Structural)]
pub enum Operand {
    Addr,
    Path,
    Number,
    Text,
    Name,
}

impl Operand {
    /// The name as messages show it.
    pub open spec fn spec_name(self) -> Seq<char> {
        match self {
            Operand::Addr => "addr"@,
            Operand::Path => "path"@,
            Operand::Number => "n"@,
            Operand::Text => "string"@,
            Operand::Name => "p"@,
        }
    }

    /// Returns the name as messages show it.
    pub fn name(&self) -> (r: &'static str)
        ensures
            r@ == self.spec_name(),
    {
        match self {
            Operand::Addr => "addr",
            Operand::Path => "path",
            Operand::Number => "n",
            Operand::Text => "string",
            Operand::Name => "p",
        }
    }
}

/// The value that a switch takes.
pub open spec fn operand_of(switch: Switch) -> Operand {
    match switch {
        Switch::Ipv4 | Switch::Ipv6 => Operand::Addr,
        Switch::AllowedSubnets => Operand::Path,
        Switch::CloseAfter | Switch::Listeners | Switch::Mark => Operand::Number,
        Switch::Protocol => Operand::Name,
        _ => Operand::Text,
    }
}

impl Switch {
    /// Returns the value that a switch takes.
    pub fn operand(&self) -> (r: Operand)
        ensures
            r == operand_of(*self),
    {
        match self {
            Switch::Ipv4 | Switch::Ipv6 => Operand::Addr,
            Switch::AllowedSubnets => Operand::Path,
            Switch::CloseAfter | Switch::Listeners | Switch::Mark => Operand::Number,
            Switch::Protocol => Operand::Name,
            _ => Operand::Text,
        }
    }
}

/// A setting without which the program cannot run.
#[derive(Clone, Copy, Debug, PartialEq, Eq, Structural)]
pub enum Required {
    Command,
    ForwardAddr,
}

impl Required {
    /// The name of the setting.
    pub open spec fn spec_name(self) -> Seq<char> {
        match self {
            Required::Command => "command"@,
            Required::ForwardAddr => "forward_addr"@,
        }
    }

    /// What the user is told.
    pub open spec fn spec_reason(self) -> Seq<char> {
        match self {
            Required::Command => "must specify either \"mmproxy\" or \"reverseproxy\""@,
            Required::ForwardAddr => "must specify an address to reverse proxy to"@,
        }
    }

    /// Returns the name of the setting.
    pub fn name(&self) -> (r: &'static str)
        ensures
            r@ == self.spec_name(),
    {
        match self {
            Required::Command => "command",
            Required::ForwardAddr => "forward_addr",
        }
    }

    /// Returns what the user is told.
    pub fn reason(&self) -> (r: &'static str)
        ensures
            r@ == self.spec_reason(),
    {
        match self {
            Required::Command => "must specify either \"mmproxy\" or \"reverseproxy\"",
            Required::ForwardAddr => "must specify an address to reverse proxy to",
        }
    }
}

/// Why a row of arguments is refused. `S` is the type of texts.
#[derive(Clone, Debug, PartialEq, Eq)]
pub enum SwitchError<S> {
    /// An argument that no mode takes.
    UnsupportedArgument { argument: S },
    /// The same, and it begins with a hyphen.
    UnsupportedSwitch { switch: S },
    /// The row ends where the value of a switch should stand.
    MissingSwitchArgument { switch: S, argument: Operand },
    /// A required setting is missing.
    MissingRequired { required: Required },
    /// An argument is not Unicode.
    NotUnicode,
    /// The value of a switch is refused.
    Failed { name: S, reason: S },
}

/// Why a command line is refused. `S` is the type of texts.
#[derive(Clone, Debug, PartialEq, Eq)]
pub enum ArgsError<S> {
    /// An argument in front of the mode is refused, or there is no mode.
    Own(SwitchError<S>),
    /// An argument behind the mode is refused.
    InCommand { name: S, error: SwitchError<S> },
}

impl View for SwitchError<String> {
    type V = SwitchError<Seq<char>>;

    open spec fn view(&self) -> SwitchError<Seq<char>> {
        match self {
            SwitchError::UnsupportedArgument { argument } => SwitchError::UnsupportedArgument {
                argument: argument@,
            },
            SwitchError::UnsupportedSwitch { switch } => SwitchError::UnsupportedSwitch {
                switch: switch@,
            },
            SwitchError::MissingSwitchArgument {
                switch,
                argument,
            } => SwitchError::MissingSwitchArgument { switch: switch@, argument: *argument },
            SwitchError::MissingRequired { required } => SwitchError::MissingRequired {
                required: *required,
            },
            SwitchError::NotUnicode => SwitchError::NotUnicode,
            SwitchError::Failed { name, reason } => SwitchError::Failed {
                name: name@,
                reason: reason@,
            },
        }
    }
}

impl View for ArgsError<String> {
    type V = ArgsError<Seq<char>>;

    open spec fn view(&self) -> ArgsError<Seq<char>> {
        match self {
            ArgsError::Own(error) => ArgsError::Own(error@),
            ArgsError::InCommand { name, error } => ArgsError::InCommand {
                name: name@,
                error: error@,
            },
        }
    }
}

/// The refusal of an argument that means nothing.
pub open spec fn unsupported(text: Seq<char>) -> SwitchError<Seq<char>> {
    if text.len() > 0 && text[0] == '-' {
        SwitchError::UnsupportedSwitch { switch: text }
    } else {
        SwitchError::UnsupportedArgument { argument: text }
    }
}

/// Refuses an argument that means nothing.
fn refuse(text: &String) -> (r: SwitchError<String>)
    ensures
        r@ == unsupported(text@),
{
    if text.as_str().unicode_len() > 0 && text.as_str().get_char(0) == '-' {
        SwitchError::UnsupportedSwitch { switch: text.clone() }
    } else {
        SwitchError::UnsupportedArgument { argument: text.clone() }
    }
}

/// A text that explains a row of switches.
#[derive(Clone, Copy, Debug, PartialEq, Eq, Structural)]
pub enum HelpPage {
    Main,
    Mmproxy,
    ReverseProxy,
}

/// How the arguments behind a mode end. `S` is the type of texts, `T` that of settings.
#[derive(Clone, Debug)]
pub enum Run<S, T> {
    /// The list of subnets in a file is needed to go on.
    ReadSubnets(S),
    /// All arguments are read.
    Done(T),
    /// An argument is refused.
    Fail(SwitchError<S>),
}

/// How a command line ends. `S` is the type of texts, `C` that of modes with their settings.
#[derive(Clone, Debug)]
pub enum Outcome<S, C> {
    /// The list of subnets in a file is needed to go on.
    ReadSubnets(S),
    /// Help was asked for: show it and stop.
    Exit,
    /// The program runs in a mode.
    Run(C),
    /// The command line is refused.
    Fail(ArgsError<S>),
}

/// What a command line says: the help pages to show, in order, and how it ends.
#[derive(Clone, Debug)]
pub struct ParsedArgs {
    pub pages: Vec<HelpPage>,
    pub outcome: Outcome<String, Args>,
}

impl View for Outcome<String, Args> {
    type V = Outcome<Seq<char>, CommandView>;

    open spec fn view(&self) -> Outcome<Seq<char>, CommandView> {
        match self {
            Outcome::ReadSubnets(path) => Outcome::ReadSubnets(path@),
            Outcome::Exit => Outcome::Exit,
            Outcome::Run(args) => Outcome::Run(args.command@),
            Outcome::Fail(error) => Outcome::Fail(error@),
        }
    }
}

/// The list of subnets that a file holds, or the words that refuse the file. A list without a
/// line puts no limit.
pub open spec fn subnets_of_file(file: Result<Seq<char>, Seq<char>>) -> Result<
    Option<Seq<IpCidr>>,
    Seq<char>,
> {
    match file {
        Ok(contents) => match subnets(lines(contents)) {
            Ok(nets) => Ok(
                if nets.len() == 0 {
                    None
                } else {
                    Some(nets)
                },
            ),
            Err((_, reason)) => Err(reason),
        },
        Err(reason) => Err(reason),
    }
}

/// How the arguments from the `i`-th on end in the mode `mmproxy`, and the help pages they ask
/// for. An argument that is not Unicode is `None`. `files` are the files of subnets, as far as
/// they have been read, in the order in which they are named.
pub open spec fn mmproxy_run(
    tokens: Seq<Option<Seq<char>>>,
    i: int,
    settings: MmproxySettings,
    files: Seq<Result<Seq<char>, Seq<char>>>,
    pages: Seq<HelpPage>,
    parallelism: Option<u64>,
) -> (Seq<HelpPage>, Run<Seq<char>, MmproxySettings>)
    decreases tokens.len() - i,
{
    if i >= tokens.len() {
        (pages, Run::Done(settings))
    } else {
        match tokens[i] {
            None => (pages, Run::Fail(SwitchError::NotUnicode)),
            Some(name) => match mmproxy_switch(name) {
                None => (pages, Run::Fail(unsupported(name))),
                Some(Switch::Help) => mmproxy_run(
                    tokens,
                    i + 1,
                    mmproxy_with(settings, Setting::Help),
                    files,
                    pages.push(HelpPage::Mmproxy),
                    parallelism,
                ),
                Some(switch) => if i + 1 >= tokens.len() {
                    (
                        pages,
                        Run::Fail(
                            SwitchError::MissingSwitchArgument {
                                switch: name,
                                argument: operand_of(switch),
                            },
                        ),
                    )
                } else {
                    match tokens[i + 1] {
                        None => (pages, Run::Fail(SwitchError::NotUnicode)),
                        Some(value) => if switch == Switch::AllowedSubnets {
                            if files.len() == 0 {
                                (pages, Run::ReadSubnets(value))
                            } else {
                                match subnets_of_file(files[0]) {
                                    Ok(allowed) => mmproxy_run(
                                        tokens,
                                        i + 2,
                                        mmproxy_with(settings, Setting::AllowedSubnets(allowed)),
                                        files.skip(1),
                                        pages,
                                        parallelism,
                                    ),
                                    Err(reason) => (
                                        pages,
                                        Run::Fail(SwitchError::Failed { name, reason }),
                                    ),
                                }
                            }
                        } else {
                            match setting_text(switch, value, parallelism) {
                                Ok(setting) => mmproxy_run(
                                    tokens,
                                    i + 2,
                                    mmproxy_with(settings, setting),
                                    files,
                                    pages,
                                    parallelism,
                                ),
                                Err(reason) => (
                                    pages,
                                    Run::Fail(SwitchError::Failed { name, reason }),
                                ),
                            }
                        },
                    }
                },
            },
        }
    }
}

/// The settings of a draft that names the server.
pub open spec fn completed(draft: ReverseProxyDraft, forward_addr: SocketAddr) -> ArgsReverseProxy {
    ArgsReverseProxy {
        help: draft.help,
        listen_addr: draft.listen_addr,
        forward_addr,
        listeners: draft.listeners,
        close_after: draft.close_after,
        protocol: draft.protocol,
    }
}

/// How the arguments from the `i`-th on end in the mode `reverseproxy`, and the help pages they
/// ask for.
pub open spec fn reverse_proxy_run(
    tokens: Seq<Option<Seq<char>>>,
    i: int,
    draft: ReverseProxyDraft,
    pages: Seq<HelpPage>,
    parallelism: Option<u64>,
) -> (Seq<HelpPage>, Run<Seq<char>, ArgsReverseProxy>)
    decreases tokens.len() - i,
{
    if i >= tokens.len() {
        match draft.forward_addr {
            Some(forward_addr) => (pages, Run::Done(completed(draft, forward_addr))),
            None => (
                pages,
                Run::Fail(SwitchError::MissingRequired { required: Required::ForwardAddr }),
            ),
        }
    } else {
        match tokens[i] {
            None => (pages, Run::Fail(SwitchError::NotUnicode)),
            Some(name) => match reverse_proxy_switch(name) {
                None => (pages, Run::Fail(unsupported(name))),
                Some(Switch::Help) => reverse_proxy_run(
                    tokens,
                    i + 1,
                    reverse_proxy_with(draft, Setting::Help),
                    pages.push(HelpPage::ReverseProxy),
                    parallelism,
                ),
                Some(switch) => if i + 1 >= tokens.len() {
                    (
                        pages,
                        Run::Fail(
                            SwitchError::MissingSwitchArgument {
                                switch: name,
                                argument: operand_of(switch),
                            },
                        ),
                    )
                } else {
                    match tokens[i + 1] {
                        None => (pages, Run::Fail(SwitchError::NotUnicode)),
                        Some(value) => match setting_text(switch, value, parallelism) {
                            Ok(setting) => reverse_proxy_run(
                                tokens,
                                i + 2,
                                reverse_proxy_with(draft, setting),
                                pages,
                                parallelism,
                            ),
                            Err(reason) => (
                                pages,
                                Run::Fail(SwitchError::Failed { name, reason }),
                            ),
                        },
                    }
                },
            },
        }
    }
}

/// How the command line ends when the arguments behind `mmproxy` end so.
pub open spec fn mmproxy_outcome(
    help: bool,
    name: Seq<char>,
    run: Run<Seq<char>, MmproxySettings>,
) -> Outcome<Seq<char>, CommandView> {
    match run {
        Run::ReadSubnets(path) => Outcome::ReadSubnets(path),
        Run::Done(settings) => if help || settings.help {
            Outcome::Exit
        } else {
            Outcome::Run(CommandView::mmproxy(settings))
        },
        Run::Fail(error) => Outcome::Fail(ArgsError::InCommand { name, error }),
    }
}

/// How the command line ends when the arguments behind `reverseproxy` end so.
pub open spec fn reverse_proxy_outcome(
    help: bool,
    name: Seq<char>,
    run: Run<Seq<char>, ArgsReverseProxy>,
) -> Outcome<Seq<char>, CommandView> {
    match run {
        Run::ReadSubnets(path) => Outcome::ReadSubnets(path),
        Run::Done(args) => if help || args.help {
            Outcome::Exit
        } else {
            Outcome::Run(CommandView::reverseproxy(args))
        },
        Run::Fail(error) => Outcome::Fail(ArgsError::InCommand { name, error }),
    }
}

/// How the arguments from the `i`-th on end, where no mode stands in front of them.
pub open spec fn command_line_from(
    tokens: Seq<Option<Seq<char>>>,
    i: int,
    help: bool,
    files: Seq<Result<Seq<char>, Seq<char>>>,
    pages: Seq<HelpPage>,
    parallelism: Option<u64>,
) -> (Seq<HelpPage>, Outcome<Seq<char>, CommandView>)
    decreases tokens.len() - i,
{
    if i >= tokens.len() {
        (
            pages,
            Outcome::Fail(
                ArgsError::Own(SwitchError::MissingRequired { required: Required::Command }),
            ),
        )
    } else {
        match tokens[i] {
            None => (pages, Outcome::Fail(ArgsError::Own(SwitchError::NotUnicode))),
            Some(name) => if is_help(name) {
                command_line_from(
                    tokens,
                    i + 1,
                    true,
                    files,
                    pages.push(HelpPage::Main),
                    parallelism,
                )
            } else if name == "mmproxy"@ {
                let (shown, run) = mmproxy_run(
                    tokens,
                    i + 1,
                    mmproxy_defaults(),
                    files,
                    pages,
                    parallelism,
                );
                (shown, mmproxy_outcome(help, name, run))
            } else if name == "reverseproxy"@ {
                let (shown, run) = reverse_proxy_run(
                    tokens,
                    i + 1,
                    reverse_proxy_defaults(),
                    pages,
                    parallelism,
                );
                (shown, reverse_proxy_outcome(help, name, run))
            } else {
                (pages, Outcome::Fail(ArgsError::Own(unsupported(name))))
            },
        }
    }
}

/// What a command line says.
pub open spec fn command_line(
    tokens: Seq<Option<Seq<char>>>,
    files: Seq<Result<Seq<char>, Seq<char>>>,
    parallelism: Option<u64>,
) -> (Seq<HelpPage>, Outcome<Seq<char>, CommandView>) {
    command_line_from(tokens, 0, false, files, Seq::empty(), parallelism)
}

/// An argument as a mathematical value.
pub open spec fn token_view(token: Option<String>) -> Option<Seq<char>> {
    match token {
        Some(text) => Some(text@),
        None => None,
    }
}

/// The arguments as mathematical values.
pub open spec fn tokens_view(tokens: Seq<Option<String>>) -> Seq<Option<Seq<char>>> {
    tokens.map_values(|token: Option<String>| token_view(token))
}

/// A file as a mathematical value: its contents, or why it cannot be read.
pub open spec fn file_view(file: Result<String, String>) -> Result<Seq<char>, Seq<char>> {
    match file {
        Ok(contents) => Ok(contents@),
        Err(reason) => Err(reason@),
    }
}

/// The files as mathematical values.
pub open spec fn files_view(files: Seq<Result<String, String>>) -> Seq<
    Result<Seq<char>, Seq<char>>,
> {
    files.map_values(|file: Result<String, String>| file_view(file))
}

/// Reads the list of subnets out of a file.
fn read_subnets(file: &Result<String, String>) -> (r: Result<Option<Vec<IpCidr>>, String>)
    ensures
        match r {
            Ok(None) => subnets_of_file(file_view(*file)) == Ok::<_, Seq<char>>(
                None::<Seq<IpCidr>>,
            ),
            Ok(Some(nets)) => subnets_of_file(file_view(*file)) == Ok::<_, Seq<char>>(
                Some(nets@),
            ) && usable_subnets(Some(nets@)),
            Err(reason) => subnets_of_file(file_view(*file)) == Err::<Option<Seq<IpCidr>>, _>(
                reason@,
            ),
        },
{
    match file {
        Ok(contents) => match parse_allowed_subnets(contents.as_str()) {
            Ok(nets) => if nets.len() == 0 {
                Ok(None)
            } else {
                Ok(Some(nets))
            },
            Err(err) => Err(err.reason),
        },
        Err(reason) => Err(reason.clone()),
    }
}

/// Reads the arguments behind the mode `mmproxy`.
fn run_mmproxy(
    tokens: &Vec<Option<String>>,
    start: usize,
    files: &Vec<Result<String, String>>,
    pages: &mut Vec<HelpPage>,
    parallelism: Option<u64>,
) -> (r: Run<String, ArgsMmproxy>)
    requires
        start <= tokens@.len(),
    ensures
        ({
            let (shown, run) = mmproxy_run(
                tokens_view(tokens@),
                start as int,
                mmproxy_defaults(),
                files_view(files@),
                old(pages)@,
                parallelism,
            );
            &&& final(pages)@ == shown
            &&& match r {
                Run::ReadSubnets(path) => run == Run::<Seq<char>, MmproxySettings>::ReadSubnets(
                    path@,
                ),
                Run::Done(args) => run == Run::<Seq<char>, MmproxySettings>::Done(args@)
                    && args.wf(),
                Run::Fail(error) => run == Run::<Seq<char>, MmproxySettings>::Fail(error@),
            }
        }),
{
    let mut args = ArgsMmproxy::defaults();
    let mut i: usize = start;
    let mut used: usize = 0;
    let ghost texts = tokens_view(tokens@);
    let ghost read = files_view(files@);
    let ghost whole = mmproxy_run(
        texts,
        start as int,
        mmproxy_defaults(),
        read,
        pages@,
        parallelism,
    );
    assert(read.skip(0) =~= read);
    while i < tokens.len()
        invariant
            i <= tokens@.len(),
            used <= files@.len(),
            texts == tokens_view(tokens@),
            read == files_view(files@),
            args.wf(),
            whole == mmproxy_run(
                texts,
                start as int,
                mmproxy_defaults(),
                read,
                old(pages)@,
                parallelism,
            ),
            whole == mmproxy_run(
                texts,
                i as int,
                args@,
                read.skip(used as int),
                pages@,
                parallelism,
            ),
        decreases tokens@.len() - i,
    {
        assert(texts[i as int] == token_view(tokens@[i as int]));
        let name = match &tokens[i] {
            None => return Run::Fail(SwitchError::NotUnicode),
            Some(name) => name,
        };
        let switch = match find_mmproxy_switch(name) {
            None => return Run::Fail(refuse(name)),
            Some(switch) => switch,
        };
        if switch == Switch::Help {
            pages.push(HelpPage::Mmproxy);
            args.apply(Setting::Help);
            i += 1;
        } else if i + 1 >= tokens.len() {
            return Run::Fail(
                SwitchError::MissingSwitchArgument {
                    switch: name.clone(),
                    argument: switch.operand(),
                },
            );
        } else {
            assert(texts[i + 1] == token_view(tokens@[i + 1]));
            let value = match &tokens[i + 1] {
                None => return Run::Fail(SwitchError::NotUnicode),
                Some(value) => value,
            };
            if switch == Switch::AllowedSubnets {
                if used == files.len() {
                    return Run::ReadSubnets(value.clone());
                }
                assert(read.skip(used as int)[0] == file_view(files@[used as int]));
                assert(read.skip(used as int).skip(1) =~= read.skip(used + 1));
                match read_subnets(&files[used]) {
                    Ok(allowed) => args.apply(Setting::AllowedSubnets(allowed)),
                    Err(reason) => return Run::Fail(
                        SwitchError::Failed { name: name.clone(), reason },
                    ),
                }
                used += 1;
            } else {
                match read_setting(switch, value, parallelism) {
                    Ok(setting) => args.apply(setting),
                    Err(reason) => return Run::Fail(
                        SwitchError::Failed { name: name.clone(), reason },
                    ),
                }
            }
            i += 2;
        }
    }
    Run::Done(args)
}

/// Reads the arguments behind the mode `reverseproxy`.
fn run_reverse_proxy(
    tokens: &Vec<Option<String>>,
    start: usize,
    pages: &mut Vec<HelpPage>,
    parallelism: Option<u64>,
) -> (r: Run<String, ArgsReverseProxy>)
    requires
        start <= tokens@.len(),
    ensures
        ({
            let (shown, run) = reverse_proxy_run(
                tokens_view(tokens@),
                start as int,
                reverse_proxy_defaults(),
                old(pages)@,
                parallelism,
            );
            &&& final(pages)@ == shown
            &&& match r {
                Run::ReadSubnets(_) => false,
                Run::Done(args) => run == Run::<Seq<char>, ArgsReverseProxy>::Done(args),
                Run::Fail(error) => run == Run::<Seq<char>, ArgsReverseProxy>::Fail(error@),
            }
        }),
{
    let mut draft = ReverseProxyDraft::defaults();
    let mut i: usize = start;
    let ghost texts = tokens_view(tokens@);
    let ghost whole = reverse_proxy_run(
        texts,
        start as int,
        reverse_proxy_defaults(),
        pages@,
        parallelism,
    );
    while i < tokens.len()
        invariant
            i <= tokens@.len(),
            texts == tokens_view(tokens@),
            whole == reverse_proxy_run(
                texts,
                start as int,
                reverse_proxy_defaults(),
                old(pages)@,
                parallelism,
            ),
            whole == reverse_proxy_run(texts, i as int, draft, pages@, parallelism),
        decreases tokens@.len() - i,
    {
        assert(texts[i as int] == token_view(tokens@[i as int]));
        let name = match &tokens[i] {
            None => return Run::Fail(SwitchError::NotUnicode),
            Some(name) => name,
        };
        let switch = match find_reverse_proxy_switch(name) {
            None => return Run::Fail(refuse(name)),
            Some(switch) => switch,
        };
        if switch == Switch::Help {
            pages.push(HelpPage::ReverseProxy);
            draft.apply(Setting::Help);
            i += 1;
        } else if i + 1 >= tokens.len() {
            return Run::Fail(
                SwitchError::MissingSwitchArgument {
                    switch: name.clone(),
                    argument: switch.operand(),
                },
            );
        } else {
            assert(texts[i + 1] == token_view(tokens@[i + 1]));
            let value = match &tokens[i + 1] {
                None => return Run::Fail(SwitchError::NotUnicode),
                Some(value) => value,
            };
            match read_setting(switch, value, parallelism) {
                Ok(setting) => draft.apply(setting),
                Err(reason) => return Run::Fail(
                    SwitchError::Failed { name: name.clone(), reason },
                ),
            }
            i += 2;
        }
    }
    match draft.forward_addr {
        Some(forward_addr) => Run::Done(
            ArgsReverseProxy {
                help: draft.help,
                listen_addr: draft.listen_addr,
                forward_addr,
                listeners: draft.listeners,
                close_after: draft.close_after,
                protocol: draft.protocol,
            },
        ),
        None => Run::Fail(SwitchError::MissingRequired { required: Required::ForwardAddr }),
    }
}

/// Reads a command line. Where the outcome asks for a file of subnets, the caller reads the file,
/// adds it to `files` and asks again.
pub fn parse_args(
    tokens: &Vec<Option<String>>,
    files: &Vec<Result<String, String>>,
    parallelism: Option<u64>,
) -> (r: ParsedArgs)
    ensures
        (r.pages@, r.outcome@) == command_line(
            tokens_view(tokens@),
            files_view(files@),
            parallelism,
        ),
        r.outcome matches Outcome::Run(args) ==> !args.help && args.command.wf(),
{
    let mut pages: Vec<HelpPage> = Vec::new();
    let mut help: bool = false;
    let mut i: usize = 0;
    let ghost texts = tokens_view(tokens@);
    let ghost read = files_view(files@);
    assert(pages@ =~= Seq::empty());
    while i < tokens.len()
        invariant
            i <= tokens@.len(),
            texts == tokens_view(tokens@),
            read == files_view(files@),
            command_line(texts, read, parallelism) == command_line_from(
                texts,
                i as int,
                help,
                read,
                pages@,
                parallelism,
            ),
        decreases tokens@.len() - i,
    {
        assert(texts[i as int] == token_view(tokens@[i as int]));
        let name = match &tokens[i] {
            None => {
                let outcome = Outcome::Fail(ArgsError::Own(SwitchError::NotUnicode));
                return ParsedArgs { pages, outcome };
            },
            Some(name) => name,
        };
        if find_help(name) {
            pages.push(HelpPage::Main);
            help = true;
            i += 1;
        } else if is_text(name, "mmproxy") {
            let run = run_mmproxy(tokens, i + 1, files, &mut pages, parallelism);
            let outcome = match run {
                Run::ReadSubnets(path) => Outcome::ReadSubnets(path),
                Run::Done(args) => if help || args.help {
                    Outcome::Exit
                } else {
                    Outcome::Run(Args { help, command: Command::mmproxy(args) })
                },
                Run::Fail(error) => Outcome::Fail(
                    ArgsError::InCommand { name: name.clone(), error },
                ),
            };
            return ParsedArgs { pages, outcome };
        } else if is_text(name, "reverseproxy") {
            let run = run_reverse_proxy(tokens, i + 1, &mut pages, parallelism);
            let outcome = match run {
                Run::ReadSubnets(path) => Outcome::ReadSubnets(path),
                Run::Done(args) => if help || args.help {
                    Outcome::Exit
                } else {
                    Outcome::Run(Args { help, command: Command::reverseproxy(args) })
                },
                Run::Fail(error) => Outcome::Fail(
                    ArgsError::InCommand { name: name.clone(), error },
                ),
            };
            return ParsedArgs { pages, outcome };
        } else {
            let outcome = Outcome::Fail(ArgsError::Own(refuse(name)));
            return ParsedArgs { pages, outcome };
        }
    }
    let outcome = Outcome::Fail(
        ArgsError::Own(SwitchError::MissingRequired { required: Required::Command }),
    );
    ParsedArgs { pages, outcome }
}

// ---------------------------------------------------------------------------------------------
// Laws of the command line
// ---------------------------------------------------------------------------------------------

/// More files change nothing but an end that asks for one, and take no help page back.
proof fn lemma_mmproxy_more_files(
    tokens: Seq<Option<Seq<char>>>,
    i: int,
    settings: MmproxySettings,
    files: Seq<Result<Seq<char>, Seq<char>>>,
    more: Seq<Result<Seq<char>, Seq<char>>>,
    pages: Seq<HelpPage>,
    parallelism: Option<u64>,
)
    ensures
        ({
            let (shown, run) = mmproxy_run(tokens, i, settings, files, pages, parallelism);
            let (later, rerun) = mmproxy_run(
                tokens,
                i,
                settings,
                files + more,
                pages,
                parallelism,
            );
            &&& run !is ReadSubnets ==> (later, rerun) == (shown, run)
            &&& pages.is_prefix_of(shown)
            &&& shown.is_prefix_of(later)
        }),
    decreases tokens.len() - i,
{
    if i < tokens.len() {
        if let Some(name) = tokens[i] {
            if let Some(switch) = mmproxy_switch(name) {
                if switch == Switch::Help {
                    lemma_mmproxy_more_files(
                        tokens,
                        i + 1,
                        mmproxy_with(settings, Setting::Help),
                        files,
                        more,
                        pages.push(HelpPage::Mmproxy),
                        parallelism,
                    );
                    assert(pages.is_prefix_of(pages.push(HelpPage::Mmproxy)));
                } else if i + 1 < tokens.len() {
                    if let Some(value) = tokens[i + 1] {
                        if switch == Switch::AllowedSubnets {
                            if files.len() > 0 {
                                assert((files + more)[0] == files[0]);
                                assert((files + more).skip(1) =~= files.skip(1) + more);
                                if let Ok(allowed) = subnets_of_file(files[0]) {
                                    lemma_mmproxy_more_files(
                                        tokens,
                                        i + 2,
                                        mmproxy_with(settings, Setting::AllowedSubnets(allowed)),
                                        files.skip(1),
                                        more,
                                        pages,
                                        parallelism,
                                    );
                                }
                            } else {
                                lemma_mmproxy_pages(
                                    tokens,
                                    i,
                                    settings,
                                    files + more,
                                    pages,
                                    parallelism,
                                );
                            }
                        } else if let Ok(setting) = setting_text(switch, value, parallelism) {
                            lemma_mmproxy_more_files(
                                tokens,
                                i + 2,
                                mmproxy_with(settings, setting),
                                files,
                                more,
                                pages,
                                parallelism,
                            );
                        }
                    }
                }
            }
        }
    }
}

/// Help pages are only added; help is asked for exactly where one is; and every file that is read
/// has an argument that names it.
proof fn lemma_mmproxy_pages(
    tokens: Seq<Option<Seq<char>>>,
    i: int,
    settings: MmproxySettings,
    files: Seq<Result<Seq<char>, Seq<char>>>,
    pages: Seq<HelpPage>,
    parallelism: Option<u64>,
)
    ensures
        ({
            let (shown, run) = mmproxy_run(tokens, i, settings, files, pages, parallelism);
            &&& pages.is_prefix_of(shown)
            &&& run matches Run::Done(end) ==> (end.help <==> settings.help || shown.len()
                > pages.len())
            &&& run is ReadSubnets ==> i + files.len() < tokens.len()
        }),
    decreases tokens.len() - i,
{
    if i < tokens.len() {
        if let Some(name) = tokens[i] {
            if let Some(switch) = mmproxy_switch(name) {
                if switch == Switch::Help {
                    lemma_mmproxy_pages(
                        tokens,
                        i + 1,
                        mmproxy_with(settings, Setting::Help),
                        files,
                        pages.push(HelpPage::Mmproxy),
                        parallelism,
                    );
                    assert(pages.is_prefix_of(pages.push(HelpPage::Mmproxy)));
                } else if i + 1 < tokens.len() {
                    if let Some(value) = tokens[i + 1] {
                        if switch == Switch::AllowedSubnets {
                            if files.len() > 0 {
                                if let Ok(allowed) = subnets_of_file(files[0]) {
                                    lemma_mmproxy_pages(
                                        tokens,
                                        i + 2,
                                        mmproxy_with(settings, Setting::AllowedSubnets(allowed)),
                                        files.skip(1),
                                        pages,
                                        parallelism,
                                    );
                                }
                            }
                        } else if let Ok(setting) = setting_text(switch, value, parallelism) {
                            lemma_mmproxy_pages(
                                tokens,
                                i + 2,
                                mmproxy_with(settings, setting),
                                files,
                                pages,
                                parallelism,
                            );
                        }
                    }
                }
            }
        }
    }
}

/// Help pages are only added, and help is asked for exactly where one is.
proof fn lemma_reverse_proxy_pages(
    tokens: Seq<Option<Seq<char>>>,
    i: int,
    draft: ReverseProxyDraft,
    pages: Seq<HelpPage>,
    parallelism: Option<u64>,
)
    ensures
        ({
            let (shown, run) = reverse_proxy_run(tokens, i, draft, pages, parallelism);
            &&& pages.is_prefix_of(shown)
            &&& run matches Run::Done(end) ==> (end.help <==> draft.help || shown.len()
                > pages.len())
            &&& run !is ReadSubnets
        }),
    decreases tokens.len() - i,
{
    if i < tokens.len() {
        if let Some(name) = tokens[i] {
            if let Some(switch) = reverse_proxy_switch(name) {
                if switch == Switch::Help {
                    lemma_reverse_proxy_pages(
                        tokens,
                        i + 1,
                        reverse_proxy_with(draft, Setting::Help),
                        pages.push(HelpPage::ReverseProxy),
                        parallelism,
                    );
                    assert(pages.is_prefix_of(pages.push(HelpPage::ReverseProxy)));
                } else if i + 1 < tokens.len() {
                    if let Some(value) = tokens[i + 1] {
                        if let Ok(setting) = setting_text(switch, value, parallelism) {
                            lemma_reverse_proxy_pages(
                                tokens,
                                i + 2,
                                reverse_proxy_with(draft, setting),
                                pages,
                                parallelism,
                            );
                        }
                    }
                }
            }
        }
    }
}

proof fn lemma_command_line(
    tokens: Seq<Option<Seq<char>>>,
    i: int,
    help: bool,
    files: Seq<Result<Seq<char>, Seq<char>>>,
    more: Seq<Result<Seq<char>, Seq<char>>>,
    pages: Seq<HelpPage>,
    parallelism: Option<u64>,
)
    requires
        0 <= i,
        help <==> pages.len() > 0,
    ensures
        ({
            let (shown, end) = command_line_from(tokens, i, help, files, pages, parallelism);
            let (later, again) = command_line_from(
                tokens,
                i,
                help,
                files + more,
                pages,
                parallelism,
            );
            &&& end !is ReadSubnets ==> (later, again) == (shown, end)
            &&& shown.is_prefix_of(later)
            &&& end is Run ==> shown.len() == 0
            &&& end is Exit ==> shown.len() > 0
            &&& end is ReadSubnets ==> files.len() < tokens.len()
        }),
    decreases tokens.len() - i,
{
    if i < tokens.len() {
        if let Some(name) = tokens[i] {
            if is_help(name) {
                lemma_command_line(
                    tokens,
                    i + 1,
                    true,
                    files,
                    more,
                    pages.push(HelpPage::Main),
                    parallelism,
                );
            } else if name == "mmproxy"@ {
                let start = mmproxy_defaults();
                lemma_mmproxy_more_files(tokens, i + 1, start, files, more, pages, parallelism);
                lemma_mmproxy_pages(tokens, i + 1, start, files, pages, parallelism);
            } else if name == "reverseproxy"@ {
                let start = reverse_proxy_defaults();
                lemma_reverse_proxy_pages(tokens, i + 1, start, pages, parallelism);
            }
        }
    }
}

/// A command line that does not ask for a file means the same however many more files are read;
/// and no further file takes back a help page.
pub proof fn law_more_files_change_nothing(
    tokens: Seq<Option<Seq<char>>>,
    files: Seq<Result<Seq<char>, Seq<char>>>,
    more: Seq<Result<Seq<char>, Seq<char>>>,
    parallelism: Option<u64>,
)
    ensures
        command_line(tokens, files, parallelism).1 !is ReadSubnets ==> command_line(
            tokens,
            files + more,
            parallelism,
        ) == command_line(tokens, files, parallelism),
        command_line(tokens, files, parallelism).0.is_prefix_of(
            command_line(tokens, files + more, parallelism).0,
        ),
{
    lemma_command_line(tokens, 0, false, files, more, Seq::empty(), parallelism);
}

/// A command line asks for fewer files than it has arguments: whoever reads each file that is
/// asked for comes to an end.
pub proof fn law_files_run_out(
    tokens: Seq<Option<Seq<char>>>,
    files: Seq<Result<Seq<char>, Seq<char>>>,
    parallelism: Option<u64>,
)
    requires
        files.len() >= tokens.len(),
    ensures
        command_line(tokens, files, parallelism).1 !is ReadSubnets,
{
    lemma_command_line(tokens, 0, false, files, Seq::empty(), Seq::empty(), parallelism);
}

/// The program does not run where it shows help, and does not leave without having shown it.
pub proof fn law_help_or_run(
    tokens: Seq<Option<Seq<char>>>,
    files: Seq<Result<Seq<char>, Seq<char>>>,
    parallelism: Option<u64>,
)
    ensures
        command_line(tokens, files, parallelism).1 is Run ==> command_line(
            tokens,
            files,
            parallelism,
        ).0.len() == 0,
        command_line(tokens, files, parallelism).1 is Exit ==> command_line(
            tokens,
            files,
            parallelism,
        ).0.len() > 0,
{
    lemma_command_line(tokens, 0, false, files, Seq::empty(), Seq::empty(), parallelism);
}

// ---------------------------------------------------------------------------------------------
// Laws of switches and values
// ---------------------------------------------------------------------------------------------

/// Every switch has its names and no others, in each mode; and no other text is a switch.
pub proof fn law_names_of_switches(text: Seq<char>)
    ensures
        is_help(text) <==> text == "-h"@ || text == "--help"@,
        mmproxy_switch(text) == Some(Switch::Help) <==> text == "-h"@ || text == "--help"@,
        mmproxy_switch(text) == Some(Switch::Ipv4) <==> text == "-4"@ || text == "--ipv4"@,
        mmproxy_switch(text) == Some(Switch::Ipv6) <==> text == "-6"@ || text == "--ipv6"@,
        mmproxy_switch(text) == Some(Switch::AllowedSubnets) <==> text == "-a"@ || text
            == "--allowed-subnets"@,
        mmproxy_switch(text) == Some(Switch::CloseAfter) <==> text == "-c"@ || text
            == "--close-after"@,
        mmproxy_switch(text) == Some(Switch::ListenAddr) <==> text == "-l"@ || text
            == "--listen-addr"@,
        mmproxy_switch(text) == Some(Switch::Listeners) <==> text == "--listeners"@,
        mmproxy_switch(text) == Some(Switch::Protocol) <==> text == "-p"@ || text == "--protocol"@,
        mmproxy_switch(text) == Some(Switch::Mark) <==> text == "-m"@ || text == "--mark"@,
        mmproxy_switch(text) != Some(Switch::ForwardAddr),
        reverse_proxy_switch(text) == Some(Switch::Help) <==> text == "-h"@ || text == "--help"@,
        reverse_proxy_switch(text) == Some(Switch::ListenAddr) <==> text == "-l"@ || text
            == "--listen-addr"@,
        reverse_proxy_switch(text) == Some(Switch::ForwardAddr) <==> text == "-f"@ || text
            == "--forward-addr"@,
        reverse_proxy_switch(text) == Some(Switch::Listeners) <==> text == "--listeners"@,
        reverse_proxy_switch(text) == Some(Switch::CloseAfter) <==> text == "-c"@ || text
            == "--close-after"@,
        reverse_proxy_switch(text) == Some(Switch::Protocol) <==> text == "-p"@ || text
            == "--protocol"@,
        reverse_proxy_switch(text) matches Some(switch) ==> switch != Switch::Ipv4 && switch
            != Switch::Ipv6 && switch != Switch::AllowedSubnets && switch != Switch::Mark,
{
    lemma_literals();
}

/// The texts of switches and modes differ in their lengths or in one of these characters.
proof fn lemma_literals()
    ensures
        "-h"@.len() == 2 && "-h"@[0] == '-' && "-h"@[1] == 'h',
        "-4"@.len() == 2 && "-4"@[1] == '4',
        "-6"@.len() == 2 && "-6"@[1] == '6',
        "-a"@.len() == 2 && "-a"@[1] == 'a',
        "-c"@.len() == 2 && "-c"@[1] == 'c',
        "-l"@.len() == 2 && "-l"@[1] == 'l',
        "-p"@.len() == 2 && "-p"@[1] == 'p',
        "-m"@.len() == 2 && "-m"@[1] == 'm',
        "-f"@.len() == 2 && "-f"@[1] == 'f',
        "--help"@.len() == 6 && "--help"@[2] == 'h',
        "--ipv4"@.len() == 6 && "--ipv4"@[2] == 'i' && "--ipv4"@[5] == '4',
        "--ipv6"@.len() == 6 && "--ipv6"@[2] == 'i' && "--ipv6"@[5] == '6',
        "--mark"@.len() == 6 && "--mark"@[2] == 'm',
        "--allowed-subnets"@.len() == 17,
        "--close-after"@.len() == 13 && "--close-after"@[2] == 'c',
        "--listen-addr"@.len() == 13 && "--listen-addr"@[2] == 'l',
        "--listeners"@.len() == 11,
        "--protocol"@.len() == 10,
        "--forward-addr"@.len() == 14,
        "mmproxy"@.len() == 7,
        "reverseproxy"@.len() == 12,
        "tcp"@.len() == 3 && "tcp"@[0] == 't',
        "udp"@.len() == 3 && "udp"@[0] == 'u',
{
    reveal_strlit("-h");
    reveal_strlit("-4");
    reveal_strlit("-6");
    reveal_strlit("-a");
    reveal_strlit("-c");
    reveal_strlit("-l");
    reveal_strlit("-p");
    reveal_strlit("-m");
    reveal_strlit("-f");
    reveal_strlit("--help");
    reveal_strlit("--ipv4");
    reveal_strlit("--ipv6");
    reveal_strlit("--mark");
    reveal_strlit("--allowed-subnets");
    reveal_strlit("--close-after");
    reveal_strlit("--listen-addr");
    reveal_strlit("--listeners");
    reveal_strlit("--protocol");
    reveal_strlit("--forward-addr");
    reveal_strlit("mmproxy");
    reveal_strlit("reverseproxy");
    reveal_strlit("tcp");
    reveal_strlit("udp");
}

/// A protocol is named by its name in any letter case, and by nothing else; a refusal repeats what
/// was written.
pub proof fn law_names_of_protocols(text: Seq<char>)
    ensures
        protocol_text(text) == Ok::<_, Seq<char>>(Protocol::Tcp) <==> lowercase(text) == "tcp"@,
        protocol_text(text) == Ok::<_, Seq<char>>(Protocol::Udp) <==> lowercase(text) == "udp"@,
        protocol_text(text) matches Err(words) ==> words == "invalid protocol value: "@ + text,
{
    lemma_literals();
}

/// A number of listeners other than zero is taken as it is; zero becomes the number of threads that
/// run at once, as far as 32 bits hold it, or one where that number is not known.
pub proof fn law_listener_count(requested: u32, parallelism: u64)
    ensures
        requested > 0 ==> listener_count(requested, Some(parallelism)) == requested
            && listener_count(requested, None) == requested,
        listener_count(0, None) == 1,
        parallelism <= u32::MAX ==> listener_count(0, Some(parallelism)) == parallelism,
        (parallelism - listener_count(0, Some(parallelism))) % 0x1_0000_0000 == 0,
{
}

/// A number is read exactly from the decimal texts that denote it, where it fits.
pub proof fn law_numbers_are_read(text: Seq<char>, n: u32, m: u64)
    ensures
        u32_text(text) == Ok::<_, Seq<char>>(n) <==> is_decimal(text) && decimal_value(text) == n,
        u64_text(text) == Ok::<_, Seq<char>>(m) <==> is_decimal(text) && decimal_value(text) == m,
        u32_text(text) matches Err(words) ==> words == u32_parse_error(text),
        u64_text(text) matches Err(words) ==> words == u64_parse_error(text),
{
}

/// Each switch sets its own setting, to what the value behind it denotes, and is refused exactly
/// where the value denotes nothing, with the reason.
pub proof fn law_values_of_switches(value: Seq<char>, parallelism: Option<u64>)
    ensures
        match socket_addr_text(value) {
            Ok(addr) => {
                &&& setting_text(Switch::Ipv4, value, parallelism) == Ok::<_, Seq<char>>(
                    Setting::<Seq<IpCidr>>::Ipv4(addr),
                )
                &&& setting_text(Switch::Ipv6, value, parallelism) == Ok::<_, Seq<char>>(
                    Setting::<Seq<IpCidr>>::Ipv6(addr),
                )
                &&& setting_text(Switch::ListenAddr, value, parallelism) == Ok::<_, Seq<char>>(
                    Setting::<Seq<IpCidr>>::ListenAddr(addr),
                )
                &&& setting_text(Switch::ForwardAddr, value, parallelism) == Ok::<_, Seq<char>>(
                    Setting::<Seq<IpCidr>>::ForwardAddr(addr),
                )
            },
            Err(reason) => forall|switch: Switch|
                switch == Switch::Ipv4 || switch == Switch::Ipv6 || switch == Switch::ListenAddr
                    || switch == Switch::ForwardAddr ==> #[trigger] setting_text(
                    switch,
                    value,
                    parallelism,
                ) == Err::<Setting<Seq<IpCidr>>, _>(reason),
        },
        match u32_text(value) {
            Ok(n) => {
                &&& setting_text(Switch::Mark, value, parallelism) == Ok::<_, Seq<char>>(
                    Setting::<Seq<IpCidr>>::Mark(n),
                )
                &&& setting_text(Switch::Listeners, value, parallelism) == Ok::<_, Seq<char>>(
                    Setting::<Seq<IpCidr>>::Listeners(listener_count(n, parallelism)),
                )
            },
            Err(reason) => {
                &&& setting_text(Switch::Mark, value, parallelism) == Err::<
                    Setting<Seq<IpCidr>>,
                    _,
                >(reason)
                &&& setting_text(Switch::Listeners, value, parallelism) == Err::<
                    Setting<Seq<IpCidr>>,
                    _,
                >(reason)
            },
        },
        match u64_text(value) {
            Ok(n) => setting_text(Switch::CloseAfter, value, parallelism) == Ok::<_, Seq<char>>(
                Setting::<Seq<IpCidr>>::CloseAfter(n),
            ),
            Err(reason) => setting_text(Switch::CloseAfter, value, parallelism) == Err::<
                Setting<Seq<IpCidr>>,
                _,
            >(reason),
        },
        match protocol_text(value) {
            Ok(protocol) => setting_text(Switch::Protocol, value, parallelism) == Ok::<
                _,
                Seq<char>,
            >(Setting::<Seq<IpCidr>>::Protocol(protocol)),
            Err(reason) => setting_text(Switch::Protocol, value, parallelism) == Err::<
                Setting<Seq<IpCidr>>,
                _,
            >(reason),
        },
{
}

/// The settings of `mmproxy` say what this setting sets.
pub open spec fn mmproxy_in_force(
    settings: MmproxySettings,
    setting: Setting<Seq<IpCidr>>,
) -> bool {
    match setting {
        Setting::Help => settings.help,
        Setting::Ipv4(addr) => settings.ipv4_fwd == addr,
        Setting::Ipv6(addr) => settings.ipv6_fwd == addr,
        Setting::AllowedSubnets(allowed) => settings.allowed_subnets == allowed,
        Setting::CloseAfter(n) => settings.close_after == n,
        Setting::ListenAddr(addr) => settings.listen_addr == addr,
        Setting::Listeners(n) => settings.listeners == n,
        Setting::Protocol(protocol) => settings.protocol == protocol,
        Setting::Mark(n) => settings.mark == n,
        Setting::ForwardAddr(_) => true,
    }
}

/// The settings of the reverse proxy say what this setting sets.
pub open spec fn reverse_proxy_in_force(
    draft: ReverseProxyDraft,
    setting: Setting<Seq<IpCidr>>,
) -> bool {
    match setting {
        Setting::Help => draft.help,
        Setting::CloseAfter(n) => draft.close_after == n,
        Setting::ListenAddr(addr) => draft.listen_addr == addr,
        Setting::ForwardAddr(addr) => draft.forward_addr == Some(addr),
        Setting::Listeners(n) => draft.listeners == n,
        Setting::Protocol(protocol) => draft.protocol == protocol,
        _ => true,
    }
}

/// A setting that is made is in force, and every setting of another kind that was in force still
/// is.
pub proof fn law_setting_takes_force(
    settings: MmproxySettings,
    draft: ReverseProxyDraft,
    made: Setting<Seq<IpCidr>>,
    other: Setting<Seq<IpCidr>>,
)
    ensures
        mmproxy_in_force(mmproxy_with(settings, made), made),
        reverse_proxy_in_force(reverse_proxy_with(draft, made), made),
        !same_switch(made, other) ==> mmproxy_in_force(mmproxy_with(settings, made), other)
            == mmproxy_in_force(settings, other),
        !same_switch(made, other) ==> reverse_proxy_in_force(reverse_proxy_with(draft, made), other)
            == reverse_proxy_in_force(draft, other),
        made !is Help ==> mmproxy_with(settings, made).help == settings.help,
        made !is ForwardAddr ==> reverse_proxy_with(draft, made).forward_addr == draft.forward_addr,
{
}

/// Two settings are of one kind exactly where one switch makes both.
pub proof fn law_kinds_of_settings(a: Setting<Seq<IpCidr>>, b: Setting<Seq<IpCidr>>)
    ensures
        same_switch(a, b) <==> (a is Help <==> b is Help) && (a is Ipv4 <==> b is Ipv4) && (
        a is Ipv6 <==> b is Ipv6) && (a is AllowedSubnets <==> b is AllowedSubnets) && (
        a is CloseAfter <==> b is CloseAfter) && (a is ListenAddr <==> b is ListenAddr) && (
        a is ForwardAddr <==> b is ForwardAddr) && (a is Listeners <==> b is Listeners) && (
        a is Protocol <==> b is Protocol) && (a is Mark <==> b is Mark),
{
}

/// A file of subnets puts no limit exactly where it has no line. Where every line names a network,
/// the limit is those networks, one for each line, in order; a file with a line that names none is
/// refused for the first such line; and one that cannot be read is refused with the reason.
pub proof fn law_file_limits_to_its_lines(contents: Seq<char>, unreadable: Seq<char>)
    ensures
        subnets_of_file(Ok(contents)) == Ok::<_, Seq<char>>(None::<Seq<IpCidr>>) <==> lines(
            contents,
        ).len() == 0,
        match subnets_of_file(Ok(contents)) {
            Ok(Some(nets)) => {
                &&& nets.len() == lines(contents).len()
                &&& subnets(lines(contents)) == Ok::<_, (nat, Seq<char>)>(nets)
                &&& forall|i: int|
                    0 <= i < nets.len() ==> cidr_text(#[trigger] lines(contents)[i]) == Ok::<
                        _,
                        Seq<char>,
                    >(nets[i])
            },
            Ok(None) => lines(contents).len() == 0,
            Err(reason) => exists|at: int|
                0 <= at < lines(contents).len() && cidr_text(#[trigger] lines(contents)[at])
                    == Err::<IpCidr, _>(reason) && forall|i: int|
                    0 <= i < at ==> cidr_text(#[trigger] lines(contents)[i]) is Ok,
        },
        subnets_of_file(Err(unreadable)) == Err::<Option<Seq<IpCidr>>, _>(unreadable),
{
    let found = lines(contents);
    law_each_line_gives_one_network(found);
    if let Err((at, reason)) = subnets(found) {
        assert(cidr_text(found[at as int]) == Err::<IpCidr, _>(reason));
    }
}

/// A file that holds a text for each of some networks, one on each line, limits to those networks:
/// however few they are, if there is any.
pub proof fn law_listed_networks_are_the_limit(texts: Seq<Seq<char>>, nets: Seq<IpCidr>)
    requires
        texts.len() == nets.len(),
        nets.len() > 0,
        forall|i: int|
            0 <= i < texts.len() ==> is_line(#[trigger] texts[i]) && cidr_text(texts[i]) == Ok::<
                _,
                Seq<char>,
            >(nets[i]),
    ensures
        subnets_of_file(Ok(joined(texts))) == Ok::<_, Seq<char>>(Some(nets)),
{
    law_list_is_read_in_order(texts, nets);
}

// ---------------------------------------------------------------------------------------------
// Laws of whole rows
// ---------------------------------------------------------------------------------------------

/// From the `i`-th argument on stand these switches, each with its value.
pub open spec fn row_stands(
    tokens: Seq<Option<Seq<char>>>,
    i: int,
    row: Seq<(Seq<char>, Seq<char>)>,
) -> bool {
    &&& 0 <= i && i + 2 * row.len() <= tokens.len()
    &&& forall|k: int|
        0 <= k < row.len() ==> #[trigger] row[k] == row[k] && tokens[i + 2 * k] == Some(row[k].0)
            && tokens[i + 2 * k + 1] == Some(row[k].1)
}

/// In the mode `mmproxy`, these switches with their values make these settings, in order; where a
/// switch names a file of subnets, the next file is taken, and `left` are the files that no switch
/// takes.
pub open spec fn mmproxy_row_reads(
    row: Seq<(Seq<char>, Seq<char>)>,
    made: Seq<Setting<Seq<IpCidr>>>,
    files: Seq<Result<Seq<char>, Seq<char>>>,
    left: Seq<Result<Seq<char>, Seq<char>>>,
    parallelism: Option<u64>,
) -> bool
    decreases row.len(),
{
    if row.len() == 0 {
        made.len() == 0 && files == left
    } else {
        &&& made.len() > 0
        &&& match mmproxy_switch(row[0].0) {
            Some(Switch::Help) | None => false,
            Some(Switch::AllowedSubnets) => {
                &&& files.len() > 0
                &&& made[0] matches Setting::AllowedSubnets(allowed) && subnets_of_file(files[0])
                    == Ok::<_, Seq<char>>(allowed)
                &&& mmproxy_row_reads(row.skip(1), made.skip(1), files.skip(1), left, parallelism)
            },
            Some(switch) => {
                &&& setting_text(switch, row[0].1, parallelism) == Ok::<_, Seq<char>>(made[0])
                &&& mmproxy_row_reads(row.skip(1), made.skip(1), files, left, parallelism)
            },
        }
    }
}

/// In the mode `reverseproxy`, these switches with their values make these settings, in order.
pub open spec fn reverse_proxy_row_reads(
    row: Seq<(Seq<char>, Seq<char>)>,
    made: Seq<Setting<Seq<IpCidr>>>,
    parallelism: Option<u64>,
) -> bool {
    &&& row.len() == made.len()
    &&& forall|k: int|
        0 <= k < row.len() ==> (reverse_proxy_switch((#[trigger] row[k]).0) matches Some(switch)
            && switch != Switch::Help && setting_text(switch, row[k].1, parallelism) == Ok::<
            _,
            Seq<char>,
        >(made[k]))
}

/// The settings of `mmproxy` after these are made, in order.
pub open spec fn mmproxy_after(
    settings: MmproxySettings,
    made: Seq<Setting<Seq<IpCidr>>>,
) -> MmproxySettings
    decreases made.len(),
{
    if made.len() == 0 {
        settings
    } else {
        mmproxy_after(mmproxy_with(settings, made[0]), made.skip(1))
    }
}

/// The settings of the reverse proxy after these are made, in order.
pub open spec fn reverse_proxy_after(
    draft: ReverseProxyDraft,
    made: Seq<Setting<Seq<IpCidr>>>,
) -> ReverseProxyDraft
    decreases made.len(),
{
    if made.len() == 0 {
        draft
    } else {
        reverse_proxy_after(reverse_proxy_with(draft, made[0]), made.skip(1))
    }
}

proof fn lemma_mmproxy_row(
    tokens: Seq<Option<Seq<char>>>,
    i: int,
    row: Seq<(Seq<char>, Seq<char>)>,
    made: Seq<Setting<Seq<IpCidr>>>,
    settings: MmproxySettings,
    files: Seq<Result<Seq<char>, Seq<char>>>,
    left: Seq<Result<Seq<char>, Seq<char>>>,
    pages: Seq<HelpPage>,
    parallelism: Option<u64>,
)
    requires
        row_stands(tokens, i, row),
        mmproxy_row_reads(row, made, files, left, parallelism),
    ensures
        mmproxy_run(tokens, i, settings, files, pages, parallelism) == mmproxy_run(
            tokens,
            i + 2 * row.len(),
            mmproxy_after(settings, made),
            left,
            pages,
            parallelism,
        ),
        forall|k: int| 0 <= k < made.len() ==> !(#[trigger] made[k] is Help),
    decreases row.len(),
{
    if row.len() > 0 {
        let tail = row.skip(1);
        assert(row[0] == row[0]);
        assert(tokens[i + 2 * 0] == Some(row[0].0) && tokens[i + 2 * 0 + 1] == Some(row[0].1));
        assert forall|k: int| 0 <= k < tail.len() implies #[trigger] tail[k] == tail[k] && tokens[i
            + 2 + 2 * k] == Some(tail[k].0) && tokens[i + 2 + 2 * k + 1] == Some(tail[k].1) by {
            assert(row[k + 1] == tail[k]);
            assert(tokens[i + 2 * (k + 1)] == Some(row[k + 1].0));
        }
        let rest = if mmproxy_switch(row[0].0) == Some(Switch::AllowedSubnets) {
            files.skip(1)
        } else {
            files
        };
        lemma_mmproxy_row(
            tokens,
            i + 2,
            tail,
            made.skip(1),
            mmproxy_with(settings, made[0]),
            rest,
            left,
            pages,
            parallelism,
        );
        assert forall|k: int| 0 <= k < made.len() implies !(#[trigger] made[k] is Help) by {
            if k > 0 {
                assert(made.skip(1)[k - 1] == made[k]);
            }
        }
    }
}

proof fn lemma_reverse_proxy_row(
    tokens: Seq<Option<Seq<char>>>,
    i: int,
    row: Seq<(Seq<char>, Seq<char>)>,
    made: Seq<Setting<Seq<IpCidr>>>,
    draft: ReverseProxyDraft,
    pages: Seq<HelpPage>,
    parallelism: Option<u64>,
)
    requires
        row_stands(tokens, i, row),
        reverse_proxy_row_reads(row, made, parallelism),
    ensures
        reverse_proxy_run(tokens, i, draft, pages, parallelism) == reverse_proxy_run(
            tokens,
            i + 2 * row.len(),
            reverse_proxy_after(draft, made),
            pages,
            parallelism,
        ),
        forall|k: int| 0 <= k < made.len() ==> !(#[trigger] made[k] is Help),
    decreases row.len(),
{
    if row.len() > 0 {
        let tail = row.skip(1);
        assert(row[0] == row[0]);
        assert(tokens[i + 2 * 0] == Some(row[0].0) && tokens[i + 2 * 0 + 1] == Some(row[0].1));
        assert forall|k: int| 0 <= k < tail.len() implies #[trigger] tail[k] == tail[k] && tokens[i
            + 2 + 2 * k] == Some(tail[k].0) && tokens[i + 2 + 2 * k + 1] == Some(tail[k].1) by {
            assert(row[k + 1] == tail[k]);
            assert(tokens[i + 2 * (k + 1)] == Some(row[k + 1].0));
        }
        assert forall|k: int| 0 <= k < tail.len() implies (reverse_proxy_switch(
            (#[trigger] tail[k]).0,
        ) matches Some(switch) && switch != Switch::Help && setting_text(
            switch,
            tail[k].1,
            parallelism,
        ) == Ok::<_, Seq<char>>(made.skip(1)[k])) by {
            assert(row[k + 1] == tail[k]);
        }
        lemma_reverse_proxy_row(
            tokens,
            i + 2,
            tail,
            made.skip(1),
            reverse_proxy_with(draft, made[0]),
            pages,
            parallelism,
        );
        law_names_of_switches(row[0].0);
        assert forall|k: int| 0 <= k < made.len() implies !(#[trigger] made[k] is Help) by {
            if k > 0 {
                assert(made.skip(1)[k - 1] == made[k]);
            }
        }
    }
}

proof fn lemma_mmproxy_kept(
    settings: MmproxySettings,
    made: Seq<Setting<Seq<IpCidr>>>,
    kept: Setting<Seq<IpCidr>>,
)
    requires
        mmproxy_in_force(settings, kept),
        forall|k: int| 0 <= k < made.len() ==> !same_switch(#[trigger] made[k], kept),
    ensures
        mmproxy_in_force(mmproxy_after(settings, made), kept),
    decreases made.len(),
{
    if made.len() > 0 {
        assert(!same_switch(made[0], kept));
        law_setting_takes_force(settings, reverse_proxy_defaults(), made[0], kept);
        assert forall|k: int| 0 <= k < made.skip(1).len() implies !same_switch(
            #[trigger] made.skip(1)[k],
            kept,
        ) by {
            assert(made.skip(1)[k] == made[k + 1]);
        }
        lemma_mmproxy_kept(mmproxy_with(settings, made[0]), made.skip(1), kept);
    }
}

proof fn lemma_mmproxy_last(
    settings: MmproxySettings,
    made: Seq<Setting<Seq<IpCidr>>>,
    last: int,
)
    requires
        0 <= last < made.len(),
        forall|k: int| last < k < made.len() ==> !same_switch(#[trigger] made[k], made[last]),
    ensures
        mmproxy_in_force(mmproxy_after(settings, made), made[last]),
    decreases made.len(),
{
    let tail = made.skip(1);
    let next = mmproxy_with(settings, made[0]);
    assert forall|k: int| 0 <= k < tail.len() implies #[trigger] tail[k] == made[k + 1] by {}
    if last == 0 {
        law_setting_takes_force(settings, reverse_proxy_defaults(), made[0], made[0]);
        lemma_mmproxy_kept(next, tail, made[0]);
    } else {
        assert(tail[last - 1] == made[last]);
        lemma_mmproxy_last(next, tail, last - 1);
    }
}

proof fn lemma_mmproxy_no_help(settings: MmproxySettings, made: Seq<Setting<Seq<IpCidr>>>)
    requires
        forall|k: int| 0 <= k < made.len() ==> !(#[trigger] made[k] is Help),
    ensures
        mmproxy_after(settings, made).help == settings.help,
    decreases made.len(),
{
    if made.len() > 0 {
        assert(!(made[0] is Help));
        assert forall|k: int| 0 <= k < made.skip(1).len() implies !(
        #[trigger] made.skip(1)[k] is Help) by {
            assert(made.skip(1)[k] == made[k + 1]);
        }
        lemma_mmproxy_no_help(mmproxy_with(settings, made[0]), made.skip(1));
    }
}

proof fn lemma_reverse_proxy_kept(
    draft: ReverseProxyDraft,
    made: Seq<Setting<Seq<IpCidr>>>,
    kept: Setting<Seq<IpCidr>>,
)
    requires
        reverse_proxy_in_force(draft, kept),
        forall|k: int| 0 <= k < made.len() ==> !same_switch(#[trigger] made[k], kept),
    ensures
        reverse_proxy_in_force(reverse_proxy_after(draft, made), kept),
    decreases made.len(),
{
    if made.len() > 0 {
        assert(!same_switch(made[0], kept));
        law_setting_takes_force(mmproxy_defaults(), draft, made[0], kept);
        assert forall|k: int| 0 <= k < made.skip(1).len() implies !same_switch(
            #[trigger] made.skip(1)[k],
            kept,
        ) by {
            assert(made.skip(1)[k] == made[k + 1]);
        }
        lemma_reverse_proxy_kept(reverse_proxy_with(draft, made[0]), made.skip(1), kept);
    }
}

proof fn lemma_reverse_proxy_last(
    draft: ReverseProxyDraft,
    made: Seq<Setting<Seq<IpCidr>>>,
    last: int,
)
    requires
        0 <= last < made.len(),
        forall|k: int| last < k < made.len() ==> !same_switch(#[trigger] made[k], made[last]),
    ensures
        reverse_proxy_in_force(reverse_proxy_after(draft, made), made[last]),
    decreases made.len(),
{
    let tail = made.skip(1);
    let next = reverse_proxy_with(draft, made[0]);
    assert forall|k: int| 0 <= k < tail.len() implies #[trigger] tail[k] == made[k + 1] by {}
    if last == 0 {
        law_setting_takes_force(mmproxy_defaults(), draft, made[0], made[0]);
        lemma_reverse_proxy_kept(next, tail, made[0]);
    } else {
        assert(tail[last - 1] == made[last]);
        lemma_reverse_proxy_last(next, tail, last - 1);
    }
}

proof fn lemma_reverse_proxy_plain(draft: ReverseProxyDraft, made: Seq<Setting<Seq<IpCidr>>>)
    requires
        forall|k: int| 0 <= k < made.len() ==> !(#[trigger] made[k] is Help),
    ensures
        reverse_proxy_after(draft, made).help == draft.help,
        (forall|k: int| 0 <= k < made.len() ==> !(#[trigger] made[k] is ForwardAddr))
            ==> reverse_proxy_after(draft, made).forward_addr == draft.forward_addr,
        (exists|k: int| 0 <= k < made.len() && #[trigger] made[k] is ForwardAddr)
            || draft.forward_addr is Some ==> reverse_proxy_after(draft, made).forward_addr is Some,
    decreases made.len(),
{
    if made.len() > 0 {
        let tail = made.skip(1);
        assert(!(made[0] is Help));
        assert forall|k: int| 0 <= k < tail.len() implies #[trigger] tail[k] == made[k + 1] by {}
        lemma_reverse_proxy_plain(reverse_proxy_with(draft, made[0]), tail);
        if exists|k: int| 0 <= k < made.len() && #[trigger] made[k] is ForwardAddr {
            let k = choose|k: int| 0 <= k < made.len() && #[trigger] made[k] is ForwardAddr;
            if k > 0 {
                assert(tail[k - 1] is ForwardAddr);
            }
        }
    }
}

/// A command line that is `mmproxy` and switches with good values runs that mode. For every kind of
/// setting, the last switch of that kind is in force; and where there is none, the default is.
pub proof fn law_mmproxy_runs_with_its_switches(
    tokens: Seq<Option<Seq<char>>>,
    row: Seq<(Seq<char>, Seq<char>)>,
    made: Seq<Setting<Seq<IpCidr>>>,
    files: Seq<Result<Seq<char>, Seq<char>>>,
    left: Seq<Result<Seq<char>, Seq<char>>>,
    parallelism: Option<u64>,
    last: int,
    default: Setting<Seq<IpCidr>>,
)
    requires
        tokens.len() == 1 + 2 * row.len(),
        tokens[0] == Some("mmproxy"@),
        row_stands(tokens, 1, row),
        mmproxy_row_reads(row, made, files, left, parallelism),
    ensures
        command_line(tokens, files, parallelism).0.len() == 0,
        command_line(tokens, files, parallelism).1 matches Outcome::Run(
            CommandView::mmproxy(settings),
        ) && {
            &&& !settings.help
            &&& 0 <= last < made.len() && (forall|k: int|
                last < k < made.len() ==> !same_switch(#[trigger] made[k], made[last]))
                ==> mmproxy_in_force(settings, made[last])
            &&& mmproxy_in_force(mmproxy_defaults(), default) && (forall|k: int|
                0 <= k < made.len() ==> !same_switch(#[trigger] made[k], default))
                ==> mmproxy_in_force(settings, default)
        },
{
    lemma_literals();
    let start = mmproxy_defaults();
    lemma_mmproxy_row(tokens, 1, row, made, start, files, left, Seq::empty(), parallelism);
    lemma_mmproxy_no_help(start, made);
    assert(!is_help("mmproxy"@));
    if 0 <= last < made.len() && (forall|k: int|
        last < k < made.len() ==> !same_switch(#[trigger] made[k], made[last])) {
        lemma_mmproxy_last(start, made, last);
    }
    if mmproxy_in_force(start, default) && (forall|k: int|
        0 <= k < made.len() ==> !same_switch(#[trigger] made[k], default)) {
        lemma_mmproxy_kept(start, made, default);
    }
}

/// A command line that is `reverseproxy` and switches with good values runs that mode where the
/// server is named, and is refused where it is not. For every kind of setting, the last switch of
/// that kind is in force; and where there is none, the default is.
pub proof fn law_reverse_proxy_runs_with_its_switches(
    tokens: Seq<Option<Seq<char>>>,
    row: Seq<(Seq<char>, Seq<char>)>,
    made: Seq<Setting<Seq<IpCidr>>>,
    files: Seq<Result<Seq<char>, Seq<char>>>,
    parallelism: Option<u64>,
    last: int,
    default: Setting<Seq<IpCidr>>,
)
    requires
        tokens.len() == 1 + 2 * row.len(),
        tokens[0] == Some("reverseproxy"@),
        row_stands(tokens, 1, row),
        reverse_proxy_row_reads(row, made, parallelism),
    ensures
        command_line(tokens, files, parallelism).0.len() == 0,
        !(exists|k: int| 0 <= k < made.len() && #[trigger] made[k] is ForwardAddr) ==> command_line(
            tokens,
            files,
            parallelism,
        ).1 == Outcome::<Seq<char>, CommandView>::Fail(
            ArgsError::InCommand {
                name: "reverseproxy"@,
                error: SwitchError::MissingRequired { required: Required::ForwardAddr },
            },
        ),
        (exists|k: int| 0 <= k < made.len() && #[trigger] made[k] is ForwardAddr) ==> (command_line(
            tokens,
            files,
            parallelism,
        ).1 matches Outcome::Run(CommandView::reverseproxy(args)) && {
            let draft = ReverseProxyDraft {
                help: args.help,
                listen_addr: args.listen_addr,
                forward_addr: Some(args.forward_addr),
                listeners: args.listeners,
                close_after: args.close_after,
                protocol: args.protocol,
            };
            &&& !args.help
            &&& 0 <= last < made.len() && (forall|k: int|
                last < k < made.len() ==> !same_switch(#[trigger] made[k], made[last]))
                ==> reverse_proxy_in_force(draft, made[last])
            &&& reverse_proxy_in_force(reverse_proxy_defaults(), default) && (forall|k: int|
                0 <= k < made.len() ==> !same_switch(#[trigger] made[k], default))
                ==> reverse_proxy_in_force(draft, default)
        }),
{
    lemma_literals();
    let start = reverse_proxy_defaults();
    lemma_reverse_proxy_row(tokens, 1, row, made, start, Seq::empty(), parallelism);
    lemma_reverse_proxy_plain(start, made);
    assert(!is_help("reverseproxy"@));
    if 0 <= last < made.len() && (forall|k: int|
        last < k < made.len() ==> !same_switch(#[trigger] made[k], made[last])) {
        lemma_reverse_proxy_last(start, made, last);
    }
    if reverse_proxy_in_force(start, default) && (forall|k: int|
        0 <= k < made.len() ==> !same_switch(#[trigger] made[k], default)) {
        lemma_reverse_proxy_kept(start, made, default);
    }
}

/// Why the argument at `i`, which is no good switch with a good value, ends a row; `set` is what a
/// switch with a value makes, or why the value is refused.
pub open spec fn refusal_at(
    tokens: Seq<Option<Seq<char>>>,
    i: int,
    switch: Option<Switch>,
    set: Result<Setting<Seq<IpCidr>>, Seq<char>>,
    error: SwitchError<Seq<char>>,
) -> bool {
    match tokens[i] {
        None => error == SwitchError::<Seq<char>>::NotUnicode,
        Some(name) => match switch {
            None => if name.len() > 0 && name[0] == '-' {
                error == (SwitchError::UnsupportedSwitch { switch: name })
            } else {
                error == (SwitchError::UnsupportedArgument { argument: name })
            },
            Some(switch) => if i + 1 == tokens.len() {
                error == (SwitchError::MissingSwitchArgument {
                    switch: name,
                    argument: operand_of(switch),
                })
            } else if tokens[i + 1] is None {
                error == SwitchError::<Seq<char>>::NotUnicode
            } else {
                set matches Err(reason) && error == (SwitchError::Failed { name, reason })
            },
        },
    }
}

/// Behind `mmproxy` and switches with good values, an argument that is not Unicode, means nothing,
/// lacks its value or has a bad one refuses the command line, with what is wrong with that argument
/// and no other; and a switch that names a file of subnets that has not been read asks for that
/// file.
pub proof fn law_mmproxy_refuses_the_first_bad_switch(
    tokens: Seq<Option<Seq<char>>>,
    row: Seq<(Seq<char>, Seq<char>)>,
    made: Seq<Setting<Seq<IpCidr>>>,
    files: Seq<Result<Seq<char>, Seq<char>>>,
    left: Seq<Result<Seq<char>, Seq<char>>>,
    parallelism: Option<u64>,
    error: SwitchError<Seq<char>>,
)
    requires
        tokens.len() > 1 + 2 * row.len(),
        tokens[0] == Some("mmproxy"@),
        row_stands(tokens, 1, row),
        mmproxy_row_reads(row, made, files, left, parallelism),
    ensures
        ({
            let i = 1 + 2 * row.len() as int;
            let end = command_line(tokens, files, parallelism).1;
            let switch = match tokens[i] {
                Some(name) => mmproxy_switch(name),
                None => None,
            };
            let has_value = i + 1 < tokens.len() && tokens[i + 1] is Some;
            let value = tokens[i + 1]->Some_0;
            &&& switch == Some(Switch::AllowedSubnets) && has_value && left.len() == 0 ==> end
                == Outcome::<Seq<char>, CommandView>::ReadSubnets(value)
            &&& switch == Some(Switch::AllowedSubnets) && has_value && left.len() > 0 ==> (
            subnets_of_file(left[0]) matches Err(reason) && error == (SwitchError::Failed {
                name: tokens[i]->Some_0,
                reason,
            }) ==> end == Outcome::<Seq<char>, CommandView>::Fail(
                ArgsError::InCommand { name: "mmproxy"@, error },
            ))
            &&& switch != Some(Switch::Help) && (switch != Some(Switch::AllowedSubnets)
                || !has_value) && refusal_at(
                tokens,
                i,
                switch,
                setting_text(switch->Some_0, value, parallelism),
                error,
            ) ==> end == Outcome::<Seq<char>, CommandView>::Fail(
                ArgsError::InCommand { name: "mmproxy"@, error },
            )
        }),
{
    lemma_literals();
    let start = mmproxy_defaults();
    lemma_mmproxy_row(tokens, 1, row, made, start, files, left, Seq::empty(), parallelism);
    assert(!is_help("mmproxy"@));
}

/// Behind `reverseproxy` and switches with good values, an argument that is not Unicode, means
/// nothing, lacks its value or has a bad one refuses the command line, with what is wrong with that
/// argument and no other.
pub proof fn law_reverse_proxy_refuses_the_first_bad_switch(
    tokens: Seq<Option<Seq<char>>>,
    row: Seq<(Seq<char>, Seq<char>)>,
    made: Seq<Setting<Seq<IpCidr>>>,
    files: Seq<Result<Seq<char>, Seq<char>>>,
    parallelism: Option<u64>,
    error: SwitchError<Seq<char>>,
)
    requires
        tokens.len() > 1 + 2 * row.len(),
        tokens[0] == Some("reverseproxy"@),
        row_stands(tokens, 1, row),
        reverse_proxy_row_reads(row, made, parallelism),
    ensures
        ({
            let i = 1 + 2 * row.len() as int;
            let switch = match tokens[i] {
                Some(name) => reverse_proxy_switch(name),
                None => None,
            };
            switch != Some(Switch::Help) && refusal_at(
                tokens,
                i,
                switch,
                setting_text(switch->Some_0, tokens[i + 1]->Some_0, parallelism),
                error,
            ) ==> command_line(tokens, files, parallelism).1 == Outcome::<
                Seq<char>,
                CommandView,
            >::Fail(ArgsError::InCommand { name: "reverseproxy"@, error })
        }),
{
    lemma_literals();
    let start = reverse_proxy_defaults();
    lemma_reverse_proxy_row(tokens, 1, row, made, start, Seq::empty(), parallelism);
    assert(!is_help("reverseproxy"@));
}

/// The first argument that does not ask for help must be a mode: where there is none, or it is not
/// Unicode, or means nothing, the command line is refused for that. Each time help is asked for in
/// front of it, the main help page is shown.
pub proof fn law_a_mode_comes_first(
    tokens: Seq<Option<Seq<char>>>,
    helps: nat,
    files: Seq<Result<Seq<char>, Seq<char>>>,
    parallelism: Option<u64>,
)
    requires
        helps <= tokens.len(),
        forall|i: int|
            0 <= i < helps ==> #[trigger] tokens[i] == Some("-h"@) || tokens[i] == Some(
                "--help"@,
            ),
    ensures
        ({
            let (pages, end) = command_line(tokens, files, parallelism);
            &&& helps == tokens.len() ==> pages.len() == helps && end == Outcome::<
                Seq<char>,
                CommandView,
            >::Fail(
                ArgsError::Own(SwitchError::MissingRequired { required: Required::Command }),
            )
            &&& helps < tokens.len() ==> match tokens[helps as int] {
                None => pages.len() == helps && end == Outcome::<Seq<char>, CommandView>::Fail(
                    ArgsError::Own(SwitchError::NotUnicode),
                ),
                Some(name) => name != "-h"@ && name != "--help"@ && name != "mmproxy"@ && name
                    != "reverseproxy"@ ==> pages.len() == helps && end == Outcome::<
                    Seq<char>,
                    CommandView,
                >::Fail(
                    ArgsError::Own(
                        if name.len() > 0 && name[0] == '-' {
                            SwitchError::UnsupportedSwitch { switch: name }
                        } else {
                            SwitchError::UnsupportedArgument { argument: name }
                        },
                    ),
                ),
            }
            &&& forall|i: int| 0 <= i < helps ==> #[trigger] pages[i] == HelpPage::Main
            &&& helps > 0 ==> end !is Run
        }),
{
    lemma_leading_help(tokens, 0, helps, false, files, Seq::empty(), parallelism);
    law_help_or_run(tokens, files, parallelism);
    let start = main_pages(helps);
    lemma_command_line_pages(tokens, helps as int, helps > 0, files, start, parallelism);
    let (pages, end) = command_line(tokens, files, parallelism);
    assert((pages, end) == command_line_from(
        tokens,
        helps as int,
        helps > 0,
        files,
        start,
        parallelism,
    ));
    assert forall|i: int| 0 <= i < helps implies #[trigger] pages[i] == HelpPage::Main by {
        assert(start[i] == pages.subrange(0, start.len() as int)[i]);
    }
}

/// The main help page, so many times.
spec fn main_pages(n: nat) -> Seq<HelpPage> {
    Seq::new(n, |k: int| HelpPage::Main)
}

proof fn lemma_leading_help(
    tokens: Seq<Option<Seq<char>>>,
    i: nat,
    helps: nat,
    help: bool,
    files: Seq<Result<Seq<char>, Seq<char>>>,
    pages: Seq<HelpPage>,
    parallelism: Option<u64>,
)
    requires
        i <= helps <= tokens.len(),
        pages =~= main_pages(i),
        help == (i > 0),
        forall|k: int|
            0 <= k < helps ==> #[trigger] tokens[k] == Some("-h"@) || tokens[k] == Some("--help"@),
    ensures
        command_line_from(tokens, i as int, help, files, pages, parallelism) == command_line_from(
            tokens,
            helps as int,
            helps > 0,
            files,
            main_pages(helps),
            parallelism,
        ),
    decreases helps - i,
{
    if i < helps {
        assert(tokens[i as int] == Some("-h"@) || tokens[i as int] == Some("--help"@));
        lemma_leading_help(
            tokens,
            i + 1,
            helps,
            true,
            files,
            pages.push(HelpPage::Main),
            parallelism,
        );
    } else {
        assert(pages =~= main_pages(helps));
    }
}

proof fn lemma_command_line_pages(
    tokens: Seq<Option<Seq<char>>>,
    i: int,
    help: bool,
    files: Seq<Result<Seq<char>, Seq<char>>>,
    pages: Seq<HelpPage>,
    parallelism: Option<u64>,
)
    ensures
        pages.is_prefix_of(
            command_line_from(tokens, i, help, files, pages, parallelism).0,
        ),
    decreases tokens.len() - i,
{
    if i < tokens.len() {
        if let Some(name) = tokens[i] {
            if is_help(name) {
                assert(pages.is_prefix_of(pages.push(HelpPage::Main)));
                lemma_command_line_pages(
                    tokens,
                    i + 1,
                    true,
                    files,
                    pages.push(HelpPage::Main),
                    parallelism,
                );
            } else if name == "mmproxy"@ {
                let start = mmproxy_defaults();
                lemma_mmproxy_pages(tokens, i + 1, start, files, pages, parallelism);
            } else if name == "reverseproxy"@ {
                let start = reverse_proxy_defaults();
                lemma_reverse_proxy_pages(tokens, i + 1, start, pages, parallelism);
            }
        }
    }
}

/// What is shown of settings, arguments, files and refusals is what they hold.
pub proof fn law_views_show_what_is_there(
    args: ArgsMmproxy,
    reverse: ArgsReverseProxy,
    tokens: Seq<Option<String>>,
    files: Seq<Result<String, String>>,
    i: int,
)
    ensures
        args@.help == args.help,
        args@.ipv4_fwd == args.ipv4_fwd,
        args@.ipv6_fwd == args.ipv6_fwd,
        args@.close_after == args.close_after,
        args@.mark == args.mark,
        args@.listen_addr == args.listen_addr,
        args@.listeners == args.listeners,
        args@.protocol == args.protocol,
        args.allowed_subnets is None <==> args@.allowed_subnets is None,
        args.allowed_subnets matches Some(nets) ==> args@.allowed_subnets == Some(nets@),
        Command::mmproxy(args)@ == CommandView::mmproxy(args@),
        Command::reverseproxy(reverse)@ == CommandView::reverseproxy(reverse),
        tokens_view(tokens).len() == tokens.len(),
        files_view(files).len() == files.len(),
        0 <= i < tokens.len() ==> match tokens[i] {
            Some(text) => tokens_view(tokens)[i] == Some(text@),
            None => tokens_view(tokens)[i] is None,
        },
        0 <= i < files.len() ==> match files[i] {
            Ok(contents) => files_view(files)[i] == Ok::<_, Seq<char>>(contents@),
            Err(reason) => files_view(files)[i] == Err::<Seq<char>, _>(reason@),
        },
{
}

/// What is shown of an outcome is that outcome, with its texts.
pub proof fn law_views_show_the_outcome(
    args: Args,
    path: String,
    name: String,
    reason: String,
    operand: Operand,
    required: Required,
    error: SwitchError<String>,
)
    ensures
        Outcome::<String, Args>::Run(args)@ == Outcome::<Seq<char>, CommandView>::Run(
            args.command@,
        ),
        Outcome::<String, Args>::ReadSubnets(path)@ == Outcome::<
            Seq<char>,
            CommandView,
        >::ReadSubnets(path@),
        Outcome::<String, Args>::Exit@ == Outcome::<Seq<char>, CommandView>::Exit,
        Outcome::<String, Args>::Fail(ArgsError::Own(error))@ == Outcome::<
            Seq<char>,
            CommandView,
        >::Fail(ArgsError::Own(error@)),
        Outcome::<String, Args>::Fail(ArgsError::InCommand { name, error })@ == Outcome::<
            Seq<char>,
            CommandView,
        >::Fail(ArgsError::InCommand { name: name@, error: error@ }),
        (SwitchError::<String>::UnsupportedArgument { argument: name })@ == (SwitchError::<
            Seq<char>,
        >::UnsupportedArgument { argument: name@ }),
        (SwitchError::<String>::UnsupportedSwitch { switch: name })@ == (SwitchError::<
            Seq<char>,
        >::UnsupportedSwitch { switch: name@ }),
        (SwitchError::<String>::MissingSwitchArgument { switch: name, argument: operand })@ == (
        SwitchError::<Seq<char>>::MissingSwitchArgument { switch: name@, argument: operand }),
        (SwitchError::<String>::MissingRequired { required })@ == (SwitchError::<
            Seq<char>,
        >::MissingRequired { required }),
        SwitchError::<String>::NotUnicode@ == SwitchError::<Seq<char>>::NotUnicode,
        (SwitchError::<String>::Failed { name, reason })@ == (SwitchError::<Seq<char>>::Failed {
            name: name@,
            reason: reason@,
        }),
{
}

/// A command line that asks for help shows it and runs nothing: where help is asked for in front of
/// `mmproxy`, or between good switches behind it, every page is shown, in order, and the program
/// leaves.
pub proof fn law_help_ends_mmproxy(
    tokens: Seq<Option<Seq<char>>>,
    helps: nat,
    row: Seq<(Seq<char>, Seq<char>)>,
    made: Seq<Setting<Seq<IpCidr>>>,
    more_row: Seq<(Seq<char>, Seq<char>)>,
    more_made: Seq<Setting<Seq<IpCidr>>>,
    files: Seq<Result<Seq<char>, Seq<char>>>,
    between: Seq<Result<Seq<char>, Seq<char>>>,
    left: Seq<Result<Seq<char>, Seq<char>>>,
    parallelism: Option<u64>,
)
    requires
        tokens.len() == helps + 2int + 2 * row.len() + 2 * more_row.len(),
        forall|i: int|
            0 <= i < helps ==> #[trigger] tokens[i] == Some("-h"@) || tokens[i] == Some("--help"@),
        tokens[helps as int] == Some("mmproxy"@),
        row_stands(tokens, helps + 1int, row),
        mmproxy_row_reads(row, made, files, between, parallelism),
        tokens[helps + 1int + 2 * row.len()] == Some("-h"@) || tokens[helps + 1int + 2 * row.len()]
            == Some("--help"@),
        row_stands(tokens, helps + 2int + 2 * row.len(), more_row),
        mmproxy_row_reads(more_row, more_made, between, left, parallelism),
    ensures
        command_line(tokens, files, parallelism).1 is Exit,
        command_line(tokens, files, parallelism).0.len() == helps + 1,
        command_line(tokens, files, parallelism).0[helps as int] == HelpPage::Mmproxy,
{
    lemma_literals();
    assert(!is_help("mmproxy"@));
    lemma_leading_help(tokens, 0, helps, false, files, Seq::empty(), parallelism);
    let pages = main_pages(helps);
    let start = mmproxy_defaults();
    let i = helps + 1int + 2 * row.len() as int;
    lemma_mmproxy_row(tokens, helps + 1int, row, made, start, files, between, pages, parallelism);
    let shown = pages.push(HelpPage::Mmproxy);
    let helped = mmproxy_with(mmproxy_after(start, made), Setting::Help);
    lemma_mmproxy_row(
        tokens,
        i + 1,
        more_row,
        more_made,
        helped,
        between,
        left,
        shown,
        parallelism,
    );
    lemma_mmproxy_no_help(helped, more_made);
    law_names_of_switches(tokens[i]->Some_0);
}

/// A command line of good switches for `mmproxy` that asks for help in front of the mode shows the
/// main page as often and runs nothing.
pub proof fn law_help_in_front_ends_mmproxy(
    tokens: Seq<Option<Seq<char>>>,
    helps: nat,
    row: Seq<(Seq<char>, Seq<char>)>,
    made: Seq<Setting<Seq<IpCidr>>>,
    files: Seq<Result<Seq<char>, Seq<char>>>,
    left: Seq<Result<Seq<char>, Seq<char>>>,
    parallelism: Option<u64>,
)
    requires
        helps > 0,
        tokens.len() == helps + 1int + 2 * row.len(),
        forall|i: int|
            0 <= i < helps ==> #[trigger] tokens[i] == Some("-h"@) || tokens[i] == Some("--help"@),
        tokens[helps as int] == Some("mmproxy"@),
        row_stands(tokens, helps + 1int, row),
        mmproxy_row_reads(row, made, files, left, parallelism),
    ensures
        command_line(tokens, files, parallelism).1 is Exit,
        command_line(tokens, files, parallelism).0.len() == helps,
{
    lemma_literals();
    assert(!is_help("mmproxy"@));
    lemma_leading_help(tokens, 0, helps, false, files, Seq::empty(), parallelism);
    let pages = main_pages(helps);
    let start = mmproxy_defaults();
    lemma_mmproxy_row(tokens, helps + 1int, row, made, start, files, left, pages, parallelism);
}

/// A command line of good switches for `reverseproxy` that names the server and asks for help, in
/// front of the mode or between the switches behind it, shows every page, in order, and runs
/// nothing.
pub proof fn law_help_ends_reverse_proxy(
    tokens: Seq<Option<Seq<char>>>,
    helps: nat,
    row: Seq<(Seq<char>, Seq<char>)>,
    made: Seq<Setting<Seq<IpCidr>>>,
    more_row: Seq<(Seq<char>, Seq<char>)>,
    more_made: Seq<Setting<Seq<IpCidr>>>,
    files: Seq<Result<Seq<char>, Seq<char>>>,
    parallelism: Option<u64>,
    named: int,
)
    requires
        tokens.len() == helps + 2int + 2 * row.len() + 2 * more_row.len(),
        forall|i: int|
            0 <= i < helps ==> #[trigger] tokens[i] == Some("-h"@) || tokens[i] == Some("--help"@),
        tokens[helps as int] == Some("reverseproxy"@),
        row_stands(tokens, helps + 1int, row),
        reverse_proxy_row_reads(row, made, parallelism),
        tokens[helps + 1int + 2 * row.len()] == Some("-h"@) || tokens[helps + 1int + 2 * row.len()]
            == Some("--help"@),
        row_stands(tokens, helps + 2int + 2 * row.len(), more_row),
        reverse_proxy_row_reads(more_row, more_made, parallelism),
        (0 <= named < made.len() && made[named] is ForwardAddr) || (0 <= named < more_made.len()
            && more_made[named] is ForwardAddr),
    ensures
        command_line(tokens, files, parallelism).1 is Exit,
        command_line(tokens, files, parallelism).0.len() == helps + 1,
        command_line(tokens, files, parallelism).0[helps as int] == HelpPage::ReverseProxy,
{
    lemma_literals();
    assert(!is_help("reverseproxy"@));
    lemma_leading_help(tokens, 0, helps, false, files, Seq::empty(), parallelism);
    let pages = main_pages(helps);
    let start = reverse_proxy_defaults();
    let i = helps + 1int + 2 * row.len() as int;
    lemma_reverse_proxy_row(tokens, helps + 1int, row, made, start, pages, parallelism);
    lemma_reverse_proxy_plain(start, made);
    let shown = pages.push(HelpPage::ReverseProxy);
    let helped = reverse_proxy_with(reverse_proxy_after(start, made), Setting::Help);
    lemma_reverse_proxy_row(tokens, i + 1, more_row, more_made, helped, shown, parallelism);
    lemma_reverse_proxy_plain(helped, more_made);
    law_names_of_switches(tokens[i]->Some_0);
}

/// A command line of good switches for `reverseproxy` that names the server and asks for help in
/// front of the mode shows the main page as often and runs nothing.
pub proof fn law_help_in_front_ends_reverse_proxy(
    tokens: Seq<Option<Seq<char>>>,
    helps: nat,
    row: Seq<(Seq<char>, Seq<char>)>,
    made: Seq<Setting<Seq<IpCidr>>>,
    files: Seq<Result<Seq<char>, Seq<char>>>,
    parallelism: Option<u64>,
    named: int,
)
    requires
        helps > 0,
        tokens.len() == helps + 1int + 2 * row.len(),
        forall|i: int|
            0 <= i < helps ==> #[trigger] tokens[i] == Some("-h"@) || tokens[i] == Some("--help"@),
        tokens[helps as int] == Some("reverseproxy"@),
        row_stands(tokens, helps + 1int, row),
        reverse_proxy_row_reads(row, made, parallelism),
        0 <= named < made.len() && made[named] is ForwardAddr,
    ensures
        command_line(tokens, files, parallelism).1 is Exit,
        command_line(tokens, files, parallelism).0.len() == helps,
{
    lemma_literals();
    assert(!is_help("reverseproxy"@));
    lemma_leading_help(tokens, 0, helps, false, files, Seq::empty(), parallelism);
    let pages = main_pages(helps);
    let start = reverse_proxy_defaults();
    lemma_reverse_proxy_row(tokens, helps + 1int, row, made, start, pages, parallelism);
    lemma_reverse_proxy_plain(start, made);
}

} // verus!
