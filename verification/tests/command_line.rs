use mmproxy::addr::{SocketAddr, SocketAddrV4, SocketAddrV6};
use mmproxy::args::{
    count_listeners, parse_args, parse_protocol, ArgsError, ArgsMmproxy, ArgsReverseProxy, Command,
    HelpPage, Operand, Outcome, ParsedArgs, Protocol, Required, ReverseProxyDraft, Setting,
    SwitchError,
};
use mmproxy::subnet::IpCidr;

fn v4(ip: u32, port: u16) -> SocketAddr {
    SocketAddr::V4(SocketAddrV4 { ip, port })
}

fn v6(ip: u128, port: u16) -> SocketAddr {
    SocketAddr::V6(SocketAddrV6 { ip, port, flowinfo: 0, scope_id: 0 })
}

fn tokens(words: &[&str]) -> Vec<Option<String>> {
    words.iter().map(|word| Some(word.to_string())).collect()
}

fn parse(words: &[&str]) -> ParsedArgs {
    parse_args(&tokens(words), &vec![], Some(4))
}

fn mmproxy_args(words: &[&str]) -> ArgsMmproxy {
    match parse(words).outcome {
        Outcome::Run(args) => match args.command {
            Command::mmproxy(args) => args,
            _ => panic!("wrong mode"),
        },
        outcome => panic!("{outcome:?}"),
    }
}

fn reverse_args(words: &[&str]) -> ArgsReverseProxy {
    match parse(words).outcome {
        Outcome::Run(args) => match args.command {
            Command::reverseproxy(args) => args,
            _ => panic!("wrong mode"),
        },
        outcome => panic!("{outcome:?}"),
    }
}

fn refusal(words: &[&str]) -> ArgsError<String> {
    match parse(words).outcome {
        Outcome::Fail(error) => error,
        outcome => panic!("{outcome:?}"),
    }
}

fn in_command(name: &str, error: SwitchError<String>) -> ArgsError<String> {
    ArgsError::InCommand { name: name.to_string(), error }
}

#[test]
fn default_protocol_is_tcp() {
    assert_eq!(Protocol::default(), Protocol::Tcp);
}

#[test]
fn mmproxy_has_defaults() {
    let args = mmproxy_args(&["mmproxy"]);
    assert!(!args.help);
    assert_eq!(args.ipv4_fwd, v4(0x7f00_0001, 443));
    assert_eq!(args.ipv6_fwd, v6(1, 443));
    assert_eq!(args.allowed_subnets, None);
    assert_eq!(args.close_after, 60);
    assert_eq!(args.mark, 0);
    assert_eq!(args.listen_addr, v6(0, 8443));
    assert_eq!(args.listeners, 0);
    assert_eq!(args.protocol, Protocol::Tcp);
}

#[test]
fn defaults_are_what_their_texts_say() {
    let written = mmproxy_args(&[
        "mmproxy", "-4", "127.0.0.1:443", "-6", "[::1]:443", "-l", "[::]:8443",
    ]);
    let plain = ArgsMmproxy::defaults();
    assert_eq!(written.ipv4_fwd, plain.ipv4_fwd);
    assert_eq!(written.ipv6_fwd, plain.ipv6_fwd);
    assert_eq!(written.listen_addr, plain.listen_addr);
    let written = reverse_args(&["reverseproxy", "-f", "10.0.0.2:444", "-l", "[::]:443"]);
    assert_eq!(written.listen_addr, ReverseProxyDraft::defaults().listen_addr);
}

#[test]
fn mmproxy_takes_short_switches() {
    let args = mmproxy_args(&[
        "mmproxy", "-4", "10.0.0.1:80", "-6", "[2001:db8::1]:81", "-c", "5", "-l", "0.0.0.0:82",
        "--listeners", "3", "-p", "UDP", "-m", "+7",
    ]);
    assert_eq!(args.ipv4_fwd, v4(0x0a00_0001, 80));
    assert_eq!(args.ipv6_fwd, v6(0x2001_0db8_0000_0000_0000_0000_0000_0001, 81));
    assert_eq!(args.close_after, 5);
    assert_eq!(args.listen_addr, v4(0, 82));
    assert_eq!(args.listeners, 3);
    assert_eq!(args.protocol, Protocol::Udp);
    assert_eq!(args.mark, 7);
}

#[test]
fn mmproxy_takes_long_switches() {
    let args = mmproxy_args(&[
        "mmproxy", "--ipv4", "10.0.0.1:80", "--ipv6", "[::2]:81", "--close-after",
        "18446744073709551615", "--listen-addr", "0.0.0.0:82", "--protocol", "tcp", "--mark",
        "4294967295",
    ]);
    assert_eq!(args.ipv4_fwd, v4(0x0a00_0001, 80));
    assert_eq!(args.ipv6_fwd, v6(2, 81));
    assert_eq!(args.close_after, u64::MAX);
    assert_eq!(args.listen_addr, v4(0, 82));
    assert_eq!(args.protocol, Protocol::Tcp);
    assert_eq!(args.mark, u32::MAX);
}

#[test]
fn scoped_address_keeps_its_scope() {
    let args = mmproxy_args(&["mmproxy", "-l", "[fe80::1%3]:82"]);
    let expected = SocketAddrV6 {
        ip: 0xfe80_0000_0000_0000_0000_0000_0000_0001,
        port: 82,
        flowinfo: 0,
        scope_id: 3,
    };
    assert_eq!(args.listen_addr, SocketAddr::V6(expected));
}

#[test]
fn reverse_proxy_takes_switches() {
    let args = reverse_args(&["reverseproxy", "-f", "10.0.0.2:444"]);
    assert!(!args.help);
    assert_eq!(args.listen_addr, v6(0, 443));
    assert_eq!(args.forward_addr, v4(0x0a00_0002, 444));
    assert_eq!(args.listeners, 0);
    assert_eq!(args.close_after, 60);
    assert_eq!(args.protocol, Protocol::Tcp);
    let args = reverse_args(&[
        "reverseproxy", "--listen-addr", "1.2.3.4:5", "--forward-addr", "[::3]:6", "--listeners",
        "2", "--close-after", "9", "--protocol", "Udp",
    ]);
    assert_eq!(args.listen_addr, v4(0x0102_0304, 5));
    assert_eq!(args.forward_addr, v6(3, 6));
    assert_eq!(args.listeners, 2);
    assert_eq!(args.close_after, 9);
    assert_eq!(args.protocol, Protocol::Udp);
}

#[test]
fn zero_listeners_stand_for_the_parallelism() {
    assert_eq!(mmproxy_args(&["mmproxy", "--listeners", "0"]).listeners, 4);
    assert_eq!(count_listeners(0, None), 1);
    assert_eq!(count_listeners(0, Some(16)), 16);
    assert_eq!(count_listeners(5, Some(16)), 5);
    assert_eq!(count_listeners(0, Some(0x1_0000_0002)), 2);
}

#[test]
fn protocol_names_are_read_in_any_case() {
    assert_eq!(parse_protocol(&"tcp".to_string()), Ok(Protocol::Tcp));
    assert_eq!(parse_protocol(&"uDp".to_string()), Ok(Protocol::Udp));
    assert_eq!(
        parse_protocol(&"SCTP".to_string()),
        Err("invalid protocol value: SCTP".to_string())
    );
    assert_eq!(
        parse_protocol(&"".to_string()),
        Err("invalid protocol value: ".to_string())
    );
}

#[test]
fn last_setting_wins() {
    let args = mmproxy_args(&["mmproxy", "-m", "1", "-m", "2"]);
    assert_eq!(args.mark, 2);
}

#[test]
fn order_of_different_switches_does_not_matter() {
    let one = mmproxy_args(&["mmproxy", "-m", "1", "-c", "2"]);
    let two = mmproxy_args(&["mmproxy", "-c", "2", "-m", "1"]);
    assert_eq!((one.mark, one.close_after), (two.mark, two.close_after));
}

#[test]
fn settings_are_applied() {
    let mut args = ArgsMmproxy::defaults();
    let nets = vec![IpCidr::V4 { first: 0, prefix: 0 }];
    args.apply(Setting::AllowedSubnets(Some(nets.clone())));
    args.apply(Setting::Ipv4(v4(1, 2)));
    args.apply(Setting::ForwardAddr(v4(3, 4)));
    assert_eq!(args.allowed_subnets, Some(nets));
    assert_eq!(args.ipv4_fwd, v4(1, 2));
    assert_eq!(args.ipv6_fwd, v6(1, 443));
    let mut draft = ReverseProxyDraft::defaults();
    draft.apply(Setting::ForwardAddr(v4(3, 4)));
    draft.apply(Setting::Mark(7));
    assert_eq!(draft.forward_addr, Some(v4(3, 4)));
}

#[test]
fn mode_is_required() {
    let expected = ArgsError::Own(SwitchError::MissingRequired { required: Required::Command });
    assert_eq!(refusal(&[]), expected);
    assert_eq!(Required::Command.name(), "command");
    assert_eq!(
        Required::Command.reason(),
        "must specify either \"mmproxy\" or \"reverseproxy\""
    );
}

#[test]
fn server_of_the_reverse_proxy_is_required() {
    let error = SwitchError::MissingRequired { required: Required::ForwardAddr };
    assert_eq!(refusal(&["reverseproxy"]), in_command("reverseproxy", error));
    assert_eq!(Required::ForwardAddr.name(), "forward_addr");
    assert_eq!(Required::ForwardAddr.reason(), "must specify an address to reverse proxy to");
}

#[test]
fn unknown_arguments_are_refused() {
    assert_eq!(
        refusal(&["--nope"]),
        ArgsError::Own(SwitchError::UnsupportedSwitch { switch: "--nope".to_string() })
    );
    assert_eq!(
        refusal(&["nope"]),
        ArgsError::Own(SwitchError::UnsupportedArgument { argument: "nope".to_string() })
    );
    assert_eq!(
        refusal(&[""]),
        ArgsError::Own(SwitchError::UnsupportedArgument { argument: "".to_string() })
    );
    let error = SwitchError::UnsupportedSwitch { switch: "-f".to_string() };
    assert_eq!(refusal(&["mmproxy", "-f", "1.2.3.4:5"]), in_command("mmproxy", error));
    let error = SwitchError::UnsupportedSwitch { switch: "-m".to_string() };
    assert_eq!(refusal(&["reverseproxy", "-m", "1"]), in_command("reverseproxy", error));
    let error = SwitchError::UnsupportedArgument { argument: "mmproxy".to_string() };
    assert_eq!(refusal(&["mmproxy", "mmproxy"]), in_command("mmproxy", error));
}

#[test]
fn missing_values_are_refused() {
    for (switch, argument, name) in [
        ("-4", Operand::Addr, "addr"),
        ("--ipv6", Operand::Addr, "addr"),
        ("-a", Operand::Path, "path"),
        ("-c", Operand::Number, "n"),
        ("-l", Operand::Text, "string"),
        ("--listeners", Operand::Number, "n"),
        ("-p", Operand::Name, "p"),
        ("--mark", Operand::Number, "n"),
    ] {
        let switch_name = switch.to_string();
        let error = SwitchError::MissingSwitchArgument { switch: switch_name, argument };
        assert_eq!(refusal(&["mmproxy", switch]), in_command("mmproxy", error));
        assert_eq!(argument.name(), name);
    }
    let error = SwitchError::MissingSwitchArgument {
        switch: "-f".to_string(),
        argument: Operand::Text,
    };
    assert_eq!(refusal(&["reverseproxy", "-f"]), in_command("reverseproxy", error));
}

#[test]
fn bad_values_are_refused() {
    for (switch, value, reason) in [
        ("-m", "x", "invalid digit found in string"),
        ("-m", "", "cannot parse integer from empty string"),
        ("-m", "-1", "invalid digit found in string"),
        ("-m", "4294967296", "number too large to fit in target type"),
        ("-c", "18446744073709551616", "number too large to fit in target type"),
        ("-c", "1.5", "invalid digit found in string"),
        ("--listeners", "+", "invalid digit found in string"),
        ("-4", "127.0.0.1", "invalid socket address syntax"),
        ("-6", "::1:443", "invalid socket address syntax"),
        ("-l", "localhost:80", "invalid socket address syntax"),
        ("-p", "icmp", "invalid protocol value: icmp"),
    ] {
        let error = SwitchError::Failed { name: switch.to_string(), reason: reason.to_string() };
        assert_eq!(refusal(&["mmproxy", switch, value]), in_command("mmproxy", error));
    }
}

#[test]
fn arguments_must_be_unicode() {
    let parsed = parse_args(&vec![None], &vec![], None);
    assert!(matches!(
        parsed.outcome,
        Outcome::Fail(ArgsError::Own(SwitchError::NotUnicode))
    ));
    for front in [&["mmproxy"][..], &["mmproxy", "-m"][..], &["reverseproxy", "-f"][..]] {
        let mut words = tokens(front);
        words.push(None);
        let parsed = parse_args(&words, &vec![], None);
        match parsed.outcome {
            Outcome::Fail(ArgsError::InCommand { name, error }) => {
                assert_eq!(name, front[0]);
                assert_eq!(error, SwitchError::NotUnicode);
            }
            outcome => panic!("{outcome:?}"),
        }
    }
}

#[test]
fn help_is_shown_and_ends_the_program() {
    let parsed = parse(&["-h", "mmproxy", "--help"]);
    assert_eq!(parsed.pages, vec![HelpPage::Main, HelpPage::Mmproxy]);
    assert!(matches!(parsed.outcome, Outcome::Exit));
    let parsed = parse(&["reverseproxy", "-h", "-f", "1.2.3.4:5"]);
    assert_eq!(parsed.pages, vec![HelpPage::ReverseProxy]);
    assert!(matches!(parsed.outcome, Outcome::Exit));
    let parsed = parse(&["mmproxy"]);
    assert!(parsed.pages.is_empty());
    assert!(matches!(parsed.outcome, Outcome::Run(_)));
}

#[test]
fn help_does_not_make_up_for_what_is_missing() {
    let parsed = parse(&["-h"]);
    assert_eq!(parsed.pages, vec![HelpPage::Main]);
    assert!(matches!(
        parsed.outcome,
        Outcome::Fail(ArgsError::Own(SwitchError::MissingRequired { required: Required::Command }))
    ));
    let parsed = parse(&["reverseproxy", "-h"]);
    assert_eq!(parsed.pages, vec![HelpPage::ReverseProxy]);
    assert!(matches!(parsed.outcome, Outcome::Fail(ArgsError::InCommand { .. })));
}

#[test]
fn files_of_subnets_are_asked_for_in_order() {
    let words = tokens(&["mmproxy", "-h", "-a", "one", "--allowed-subnets", "two", "-m", "3"]);
    let mut files: Vec<Result<String, String>> = vec![];
    let parsed = parse_args(&words, &files, None);
    assert_eq!(parsed.pages, vec![HelpPage::Mmproxy]);
    match parsed.outcome {
        Outcome::ReadSubnets(path) => assert_eq!(path, "one"),
        outcome => panic!("{outcome:?}"),
    }
    files.push(Ok("10.0.0.0/8".to_string()));
    match parse_args(&words, &files, None).outcome {
        Outcome::ReadSubnets(path) => assert_eq!(path, "two"),
        outcome => panic!("{outcome:?}"),
    }
    files.push(Ok("".to_string()));
    assert!(matches!(parse_args(&words, &files, None).outcome, Outcome::Exit));
    files.push(Err("not needed".to_string()));
    assert!(matches!(parse_args(&words, &files, None).outcome, Outcome::Exit));
}

#[test]
fn files_run_out() {
    let words = tokens(&["mmproxy", "-a", "x", "-a", "y"]);
    let files: Vec<Result<String, String>> = (0..words.len()).map(|_| Ok(String::new())).collect();
    assert!(matches!(parse_args(&words, &files, None).outcome, Outcome::Run(_)));
}

fn subnets_after(contents: &str) -> Outcome<String, mmproxy::args::Args> {
    let words = tokens(&["mmproxy", "-a", "list"]);
    parse_args(&words, &vec![Ok(contents.to_string())], None).outcome
}

#[test]
fn file_of_subnets_puts_a_limit() {
    match subnets_after("10.0.0.0/8\n::1\n") {
        Outcome::Run(args) => match args.command {
            Command::mmproxy(args) => assert_eq!(
                args.allowed_subnets,
                Some(vec![
                    IpCidr::V4 { first: 0x0a00_0000, prefix: 8 },
                    IpCidr::V6 { first: 1, prefix: 128 },
                ])
            ),
            _ => panic!("wrong mode"),
        },
        outcome => panic!("{outcome:?}"),
    }
}

#[test]
fn empty_file_of_subnets_puts_no_limit() {
    match subnets_after("") {
        Outcome::Run(args) => match args.command {
            Command::mmproxy(args) => assert_eq!(args.allowed_subnets, None),
            _ => panic!("wrong mode"),
        },
        outcome => panic!("{outcome:?}"),
    }
}

#[test]
fn bad_file_of_subnets_is_refused() {
    match subnets_after("10.0.0.0/8\nnonsense") {
        Outcome::Fail(ArgsError::InCommand { name, error }) => {
            assert_eq!(name, "mmproxy");
            assert!(matches!(error, SwitchError::Failed { name, .. } if name == "-a"));
        }
        outcome => panic!("{outcome:?}"),
    }
    let words = tokens(&["mmproxy", "-a", "list"]);
    let files = vec![Err("no such file".to_string())];
    match parse_args(&words, &files, None).outcome {
        Outcome::Fail(error) => assert_eq!(
            error,
            in_command(
                "mmproxy",
                SwitchError::Failed {
                    name: "-a".to_string(),
                    reason: "no such file".to_string(),
                }
            )
        ),
        outcome => panic!("{outcome:?}"),
    }
}
