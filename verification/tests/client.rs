use rs_chat::client::primary::{message_line, route_from_server, FromSecondary, FromServer, PrimaryState};
use rs_chat::client::secondary::{
    add_names, channel_entries, channel_name, closest, expect_ack, expect_info, features_line,
    help_text, is_white, join_request, listing, offenses_line, parse_cmd, parse_input, pick_best,
    server_line, settle_name, who_line, Happenings, SecondaryState, UserCmd, HELP, HELP_BLOCK,
    HELP_CHANNEL, HELP_HELP, START_MESSAGE,
};
use rs_chat::client::{
    check_listen, check_login, conn_str, expect_blocked, expect_channels, expect_name,
    listen_line, login_accepted, login_package, ClientErr, InterClientComm,
};
use rs_chat::package::Package;
use rs_chat::requests::Request;
use rs_chat::response::PackageParseError;

fn pkg(cmd: &str, args: &[&str]) -> Package {
    Package { cmd: cmd.to_string(), args: args.iter().map(|a| a.to_string()).collect() }
}

fn strings(items: &[&str]) -> Vec<String> {
    items.iter().map(|a| a.to_string()).collect()
}

fn state() -> SecondaryState {
    SecondaryState {
        name: "alice".to_string(),
        channels: strings(&["", "den"]),
        blocked: strings(&["mallory"]),
    }
}

#[test]
fn metadata_packages_round_trip() {
    for (comm, p) in [
        (InterClientComm::Name("alice".to_string()), pkg(":name", &["alice"])),
        (InterClientComm::Channels(strings(&["", "den"])), pkg(":channels", &["", "den"])),
        (InterClientComm::Blocked(Vec::new()), pkg(":blocked", &[])),
        (InterClientComm::Quit, pkg(":quit", &[])),
    ] {
        assert_eq!(InterClientComm::try_from(p.clone()).as_ref(), Ok(&comm));
        assert_eq!(comm.into_package(), p);
    }
    assert_eq!(InterClientComm::try_from(pkg(":name", &[])), Err(()));
    assert_eq!(InterClientComm::try_from(pkg("name", &["alice"])), Err(()));
    assert_eq!(
        InterClientComm::try_from(pkg(":name", &["alice", "x"])),
        Ok(InterClientComm::Name("alice".to_string()))
    );
}

#[test]
fn login_is_accepted_by_an_acknowledgement_only() {
    assert_eq!(login_package("alice"), pkg("login", &["alice"]));
    assert!(login_accepted(&Some(pkg("ack", &[]))));
    assert!(!login_accepted(&Some(pkg("err", &["name already used"]))));
    assert!(!login_accepted(&None));
    assert!(check_login(&Some(pkg("ack", &[]))).is_ok());
    assert!(matches!(check_login(&None), Err(ClientErr::LoginFailed)));
    assert!(check_listen(Some(pkg("ack", &[])), true).is_ok());
    assert!(matches!(check_listen(Some(pkg("ack", &[])), false), Err(ClientErr::StartupFailed)));
    assert!(matches!(check_listen(Some(pkg("err", &["x"])), true), Err(ClientErr::StartupFailed)));
    assert!(matches!(check_listen(None, true), Err(ClientErr::StartupFailed)));
    let io = std::io::Error::new(std::io::ErrorKind::Other, "boom");
    assert!(matches!(ClientErr::from(io), ClientErr::IoError(e) if e.to_string() == "boom"));
}

#[test]
fn a_secondary_client_reads_its_metadata() {
    assert_eq!(expect_name(Some(pkg(":name", &["alice"]))).unwrap(), "alice");
    assert!(matches!(expect_name(Some(pkg(":channels", &[]))), Err(ClientErr::StartupFailed)));
    assert!(matches!(expect_name(None), Err(ClientErr::StartupFailed)));
    assert_eq!(expect_channels(Some(pkg(":channels", &["", "den"]))).unwrap(), strings(&["", "den"]));
    assert!(matches!(expect_channels(Some(pkg(":blocked", &[]))), Err(ClientErr::StartupFailed)));
    assert_eq!(expect_blocked(Some(pkg(":blocked", &["bob"]))).unwrap(), strings(&["bob"]));
    assert!(matches!(expect_blocked(Some(pkg(":quit", &[]))), Err(ClientErr::StartupFailed)));
}

#[test]
fn connection_strings_split_at_the_first_at() {
    assert_eq!(conn_str("me@localhost"), Some(("me".to_string(), "localhost".to_string())));
    assert_eq!(conn_str("me@a@b"), Some(("me".to_string(), "a@b".to_string())));
    assert_eq!(conn_str("@"), Some((String::new(), String::new())));
    assert_eq!(conn_str("localhost"), None);
}

#[test]
fn messages_are_shown_with_their_origin() {
    assert_eq!(message_line(pkg("msg", &["", "alice", "hi"])), Some("[alice] hi".to_string()));
    assert_eq!(
        message_line(pkg("msg", &["__direct", "alice", "hi"])),
        Some("[alice -> you] hi".to_string())
    );
    assert_eq!(message_line(pkg("msg", &["den", "alice", "hi"])), Some("[alice@den] hi".to_string()));
    assert_eq!(message_line(pkg("msg", &["den", "alice"])), None);
    assert_eq!(message_line(pkg("ack", &[])), None);
    assert_eq!(listen_line(pkg("msg", &["den", "alice", "hi"])), Some("[alice] hi".to_string()));
    assert_eq!(listen_line(pkg("info", &["den", "alice", "hi"])), None);
}

#[test]
fn the_primary_client_routes_packages() {
    assert_eq!(
        route_from_server(pkg("msg", &["", "alice", "hi"])),
        FromServer::Show("[alice] hi".to_string())
    );
    assert_eq!(route_from_server(pkg("msg", &[])), FromServer::Invalid);
    assert_eq!(route_from_server(pkg("ack", &[])), FromServer::Forward(pkg("ack", &[])));

    let mut state = PrimaryState::new("alice");
    assert_eq!(state.channels, vec![String::new()]);
    assert!(state.blocked.is_empty());
    assert_eq!(
        state.greeting(),
        vec![pkg(":name", &["alice"]), pkg(":channels", &[""]), pkg(":blocked", &[])]
    );
    assert_eq!(state.on_secondary(pkg("ping", &[])), FromSecondary::Forward(pkg("ping", &[])));
    assert_eq!(state.on_secondary(pkg(":channels", &["", "den"])), FromSecondary::Handled);
    assert_eq!(state.channels, strings(&["", "den"]));
    assert_eq!(state.on_secondary(pkg(":blocked", &["bob"])), FromSecondary::Handled);
    assert_eq!(state.blocked, strings(&["bob"]));
    assert_eq!(state.on_secondary(pkg(":name", &["eve"])), FromSecondary::Handled);
    assert_eq!(state.name, "alice");
    assert_eq!(state.on_secondary(pkg(":unknown", &[])), FromSecondary::Handled);
    assert_eq!(state.on_secondary(pkg(":quit", &[])), FromSecondary::Quit);
}

#[test]
fn input_lines_are_understood() {
    let ok = |cmd: UserCmd| Ok::<UserCmd, Option<String>>(cmd);
    assert_eq!(parse_input("hello there"), ok(UserCmd::ChannelMsg(String::new(), "hello there".to_string())));
    assert_eq!(parse_input("\\:not a command"), ok(UserCmd::ChannelMsg(String::new(), ":not a command".to_string())));
    assert_eq!(parse_input("\\  padded"), ok(UserCmd::ChannelMsg(String::new(), "padded".to_string())));
    assert_eq!(parse_input("@bob hi  there"), ok(UserCmd::DirectMsg("bob".to_string(), "hi  there".to_string())));
    assert_eq!(parse_input("@ bob\thi"), ok(UserCmd::DirectMsg("bob".to_string(), "hi".to_string())));
    assert_eq!(parse_input("@bob  hi"), ok(UserCmd::DirectMsg("bob".to_string(), " hi".to_string())));
    assert_eq!(parse_input("/den hi"), ok(UserCmd::ChannelMsg("den".to_string(), "hi".to_string())));
    assert_eq!(parse_input("?"), ok(UserCmd::Help(None)));
    assert_eq!(parse_input("? c"), ok(UserCmd::Help(Some('c'))));
    assert_eq!(parse_input("?@"), ok(UserCmd::Help(Some('@'))));
    assert_eq!(parse_input(":s"), ok(UserCmd::ServerInfo));
    assert_eq!(parse_input(": q!"), ok(UserCmd::Quit(true)));
    assert_eq!(parse_input("@bob"), Err(Some("please provide name and message".to_string())));
    assert_eq!(parse_input("/den"), Err(Some("please provide channel and message".to_string())));
    assert_eq!(parse_input(":x y"), Err(Some("unknown command x".to_string())));
    assert_eq!(parse_input(""), Err(None));
    assert_eq!(parse_input("\u{e9}t\u{e9}"), Err(None));
    assert_eq!(parse_input("a\u{e9}"), ok(UserCmd::ChannelMsg(String::new(), "a\u{e9}".to_string())));
}

#[test]
fn commands_are_understood() {
    let ok = |cmd: UserCmd| Ok::<UserCmd, Option<String>>(cmd);
    assert_eq!(parse_cmd("s"), ok(UserCmd::ServerInfo));
    assert_eq!(parse_cmd("q"), ok(UserCmd::Quit(false)));
    assert_eq!(parse_cmd("q!"), ok(UserCmd::Quit(true)));
    assert_eq!(parse_cmd("w"), ok(UserCmd::Who(String::new())));
    assert_eq!(parse_cmd("w  den  more"), ok(UserCmd::Who("den".to_string())));
    assert_eq!(parse_cmd("c"), ok(UserCmd::ChannelList));
    assert_eq!(parse_cmd("c "), ok(UserCmd::ChannelList));
    assert_eq!(parse_cmd("c den"), ok(UserCmd::ChannelJoinNew("den".to_string(), String::new())));
    assert_eq!(parse_cmd("c +den\u{a0}pw x"), ok(UserCmd::ChannelJoinNew("den".to_string(), "pw".to_string())));
    assert_eq!(parse_cmd("c -den"), ok(UserCmd::ChannelLeave("den".to_string())));
    assert_eq!(parse_cmd("c -"), ok(UserCmd::ChannelLeave(String::new())));
    assert_eq!(parse_cmd("c +"), ok(UserCmd::ChannelJoinNew(String::new(), String::new())));
    assert_eq!(parse_cmd("b"), ok(UserCmd::BlockList));
    assert_eq!(parse_cmd("b bob"), ok(UserCmd::Block("bob".to_string())));
    assert_eq!(parse_cmd("o"), ok(UserCmd::Offenses));
    assert_eq!(parse_cmd("p bob"), ok(UserCmd::Pardon("bob".to_string())));
    assert_eq!(parse_cmd("?!"), ok(UserCmd::SecretHelp));
    assert_eq!(parse_cmd("p"), Err(Some("please provide a name".to_string())));
    assert_eq!(parse_cmd(""), Err(Some("unknown command ".to_string())));
    assert_eq!(parse_cmd("S"), Err(Some("unknown command S".to_string())));
}

#[test]
fn white_space_is_what_the_standard_library_calls_so() {
    for code in 0..0x3100u32 {
        if let Some(c) = char::from_u32(code) {
            assert_eq!(is_white(c), c.is_whitespace(), "U+{code:04X}");
        }
    }
    assert!(!is_white('\u{feff}'));
    assert!(!is_white('\u{10ffff}'));
}

#[test]
fn lists_are_shown_with_commas() {
    assert_eq!(listing(&Vec::new()), "");
    assert_eq!(listing(&strings(&["a"])), "a");
    assert_eq!(listing(&strings(&["a", "", "c"])), "a, , c");
    assert_eq!(channel_name(""), "<GLOBAL>");
    assert_eq!(channel_name("den"), "den");
    assert_eq!(
        channel_entries(&strings(&["", "den", "pit"]), &strings(&["pit", ""])),
        strings(&["(*) <GLOBAL>", "den", "(*) pit"])
    );
    assert_eq!(who_line("", &strings(&["alice", "bob"])), "members of channel <GLOBAL>: alice, bob");
    assert_eq!(features_line(&strings(&["basic", "direct"])), "available features: basic, direct");
    assert_eq!(server_line(&strings(&["rs_chat", "x"])), Ok("server: rs_chat".to_string()));
    assert_eq!(server_line(&Vec::new()), Err(Happenings::ProtocolViolation));
    assert_eq!(offenses_line(strings(&["2", "5", "x"])), Ok("your offenses: 2 / 5".to_string()));
    assert_eq!(offenses_line(strings(&["2"])), Err(Happenings::ProtocolViolation));
}

#[test]
fn replies_are_told_apart() {
    assert_eq!(expect_info(Some(pkg("info", &["a", "b"]))), Ok(strings(&["a", "b"])));
    assert_eq!(expect_info(Some(pkg("err", &["no"]))), Err(Happenings::OwnMistake("no".to_string())));
    assert_eq!(expect_info(Some(pkg("ack", &[]))), Err(Happenings::ProtocolViolation));
    assert_eq!(expect_info(Some(pkg("msg", &["", "a", "b"]))), Err(Happenings::ProtocolViolation));
    assert_eq!(expect_info(None), Err(Happenings::ServerDied));
    assert_eq!(
        expect_info(Some(pkg("what", &[]))),
        Err(Happenings::ResponseErr(PackageParseError::UnknownCmd("what".to_string())))
    );
    assert_eq!(expect_ack(Some(pkg("ack", &[]))), Ok(()));
    assert_eq!(expect_ack(Some(pkg("err", &["no"]))), Err(Happenings::OwnMistake("no".to_string())));
    assert_eq!(expect_ack(Some(pkg("info", &[]))), Err(Happenings::ProtocolViolation));
    assert_eq!(expect_ack(None), Err(Happenings::ServerDied));
    assert_eq!(
        expect_ack(Some(pkg("err", &[]))),
        Err(Happenings::ResponseErr(PackageParseError::MissingArgs("why")))
    );
}

#[test]
fn happenings_are_reported() {
    assert_eq!(
        Happenings::ResponseErr(PackageParseError::UnknownCmd("what".to_string())).report(),
        Some("server sent invalid response: unknown command what".to_string())
    );
    assert_eq!(
        Happenings::OwnMistake("no".to_string()).report(),
        Some("you made a mistake (or me?): no".to_string())
    );
    assert_eq!(Happenings::ProtocolViolation.report(), Some("server violated the protocol".to_string()));
    assert_eq!(Happenings::ServerDied.report(), Some("server died. oh no.".to_string()));
    assert_eq!(Happenings::QuitCmd.report(), None);
    assert!(!Happenings::OwnMistake("no".to_string()).ends_session());
    assert!(Happenings::QuitCmd.ends_session());
    assert!(Happenings::ServerDied.ends_session());
}

#[test]
fn the_most_similar_name_is_offered() {
    let names = strings(&["robert", "alice", "bobby", "carol"]);
    assert_eq!(closest("bob", &names), Some("bobby".to_string()));
    assert_eq!(closest("alcie", &names), Some("alice".to_string()));
    assert_eq!(closest("carol", &names), Some("carol".to_string()));
    assert_eq!(closest("bob", &Vec::new()), None);
    assert_eq!(closest("zzz", &strings(&["aaa", "bbb"])), Some("bbb".to_string()));
}

#[test]
fn the_best_score_wins_and_the_last_among_equals() {
    let scored = |scores: &[u64]| -> Vec<(String, u64)> {
        ["a", "b", "c", "d"].iter().zip(scores).map(|(n, s)| (n.to_string(), *s)).collect()
    };
    assert_eq!(pick_best(&scored(&[1, 7, 3, 2])), Some("b".to_string()));
    assert_eq!(pick_best(&scored(&[7, 7, 3, 7])), Some("d".to_string()));
    assert_eq!(pick_best(&scored(&[0, 0, 0, 0])), Some("d".to_string()));
    assert_eq!(pick_best(&scored(&[9])), Some("a".to_string()));
    assert_eq!(pick_best(&Vec::new()), None);
}

#[test]
fn answers_settle_the_name() {
    let settle = |answer: &str| settle_name(answer, "bob".to_string(), "bobby".to_string());
    assert_eq!(settle("y\n"), Some("bobby".to_string()));
    assert_eq!(settle("  yes"), Some("bobby".to_string()));
    assert_eq!(settle("n"), Some("bob".to_string()));
    assert_eq!(settle("a"), None);
    assert_eq!(settle("Y"), None);
    assert_eq!(settle(""), None);
    assert_eq!(settle("  \n"), None);
}

#[test]
fn names_are_collected_once() {
    let mut all = strings(&["alice", "bob"]);
    add_names(&mut all, &strings(&["bob", "carol", "alice", "carol", "dave"]));
    assert_eq!(all, strings(&["alice", "bob", "carol", "dave"]));
    add_names(&mut all, &Vec::new());
    assert_eq!(all, strings(&["alice", "bob", "carol", "dave"]));
}

#[test]
fn help_is_given_by_topic() {
    assert_eq!(help_text(None), Ok(HELP));
    assert_eq!(help_text(Some('?')), Ok(HELP_HELP));
    assert_eq!(help_text(Some('c')), Ok(HELP_CHANNEL));
    assert_eq!(help_text(Some('b')), Ok(HELP_BLOCK));
    assert_eq!(help_text(Some('x')), Err("unknown command x".to_string()));
    assert!(HELP.starts_with("Sending messages:\n <msg>"));
    assert!(HELP.ends_with(" :p <name>        pardon player"));
    assert!(HELP_CHANNEL.contains("create or join channel.If a channel named"));
    assert!(START_MESSAGE.starts_with("rs_chat secondary client v"));
}

#[test]
fn guarded_requests() {
    let s = state();
    assert_eq!(s.post_request("den".to_string(), "hi".to_string()), Ok(Request::post("den", "hi")));
    assert_eq!(
        s.post_request("pit".to_string(), "hi".to_string()),
        Err("join channel pit to post messages".to_string())
    );
    assert_eq!(s.who_request(String::new()), Ok(Request::names("")));
    assert_eq!(
        s.who_request("pit".to_string()),
        Err("join channel pit to list its members".to_string())
    );
    assert_eq!(s.send_request("bob".to_string(), "hi".to_string()), Ok(Request::send("bob", "hi")));
    assert_eq!(
        s.send_request("mallory".to_string(), "hi".to_string()),
        Err("you blocked mallory".to_string())
    );
    assert_eq!(s.block_request("bob".to_string()), Ok(Request::block("bob")));
    assert_eq!(s.block_request("mallory".to_string()), Ok(Request::unblock("mallory")));
    assert_eq!(s.block_request("alice".to_string()), Err("don't block yourself :(".to_string()));
    assert_eq!(s.pardon_allowed("bob"), Ok(()));
    assert_eq!(s.pardon_allowed("alice"), Err("can't pardon yourself".to_string()));
    assert_eq!(s.leave_request("den".to_string()), Ok(Request::unsubscribe("den")));
    assert_eq!(s.leave_request("pit".to_string()), Err("you didn't join pit".to_string()));
    assert_eq!(s.leave_request(String::new()), Ok(Request::unsubscribe("")));
    assert_eq!(s.join_notice("den"), Some("you are already in den".to_string()));
    assert_eq!(s.join_notice("pit"), None);
    assert_eq!(
        join_request(&strings(&["", "den"]), "den".to_string(), "pw".to_string()),
        Request::subscribe("den", "pw")
    );
    assert_eq!(
        join_request(&strings(&["", "den"]), "pit".to_string(), String::new()),
        Request::new_channel("pit", "")
    );
}

#[test]
fn acknowledged_changes_are_recorded() {
    let mut s = state();
    assert_eq!(s.block_done("bob".to_string()), "blocked bob");
    assert_eq!(s.blocked, strings(&["mallory", "bob"]));
    assert_eq!(s.blocked_update(), pkg(":blocked", &["mallory", "bob"]));
    assert_eq!(s.blocked_line(), "you have currently blocked: mallory, bob");
    assert_eq!(s.block_done("mallory".to_string()), "unblocked mallory");
    assert_eq!(s.blocked, strings(&["bob"]));
    assert_eq!(s.left(""), "left <GLOBAL>");
    assert_eq!(s.channels, strings(&["den"]));
    assert_eq!(s.joined("pit".to_string(), true), "created pit");
    assert_eq!(s.joined(String::new(), false), "joined <GLOBAL>");
    assert_eq!(s.channels, strings(&["den", "pit", ""]));
    assert_eq!(s.channels_update(), pkg(":channels", &["den", "pit", ""]));
    assert_eq!(
        s.channels_line(&strings(&["", "den", "cave"])),
        "channels: (*) <GLOBAL>, (*) den, cave"
    );
}
