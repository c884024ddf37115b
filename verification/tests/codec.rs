use rs_chat::move_vec;
use rs_chat::package::Package;
use rs_chat::requests::{is_ident_ok, Request, RequestErr};
use rs_chat::response::{PackageParseError, Response};

fn pkg(cmd: &str, args: &[&str]) -> Package {
    Package { cmd: cmd.to_string(), args: args.iter().map(|a| a.to_string()).collect() }
}

fn strings(items: &[&str]) -> Vec<String> {
    items.iter().map(|a| a.to_string()).collect()
}

#[test]
fn malformed_frames_are_discarded() {
    assert_eq!(Package::parse(""), None);
    assert_eq!(Package::parse("\x02"), None);
    assert_eq!(Package::parse("\x02\x03"), None);
    assert_eq!(Package::parse("\x02ping\x03"), None);
    assert_eq!(Package::parse("ping\x16\x03"), None);
    assert_eq!(Package::parse("\x02ping\x16"), None);
    assert_eq!(Package::parse("\x03\x16\x02"), None);
}

#[test]
fn decoding_splits_at_the_first_syn_and_every_em() {
    assert_eq!(Package::parse("\x02\x16\x03"), Some(pkg("", &[])));
    assert_eq!(Package::parse("\x02a\x16b\x16c\x19\x03"), Some(pkg("a", &["b\x16c"])));
    assert_eq!(Package::parse("\x02a\x16\x19\x19\x03"), Some(pkg("a", &["", ""])));
    assert_eq!(Package::parse("\x02a\x16b\x19rest\x03"), Some(pkg("a", &["b"])));
    assert_eq!(Package::parse("\x02a\x16rest\x03"), Some(pkg("a", &[])));
    assert_eq!(Package::parse("\x02\x02a\x16\x03\x19\x03"), Some(pkg("\x02a", &["\x03"])));
    assert_eq!(Package::parse("\x02gr\u{fc}\u{df}e\x16\u{20ac}\x19\x03"), Some(pkg("gr\u{fc}\u{df}e", &["\u{20ac}"])));
}

#[test]
fn decode_of_encode_is_the_identity() {
    for p in [
        pkg("ping", &[]),
        pkg("", &[]),
        pkg("post", &["", "hello world"]),
        pkg("info", &["a", "", "c", ""]),
        pkg("msg", &["den", "alice", "line\none \u{1f600}"]),
    ] {
        assert_eq!(Package::parse(&p.encode()), Some(p));
    }
}

#[test]
fn encode_of_decode_is_the_identity_on_well_formed_frames() {
    for f in ["\x02ping\x16\x03", "\x02post\x16\x19hi\x19\x03", "\x02\x16\x19\x03", "\x02a\x16b\x19c\x19d\x19\x03"] {
        assert_eq!(Package::parse(f).unwrap().encode(), f);
    }
}

#[test]
fn parts_are_the_pieces_of_the_wire_form() {
    let p = pkg("post", &["den", "hi"]);
    assert_eq!(p.parts(), vec!["\x02", "post", "\x16", "den", "\x19", "hi", "\x19", "\x03"]);
    assert_eq!(p.parts().concat(), p.encode());
    assert_eq!(pkg("ping", &[]).parts(), vec!["\x02", "ping", "\x16", "\x03"]);
    assert_eq!(Package::PKG_START, "\x02");
    assert_eq!(Package::CMD_END, "\x16");
    assert_eq!(Package::ARG_END, "\x19");
    assert_eq!(Package::PKG_END, "\x03");
}

#[test]
fn clone_copies_command_and_arguments() {
    let p = pkg("post", &["den", "hi"]);
    assert_eq!(p.clone(), p);
}

#[test]
fn move_vec_takes_the_first_strings() {
    assert_eq!(move_vec::<2>(strings(&["a", "b", "c"])), Some(["a".to_string(), "b".to_string()]));
    assert_eq!(move_vec::<2>(strings(&["a", "b"])), Some(["a".to_string(), "b".to_string()]));
    assert_eq!(move_vec::<2>(strings(&["a"])), None);
    assert_eq!(move_vec::<0>(strings(&["a"])), Some([]));
    assert_eq!(move_vec::<1>(Vec::new()), None);
}

#[test]
fn requests_are_read_from_packages() {
    assert_eq!(Request::try_from(pkg("login", &["alice"])), Ok(Request::Login("alice".to_string())));
    assert_eq!(Request::try_from(pkg("listen", &["ignored"])), Ok(Request::Listen));
    assert_eq!(Request::try_from(pkg("ping", &[])), Ok(Request::Ping));
    assert_eq!(
        Request::try_from(pkg("post", &["", "hi", "more"])),
        Ok(Request::Post(String::new(), "hi".to_string()))
    );
    assert_eq!(
        Request::try_from(pkg("send", &["bob", "hi"])),
        Ok(Request::Send("bob".to_string(), "hi".to_string()))
    );
    assert_eq!(Request::try_from(pkg("names", &["den"])), Ok(Request::Names("den".to_string())));
    assert_eq!(Request::try_from(pkg("about", &[])), Ok(Request::About));
    assert_eq!(Request::try_from(pkg("features", &[])), Ok(Request::Features));
    assert_eq!(
        Request::try_from(pkg("new_channel", &["den", "pw"])),
        Ok(Request::NewChannel("den".to_string(), "pw".to_string()))
    );
    assert_eq!(Request::try_from(pkg("list_channels", &[])), Ok(Request::ListChannels));
    assert_eq!(
        Request::try_from(pkg("subscribe", &["den", ""])),
        Ok(Request::Subscribe("den".to_string(), String::new()))
    );
    assert_eq!(Request::try_from(pkg("unsubscribe", &["den"])), Ok(Request::Unsubscribe("den".to_string())));
    assert_eq!(Request::try_from(pkg("block", &["bob"])), Ok(Request::Block("bob".to_string())));
    assert_eq!(Request::try_from(pkg("unblock", &["bob"])), Ok(Request::Unblock("bob".to_string())));
    assert_eq!(Request::try_from(pkg("offenses", &[])), Ok(Request::Offenses));
    assert_eq!(Request::try_from(pkg("pardon", &["bob"])), Ok(Request::Pardon("bob".to_string())));
}

#[test]
fn missing_arguments_name_what_was_expected() {
    let expected = [
        ("login", "name"),
        ("post", "channel, msg"),
        ("send", "name, msg"),
        ("names", "channel"),
        ("new_channel", "channel, password"),
        ("subscribe", "channel, password"),
        ("unsubscribe", "channel"),
        ("block", "name"),
        ("unblock", "name"),
        ("pardon", "name"),
    ];
    for (cmd, args) in expected {
        assert_eq!(Request::try_from(pkg(cmd, &[])), Err(PackageParseError::MissingArgs(args)));
    }
    assert_eq!(
        Request::try_from(pkg("post", &["den"])),
        Err(PackageParseError::MissingArgs("channel, msg"))
    );
    assert_eq!(
        Request::try_from(pkg("Login", &["alice"])),
        Err(PackageParseError::UnknownCmd("Login".to_string()))
    );
}

#[test]
fn builders_and_packages_of_requests_round_trip() {
    for (req, p) in [
        (Request::login("alice"), pkg("login", &["alice"])),
        (Request::Listen, pkg("listen", &[])),
        (Request::Ping, pkg("ping", &[])),
        (Request::post("den", "hi"), pkg("post", &["den", "hi"])),
        (Request::send("bob", "hi"), pkg("send", &["bob", "hi"])),
        (Request::names("den"), pkg("names", &["den"])),
        (Request::About, pkg("about", &[])),
        (Request::Features, pkg("features", &[])),
        (Request::new_channel("den", "pw"), pkg("new_channel", &["den", "pw"])),
        (Request::ListChannels, pkg("list_channels", &[])),
        (Request::subscribe("den", "pw"), pkg("subscribe", &["den", "pw"])),
        (Request::unsubscribe("den"), pkg("unsubscribe", &["den"])),
        (Request::block("bob"), pkg("block", &["bob"])),
        (Request::unblock("bob"), pkg("unblock", &["bob"])),
        (Request::Offenses, pkg("offenses", &[])),
        (Request::pardon("bob"), pkg("pardon", &["bob"])),
    ] {
        assert_eq!(Request::try_from(p.clone()).as_ref(), Ok(&req));
        assert_eq!(req.package(), p);
    }
}

#[test]
fn identifiers_are_ascii_letters_digits_and_underscores() {
    assert!(is_ident_ok("alice_01"));
    assert!(is_ident_ok("__direct"));
    assert!(is_ident_ok(""));
    assert!(is_ident_ok("AZaz09_"));
    assert!(!is_ident_ok("bad name"));
    assert!(!is_ident_ok("caf\u{e9}"));
    assert!(!is_ident_ok("a-b"));
    assert!(!is_ident_ok("a@b"));
    assert!(!is_ident_ok("[`{/:"));
}

#[test]
fn parse_validates_the_name_in_the_request() {
    assert_eq!(Request::parse(pkg("login", &["alice"])), Ok(Request::login("alice")));
    assert_eq!(Request::parse(pkg("post", &["", "any text!"])), Ok(Request::post("", "any text!")));
    assert_eq!(Request::parse(pkg("login", &["al ice"])), Err(RequestErr::InvalidName));
    assert_eq!(Request::parse(pkg("post", &["d\u{e9}n", "hi"])), Err(RequestErr::InvalidName));
    assert_eq!(Request::parse(pkg("subscribe", &["a b", "pw"])), Err(RequestErr::InvalidName));
    assert_eq!(Request::parse(pkg("new_channel", &["ok", "p w"])), Ok(Request::new_channel("ok", "p w")));
    assert_eq!(
        Request::parse(pkg("dance", &[])),
        Err(RequestErr::ParseErr(PackageParseError::UnknownCmd("dance".to_string())))
    );
    assert_eq!(
        Request::parse(pkg("send", &["bob"])),
        Err(RequestErr::ParseErr(PackageParseError::MissingArgs("name, msg")))
    );
    assert_eq!(Request::send("b!b", "x").check_idents(), Err(RequestErr::InvalidName));
    assert_eq!(Request::send("bob", "x y").check_idents(), Ok(()));
    assert_eq!(Request::Ping.check_idents(), Ok(()));
    assert_eq!(
        RequestErr::from(PackageParseError::MissingArgs("name")),
        RequestErr::ParseErr(PackageParseError::MissingArgs("name"))
    );
}

#[test]
fn rejections_become_error_responses() {
    assert_eq!(RequestErr::InvalidName.package(), pkg("err", &["invalid name"]));
    assert_eq!(RequestErr::InvalidChannel.package(), pkg("err", &["invalid channel"]));
    assert_eq!(RequestErr::InvalidChannel.response(), Response::err("invalid channel"));
    assert_eq!(
        RequestErr::ParseErr(PackageParseError::UnknownCmd("dance".to_string())).package(),
        pkg("err", &["unknown command dance"])
    );
    assert_eq!(
        RequestErr::ParseErr(PackageParseError::MissingArgs("channel, msg")).package(),
        pkg("err", &["insufficient args provided, expected [channel, msg]"])
    );
    assert_eq!(
        PackageParseError::MissingArgs("why").message(),
        "insufficient args provided, expected [why]"
    );
}

#[test]
fn responses_are_read_from_packages() {
    assert_eq!(Response::try_from(pkg("ack", &["x"])), Ok(Response::Ack));
    assert_eq!(Response::try_from(pkg("err", &["why", "x"])), Ok(Response::Error("why".to_string())));
    assert_eq!(Response::try_from(pkg("info", &[])), Ok(Response::Info(Vec::new())));
    assert_eq!(Response::try_from(pkg("info", &["a", "b"])), Ok(Response::Info(strings(&["a", "b"]))));
    assert_eq!(
        Response::try_from(pkg("msg", &["", "alice", "hi"])),
        Ok(Response::Msg(String::new(), "alice".to_string(), "hi".to_string()))
    );
    assert_eq!(Response::try_from(pkg("err", &[])), Err(PackageParseError::MissingArgs("why")));
    assert_eq!(
        Response::try_from(pkg("msg", &["", "alice"])),
        Err(PackageParseError::MissingArgs("channel, name, msg"))
    );
    assert_eq!(
        Response::try_from(pkg("ping", &[])),
        Err(PackageParseError::UnknownCmd("ping".to_string()))
    );
}

#[test]
fn responses_become_packages() {
    assert_eq!(Response::Ack.package(), pkg("ack", &[]));
    assert_eq!(Response::err("no").package(), pkg("err", &["no"]));
    assert_eq!(Response::info(strings(&["0", "5"])).package(), pkg("info", &["0", "5"]));
    assert_eq!(Response::msg("__direct", "alice", "hi").package(), pkg("msg", &["__direct", "alice", "hi"]));
}

#[test]
fn only_errors_are_bad() {
    assert!(Response::err("no").is_bad());
    assert!(!Response::Ack.is_bad());
    assert!(!Response::info(Vec::new()).is_bad());
    assert!(!Response::msg("", "alice", "err").is_bad());
}
