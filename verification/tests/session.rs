use rs_chat::client::secondary::{SecondaryState, UserCmd, HELP, HELP_WHO, SECRET_HELP};
use rs_chat::client::session::{Action, Purpose, Session, Stage};
use rs_chat::package::Package;
use rs_chat::requests::Request;

fn pkg(cmd: &str, args: &[&str]) -> Package {
    Package { cmd: cmd.to_string(), args: args.iter().map(|a| a.to_string()).collect() }
}

fn strings(items: &[&str]) -> Vec<String> {
    items.iter().map(|a| a.to_string()).collect()
}

fn session() -> Session {
    Session::new(SecondaryState {
        name: "alice".to_string(),
        channels: strings(&["", "den"]),
        blocked: strings(&["mallory"]),
    })
}

fn print(line: &str) -> Action {
    Action::Print(line.to_string())
}

fn complain(line: &str) -> Action {
    Action::Complain(line.to_string())
}

fn info(items: &[&str]) -> Option<Package> {
    Some(pkg("info", items))
}

fn ack() -> Option<Package> {
    Some(pkg("ack", &[]))
}

#[test]
fn commands_without_the_server() {
    let mut s = session();
    assert_eq!(s.begin(UserCmd::Help(None)), vec![print(HELP)]);
    assert_eq!(s.begin(UserCmd::Help(Some('w'))), vec![print(HELP_WHO)]);
    assert_eq!(s.begin(UserCmd::Help(Some('x'))), vec![complain("unknown command x")]);
    assert_eq!(s.begin(UserCmd::SecretHelp), vec![print(SECRET_HELP)]);
    assert_eq!(s.begin(UserCmd::BlockList), vec![print("you have currently blocked: mallory")]);
    assert_eq!(s.begin(UserCmd::Quit(false)), vec![Action::Quit]);
    assert_eq!(s.begin(UserCmd::Quit(true)), vec![Action::Tell(pkg(":quit", &[])), Action::Quit]);
    assert_eq!(
        s.begin(UserCmd::Who("pit".to_string())),
        vec![complain("join channel pit to list its members")]
    );
    assert_eq!(
        s.begin(UserCmd::ChannelMsg("pit".to_string(), "hi".to_string())),
        vec![complain("join channel pit to post messages")]
    );
    assert_eq!(s.begin(UserCmd::Pardon("alice".to_string())), vec![complain("can't pardon yourself")]);
    assert_eq!(
        s.begin(UserCmd::ChannelLeave("pit".to_string())),
        vec![complain("you didn't join pit")]
    );
    assert_eq!(s.stage(), &Stage::Idle);
    assert_eq!(s.on_reply(ack()), Vec::new());
    assert_eq!(s.on_answer("y"), Vec::new());
    assert_eq!(s, session());
}

#[test]
fn queries_show_the_answer() {
    let mut s = session();
    assert_eq!(s.begin(UserCmd::ChannelList), vec![Action::Ask(Request::ListChannels)]);
    assert_eq!(s.stage(), &Stage::ChannelList);
    assert_eq!(s.on_reply(info(&["", "den", "pit"])), vec![print("channels: (*) <GLOBAL>, (*) den, pit")]);
    assert_eq!(s.stage(), &Stage::Idle);

    assert_eq!(s.begin(UserCmd::ServerInfo), vec![Action::Ask(Request::About)]);
    assert_eq!(
        s.on_reply(info(&["rs_chat"])),
        vec![print("server: rs_chat"), Action::Ask(Request::Features)]
    );
    assert_eq!(s.on_reply(info(&["basic", "direct"])), vec![print("available features: basic, direct")]);

    assert_eq!(s.begin(UserCmd::Offenses), vec![Action::Ask(Request::Offenses)]);
    assert_eq!(s.on_reply(info(&["1", "5"])), vec![print("your offenses: 1 / 5")]);

    assert_eq!(s.begin(UserCmd::Who(String::new())), vec![Action::Ask(Request::names(""))]);
    assert_eq!(s.on_reply(info(&["alice", "bob"])), vec![print("members of channel <GLOBAL>: alice, bob")]);

    assert_eq!(
        s.begin(UserCmd::ChannelMsg("den".to_string(), "hi".to_string())),
        vec![Action::Ask(Request::post("den", "hi"))]
    );
    assert_eq!(s.stage(), &Stage::Plain);
    assert_eq!(s.on_reply(ack()), Vec::new());
    assert_eq!(s, session());
}

#[test]
fn failures_end_the_command_and_most_end_the_client() {
    let mut s = session();
    s.begin(UserCmd::ChannelList);
    assert_eq!(s.on_reply(Some(pkg("err", &["no"]))), vec![complain("you made a mistake (or me?): no")]);
    assert_eq!(s.stage(), &Stage::Idle);
    s.begin(UserCmd::ChannelList);
    assert_eq!(s.on_reply(ack()), vec![complain("server violated the protocol"), Action::Quit]);
    s.begin(UserCmd::ChannelList);
    assert_eq!(s.on_reply(None), vec![complain("server died. oh no."), Action::Quit]);
    s.begin(UserCmd::Offenses);
    assert_eq!(s.on_reply(info(&["1"])), vec![complain("server violated the protocol"), Action::Quit]);
    s.begin(UserCmd::ServerInfo);
    assert_eq!(s.on_reply(info(&[])), vec![complain("server violated the protocol"), Action::Quit]);
    s.begin(UserCmd::ChannelMsg(String::new(), "hi".to_string()));
    assert_eq!(
        s.on_reply(Some(pkg("what", &[]))),
        vec![complain("server sent invalid response: unknown command what"), Action::Quit]
    );
    assert_eq!(s, session());
}

#[test]
fn a_direct_message_goes_to_a_user_who_is_there() {
    let mut s = session();
    assert_eq!(
        s.begin(UserCmd::DirectMsg("bob".to_string(), "hi".to_string())),
        vec![Action::Ask(Request::names(""))]
    );
    assert_eq!(
        s.stage(),
        &Stage::Names(Purpose::Direct("hi".to_string()), "bob".to_string(), Vec::new(), 0, true)
    );
    assert_eq!(s.on_reply(info(&["alice", "bob"])), vec![Action::Ask(Request::send("bob", "hi"))]);
    assert_eq!(s.on_reply(ack()), Vec::new());

    s.begin(UserCmd::DirectMsg("mallory".to_string(), "hi".to_string()));
    assert_eq!(s.on_reply(info(&["mallory"])), vec![complain("you blocked mallory")]);
    assert_eq!(s, session());
}

#[test]
fn a_user_is_looked_up_in_the_joined_channels_and_a_similar_name_is_offered() {
    let mut s = session();
    s.begin(UserCmd::Pardon("bobby".to_string()));
    assert_eq!(s.on_reply(info(&["alice", "carol"])), vec![Action::Ask(Request::names("den"))]);
    assert_eq!(
        s.stage(),
        &Stage::Names(Purpose::Pardon, "bobby".to_string(), strings(&["alice", "carol"]), 2, false)
    );
    assert_eq!(
        s.on_reply(info(&["carol", "bob"])),
        vec![Action::Prompt("user bobby not found. did you mean bob? [y/n/a] ".to_string())]
    );
    assert_eq!(s.stage(), &Stage::Answer(Purpose::Pardon, "bobby".to_string(), "bob".to_string()));
    assert_eq!(s.on_reply(ack()), Vec::new());
    assert_eq!(s.on_answer(" y\n"), vec![Action::Ask(Request::pardon("bob"))]);
    assert_eq!(s.on_reply(ack()), vec![print("pardoned bob")]);

    s.begin(UserCmd::Pardon("bobby".to_string()));
    s.on_reply(info(&["alice"]));
    s.on_reply(info(&["bob"]));
    assert_eq!(s.on_answer("n"), vec![Action::Ask(Request::pardon("bobby"))]);
    assert_eq!(s.on_reply(Some(pkg("err", &["user doesn't exist"]))).len(), 1);

    s.begin(UserCmd::Pardon("bobby".to_string()));
    s.on_reply(info(&["alice"]));
    s.on_reply(info(&["bobby"]));
    assert_eq!(s.stage(), &Stage::PardonAck("bobby".to_string()));
    s.on_reply(ack());

    s.begin(UserCmd::Pardon("bobby".to_string()));
    s.on_reply(info(&["alice"]));
    s.on_reply(info(&["bob"]));
    assert_eq!(s.on_answer("abort"), Vec::new());
    assert_eq!(s, session());
}

#[test]
fn without_any_name_nothing_is_offered() {
    let mut s = Session::new(SecondaryState {
        name: "alice".to_string(),
        channels: strings(&["", "", "den", ""]),
        blocked: Vec::new(),
    });
    s.begin(UserCmd::Block("bob".to_string()));
    assert_eq!(s.on_reply(info(&[])), vec![Action::Ask(Request::names("den"))]);
    assert_eq!(s.on_reply(info(&[])), vec![complain("no names found")]);
    assert_eq!(s.stage(), &Stage::Idle);

    let mut lonely = Session::new(SecondaryState {
        name: "alice".to_string(),
        channels: Vec::new(),
        blocked: Vec::new(),
    });
    lonely.begin(UserCmd::Block("bob".to_string()));
    assert_eq!(
        lonely.on_reply(info(&["carol"])),
        vec![Action::Prompt("user bob not found. did you mean carol? [y/n/a] ".to_string())]
    );
}

#[test]
fn blocking_toggles_and_tells_the_primary_client() {
    let mut s = session();
    s.begin(UserCmd::Block("bob".to_string()));
    assert_eq!(s.on_reply(info(&["bob"])), vec![Action::Ask(Request::block("bob"))]);
    assert_eq!(
        s.on_reply(ack()),
        vec![print("blocked bob"), Action::Tell(pkg(":blocked", &["mallory", "bob"]))]
    );
    assert_eq!(s.user().blocked, strings(&["mallory", "bob"]));

    s.begin(UserCmd::Block("mallory".to_string()));
    assert_eq!(s.on_reply(info(&["mallory"])), vec![Action::Ask(Request::unblock("mallory"))]);
    assert_eq!(
        s.on_reply(ack()),
        vec![print("unblocked mallory"), Action::Tell(pkg(":blocked", &["bob"]))]
    );

    s.begin(UserCmd::Block("alice".to_string()));
    assert_eq!(
        s.on_reply(info(&["alice"])),
        vec![complain("don't block yourself :("), Action::Tell(pkg(":blocked", &["bob"]))]
    );

    s.begin(UserCmd::Block("carol".to_string()));
    s.on_reply(info(&["carol"]));
    assert_eq!(s.on_reply(Some(pkg("err", &["no"]))), vec![complain("you made a mistake (or me?): no")]);
    assert_eq!(s.user().blocked, strings(&["bob"]));
}

#[test]
fn channels_are_joined_created_and_left() {
    let mut s = session();
    assert_eq!(
        s.begin(UserCmd::ChannelJoinNew("pit".to_string(), "pw".to_string())),
        vec![Action::Ask(Request::ListChannels)]
    );
    assert_eq!(s.on_reply(info(&["", "den"])), vec![Action::Ask(Request::new_channel("pit", "pw"))]);
    assert_eq!(s.stage(), &Stage::JoinAck("pit".to_string(), true));
    assert_eq!(
        s.on_reply(ack()),
        vec![print("created pit"), Action::Tell(pkg(":channels", &["", "den", "pit"]))]
    );

    s.begin(UserCmd::ChannelJoinNew("cave".to_string(), String::new()));
    assert_eq!(s.on_reply(info(&["", "cave"])), vec![Action::Ask(Request::subscribe("cave", ""))]);
    assert_eq!(
        s.on_reply(ack()),
        vec![print("joined cave"), Action::Tell(pkg(":channels", &["", "den", "pit", "cave"]))]
    );

    assert_eq!(
        s.begin(UserCmd::ChannelJoinNew("den".to_string(), String::new())),
        vec![complain("you are already in den"), Action::Ask(Request::ListChannels)]
    );
    assert_eq!(s.on_reply(info(&["", "den"])), vec![Action::Ask(Request::subscribe("den", ""))]);
    assert_eq!(
        s.on_reply(Some(pkg("err", &["already subscribed"]))),
        vec![complain("you made a mistake (or me?): already subscribed")]
    );

    assert_eq!(
        s.begin(UserCmd::ChannelLeave(String::new())),
        vec![Action::Ask(Request::unsubscribe(""))]
    );
    assert_eq!(
        s.on_reply(ack()),
        vec![print("left <GLOBAL>"), Action::Tell(pkg(":channels", &["den", "pit", "cave"]))]
    );
    assert_eq!(s.user().channels, strings(&["den", "pit", "cave"]));
}
