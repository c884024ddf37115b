use rs_chat::connection::{Connection, ReadOutcome};
use rs_chat::package::Package;
use rs_chat::requests::Request;
use rs_chat::response::Response;
use rs_chat::server::login::LoginWorker;
use rs_chat::server::model::MAX_OFFENSES;
use rs_chat::server::{Channel, Client, Server};

fn pkg(cmd: &str, args: &[&str]) -> Package {
    Package { cmd: cmd.to_string(), args: args.iter().map(|a| a.to_string()).collect() }
}

fn wire(cmd: &str, args: &[&str]) -> Vec<u8> {
    pkg(cmd, args).encode().into_bytes()
}

fn arriving(token: u64, cmd: &str, args: &[&str]) -> Connection {
    let mut conn = Connection::new(token);
    conn.absorb(ReadOutcome::Bytes(wire(cmd, args)));
    conn
}

/// Logs the named clients in through the admission worker and one tick.
fn server_with(names: &[&str]) -> Server {
    let mut worker = LoginWorker::new();
    for (i, name) in names.iter().enumerate() {
        worker.accept(arriving(i as u64, "login", &[name]));
    }
    let handoff = worker.tick();
    assert_eq!(handoff.clients.len(), names.len());
    let mut server = Server::new();
    let gone = server.tick(handoff.clients);
    assert!(gone.is_empty());
    for name in names {
        assert_eq!(sent_to(&mut server, name), vec![pkg("ack", &[])]);
    }
    server
}

fn say(server: &mut Server, name: &str, cmd: &str, args: &[&str]) {
    let i = server.active_index(name).expect("client should be active");
    server.active_conn(i).absorb(ReadOutcome::Bytes(wire(cmd, args)));
}

fn sent_to(server: &mut Server, name: &str) -> Vec<Package> {
    let i = server.active_index(name).expect("client should be active");
    server.active_conn(i).take_outgoing()
}

fn members_of(server: &Server, channel: &str) -> Vec<String> {
    let i = server.channel_position(channel).expect("channel should exist");
    server.channel(i).members().clone()
}

fn offenses_of(server: &Server, name: &str) -> u8 {
    let i = server.active_index(name).expect("client should be active");
    server.active_client(i).offenses()
}

#[test]
fn login_and_ping() {
    let mut server = server_with(&["alice"]);
    say(&mut server, "alice", "ping", &[]);
    server.tick(Vec::new());
    assert_eq!(sent_to(&mut server, "alice"), vec![pkg("ack", &[])]);
    say(&mut server, "alice", "offenses", &[]);
    server.tick(Vec::new());
    assert_eq!(sent_to(&mut server, "alice"), vec![pkg("info", &["0", "5"])]);
}

#[test]
fn global_post_reaches_everybody_in_the_same_tick() {
    let mut server = server_with(&["alice", "bob"]);
    let mut listener = Client::new(Connection::new(7), None);
    assert!(listener.name().is_none());
    listener.conn().close();
    let mut passive = Client::new(Connection::new(8), None);
    assert!(passive.conn().alive());
    assert!(server.tick(vec![passive]).is_empty());
    assert_eq!(server.passive_count(), 1);
    assert_eq!(server.passive_conn(0).take_outgoing(), vec![pkg("ack", &[])]);

    say(&mut server, "alice", "post", &["", "hi"]);
    server.tick(Vec::new());
    let msg = pkg("msg", &["", "alice", "hi"]);
    assert_eq!(sent_to(&mut server, "alice"), vec![pkg("ack", &[]), msg.clone()]);
    assert_eq!(sent_to(&mut server, "bob"), vec![msg.clone()]);
    assert_eq!(server.passive_conn(0).take_outgoing(), vec![msg]);
}

#[test]
fn private_channel() {
    let mut server = server_with(&["alice", "bob"]);
    say(&mut server, "alice", "new_channel", &["secret", "pw"]);
    server.tick(Vec::new());
    assert_eq!(sent_to(&mut server, "alice"), vec![pkg("ack", &[])]);
    assert_eq!(members_of(&server, "secret"), vec!["alice".to_string()]);

    say(&mut server, "bob", "subscribe", &["secret", "wrong"]);
    server.tick(Vec::new());
    assert_eq!(sent_to(&mut server, "bob"), vec![pkg("err", &["wrong password"])]);

    say(&mut server, "bob", "subscribe", &["secret", "pw"]);
    server.tick(Vec::new());
    assert_eq!(sent_to(&mut server, "bob"), vec![pkg("ack", &[])]);
    assert_eq!(members_of(&server, "secret"), vec!["alice".to_string(), "bob".to_string()]);

    let mut passive = Client::new(Connection::new(9), None);
    passive.conn().take_outgoing();
    server.tick(vec![passive]);
    server.passive_conn(0).take_outgoing();

    say(&mut server, "alice", "post", &["secret", "ping"]);
    server.tick(Vec::new());
    let msg = pkg("msg", &["secret", "alice", "ping"]);
    assert_eq!(sent_to(&mut server, "alice"), vec![pkg("ack", &[]), msg.clone()]);
    assert_eq!(sent_to(&mut server, "bob"), vec![msg]);
    assert!(server.passive_conn(0).take_outgoing().is_empty());
}

#[test]
fn block_stops_direct_messages_both_ways() {
    let mut server = server_with(&["alice", "bob"]);
    say(&mut server, "bob", "block", &["alice"]);
    server.tick(Vec::new());
    assert_eq!(sent_to(&mut server, "bob"), vec![pkg("ack", &[])]);

    say(&mut server, "alice", "send", &["bob", "hello"]);
    server.tick(Vec::new());
    assert_eq!(sent_to(&mut server, "alice"), vec![pkg("err", &["you were blocked by user"])]);
    assert!(sent_to(&mut server, "bob").is_empty());

    say(&mut server, "bob", "send", &["alice", "hello"]);
    server.tick(Vec::new());
    assert_eq!(sent_to(&mut server, "bob"), vec![pkg("err", &["user was blocked"])]);
    assert!(sent_to(&mut server, "alice").is_empty());

    say(&mut server, "bob", "block", &["alice"]);
    say(&mut server, "bob", "unblock", &["alice"]);
    say(&mut server, "bob", "unblock", &["alice"]);
    server.tick(Vec::new());
    assert_eq!(
        sent_to(&mut server, "bob"),
        vec![
            pkg("err", &["user already blocked"]),
            pkg("ack", &[]),
            pkg("err", &["user wasn't blocked"]),
        ]
    );

    say(&mut server, "alice", "send", &["bob", "hello"]);
    server.tick(Vec::new());
    assert_eq!(sent_to(&mut server, "alice"), vec![pkg("ack", &[])]);
    assert_eq!(sent_to(&mut server, "bob"), vec![pkg("msg", &["__direct", "alice", "hello"])]);
}

#[test]
fn requests_of_one_tick_are_handled_client_by_client() {
    let mut server = server_with(&["alice", "bob"]);
    say(&mut server, "bob", "block", &["alice"]);
    server.tick(Vec::new());
    sent_to(&mut server, "bob");
    say(&mut server, "bob", "unblock", &["alice"]);
    say(&mut server, "alice", "send", &["bob", "hello"]);
    server.tick(Vec::new());
    assert_eq!(sent_to(&mut server, "alice"), vec![pkg("err", &["you were blocked by user"])]);
    assert_eq!(sent_to(&mut server, "bob"), vec![pkg("ack", &[])]);
}

#[test]
fn five_offenses_remove_the_client() {
    let mut server = server_with(&["alice", "bob"]);
    for _ in 0..4 {
        say(&mut server, "alice", "post", &["nowhere", "hi"]);
    }
    assert!(server.tick(Vec::new()).is_empty());
    assert_eq!(offenses_of(&server, "alice"), 4);
    assert_eq!(sent_to(&mut server, "alice").len(), 4);

    say(&mut server, "alice", "post", &["nowhere", "hi"]);
    let mut gone = server.tick(Vec::new());
    assert_eq!(gone.len(), 1);
    assert_eq!(gone[0].name(), Some(&"alice".to_string()));
    assert_eq!(gone[0].offenses(), MAX_OFFENSES);
    assert_eq!(gone[0].conn().take_outgoing(), vec![pkg("err", &["channel doesn't exist"])]);
    assert_eq!(server.active_index("alice"), None);
    assert_eq!(server.active_count(), 1);
    assert_eq!(members_of(&server, ""), vec!["bob".to_string()]);
}

#[test]
fn pardon_of_innocent_costs_the_pardoner() {
    let mut server = server_with(&["alice", "bob"]);
    say(&mut server, "bob", "pardon", &["alice"]);
    server.tick(Vec::new());
    assert_eq!(sent_to(&mut server, "bob"), vec![pkg("err", &["user has no offenses"])]);
    assert_eq!(offenses_of(&server, "bob"), 1);
    assert_eq!(offenses_of(&server, "alice"), 0);

    say(&mut server, "alice", "pardon", &["bob"]);
    server.tick(Vec::new());
    assert_eq!(sent_to(&mut server, "alice"), vec![pkg("ack", &[])]);
    assert_eq!(offenses_of(&server, "bob"), 0);
}

#[test]
fn name_in_use_is_turned_away() {
    let mut server = server_with(&["alice"]);
    let second = Client::new(Connection::new(5), Some("alice".to_string()));
    let mut gone = server.tick(vec![second]);
    assert_eq!(gone.len(), 1);
    assert_eq!(gone[0].conn().token(), 5);
    assert_eq!(gone[0].conn().take_outgoing(), vec![pkg("err", &["name already used"])]);
    assert_eq!(server.active_count(), 1);
    assert_eq!(members_of(&server, ""), vec!["alice".to_string()]);
}

#[test]
fn invalid_frames_are_answered_at_once_and_count() {
    let mut server = server_with(&["alice"]);
    say(&mut server, "alice", "dance", &[]);
    say(&mut server, "alice", "post", &["only_channel"]);
    say(&mut server, "alice", "send", &["bad name", "hi"]);
    say(&mut server, "alice", "ping", &[]);
    server.tick(Vec::new());
    assert_eq!(
        sent_to(&mut server, "alice"),
        vec![
            pkg("err", &["unknown command dance"]),
            pkg("err", &["insufficient args provided, expected [channel, msg]"]),
            pkg("err", &["invalid name"]),
            pkg("ack", &[]),
        ]
    );
    assert_eq!(offenses_of(&server, "alice"), 3);
}

#[test]
fn offenses_stop_at_the_limit() {
    let mut server = server_with(&["alice"]);
    for _ in 0..9 {
        say(&mut server, "alice", "dance", &[]);
    }
    say(&mut server, "alice", "offenses", &[]);
    let mut gone = server.tick(Vec::new());
    assert_eq!(gone.len(), 1);
    assert_eq!(gone[0].offenses(), 5);
    let out = gone[0].conn().take_outgoing();
    assert_eq!(out.len(), 10);
    assert_eq!(out[9], pkg("info", &["5", "5"]));
}

#[test]
fn respond_to_tells_lookup_failures_from_refusals() {
    let mut server = server_with(&["alice", "bob"]);
    let alice = "alice".to_string();
    assert_eq!(server.respond_to(&alice, Request::Ping), Ok(Response::Ack));
    assert_eq!(
        server.respond_to(&alice, Request::login("alice")),
        Ok(Response::err("already logged in"))
    );
    assert_eq!(server.respond_to(&alice, Request::Listen), Ok(Response::err("already logged in")));
    assert_eq!(
        server.respond_to(&alice, Request::post("nowhere", "x")),
        Err(Response::err("channel doesn't exist"))
    );
    assert_eq!(
        server.respond_to(&alice, Request::send("carol", "x")),
        Err(Response::err("user doesn't exist"))
    );
    assert_eq!(
        server.respond_to(&"carol".to_string(), Request::Offenses),
        Err(Response::err("user doesn't exist"))
    );
    assert_eq!(
        server.respond_to(&alice, Request::About),
        Ok(Response::info(vec![Server::ABOUT.to_string()]))
    );
    assert_eq!(
        server.respond_to(&alice, Request::Features),
        Ok(Response::info(vec![
            "basic".to_string(),
            "direct".to_string(),
            "channels".to_string(),
            "offenses".to_string()
        ]))
    );
    assert_eq!(
        server.respond_to(&alice, Request::names("")),
        Ok(Response::info(vec!["alice".to_string(), "bob".to_string()]))
    );
    assert_eq!(
        server.respond_to(&alice, Request::block("carol")),
        Err(Response::err("user doesn't exist"))
    );
    assert_eq!(
        server.respond_to(&alice, Request::unblock("carol")),
        Ok(Response::err("user wasn't blocked"))
    );
    assert_eq!(
        server.respond_to(&alice, Request::pardon("carol")),
        Err(Response::err("user doesn't exist"))
    );
}

#[test]
fn channels_are_created_listed_left_and_closed() {
    let mut server = server_with(&["alice", "bob"]);
    let alice = "alice".to_string();
    let bob = "bob".to_string();
    assert_eq!(server.respond_to(&alice, Request::new_channel("den", "")), Ok(Response::Ack));
    assert_eq!(
        server.respond_to(&bob, Request::new_channel("den", "x")),
        Ok(Response::err("channel exists already"))
    );
    assert_eq!(
        server.respond_to(&bob, Request::new_channel("", "x")),
        Ok(Response::err("channel exists already"))
    );
    assert_eq!(
        server.respond_to(&bob, Request::new_channel("__direct", "")),
        Ok(Response::err("channel exists already"))
    );
    assert_eq!(
        server.respond_to(&alice, Request::ListChannels),
        Ok(Response::info(vec![String::new(), "den".to_string()]))
    );
    assert_eq!(
        server.respond_to(&bob, Request::names("den")),
        Err(Response::err("not subscribed to channel"))
    );
    assert_eq!(
        server.respond_to(&bob, Request::subscribe("nowhere", "")),
        Err(Response::err("channel doesn't exist"))
    );
    assert_eq!(server.respond_to(&bob, Request::subscribe("den", "")), Ok(Response::Ack));
    assert_eq!(
        server.respond_to(&bob, Request::subscribe("den", "")),
        Ok(Response::err("already subscribed"))
    );
    assert_eq!(members_of(&server, "den"), vec!["alice".to_string(), "bob".to_string()]);
    assert_eq!(server.respond_to(&alice, Request::unsubscribe("den")), Ok(Response::Ack));
    assert_eq!(
        server.respond_to(&alice, Request::unsubscribe("den")),
        Err(Response::err("not subscribed to channel"))
    );
    assert_eq!(members_of(&server, "den"), vec!["bob".to_string()]);
    assert_eq!(server.respond_to(&bob, Request::unsubscribe("den")), Ok(Response::Ack));
    assert_eq!(server.channel_count(), 2);
    assert!(server.prune().is_empty());
    assert_eq!(server.channel_count(), 1);
    assert_eq!(server.channel_position("den"), None);
    assert_eq!(server.respond_to(&alice, Request::unsubscribe("")), Ok(Response::Ack));
    assert_eq!(server.respond_to(&bob, Request::unsubscribe("")), Ok(Response::Ack));
    server.prune();
    assert_eq!(server.channel_count(), 1);
    assert_eq!(server.channel(0).name(), "");
}

#[test]
fn dead_connections_are_pruned_with_their_memberships() {
    let mut server = server_with(&["alice", "bob"]);
    let alice = "alice".to_string();
    assert_eq!(server.respond_to(&alice, Request::new_channel("den", "pw")), Ok(Response::Ack));
    let i = server.active_index("alice").unwrap();
    server.active_conn(i).absorb(ReadOutcome::Bytes(Vec::new()));
    let gone = server.tick(Vec::new());
    assert_eq!(gone.len(), 1);
    assert_eq!(gone[0].name(), Some(&alice));
    assert_eq!(server.active_count(), 1);
    assert_eq!(server.channel_count(), 1);
    assert_eq!(members_of(&server, ""), vec!["bob".to_string()]);
}

#[test]
fn at_the_end_of_a_tick_the_state_is_settled() {
    let mut server = server_with(&["alice", "bob", "carol"]);
    say(&mut server, "alice", "new_channel", &["den", ""]);
    say(&mut server, "bob", "subscribe", &["den", ""]);
    say(&mut server, "alice", "unsubscribe", &["den"]);
    say(&mut server, "bob", "post", &["den", "anyone?"]);
    for _ in 0..5 {
        say(&mut server, "bob", "dance", &[]);
    }
    let gone = server.tick(Vec::new());
    assert_eq!(gone.len(), 1);
    let mut names = Vec::new();
    for i in 0..server.active_count() {
        let c = server.active_client(i);
        assert!(c.offenses() < MAX_OFFENSES);
        let name = c.name().unwrap().clone();
        assert!(!names.contains(&name));
        names.push(name);
    }
    assert_eq!(names, vec!["alice".to_string(), "carol".to_string()]);
    for i in 0..server.channel_count() {
        let ch = server.channel(i);
        assert!(ch.queue().is_empty());
        assert!(ch.name().is_empty() || !ch.members().is_empty());
        for m in ch.members() {
            assert!(names.contains(m));
        }
    }
    assert_eq!(server.channel_count(), 1);
}

#[test]
fn channel_queues_messages_under_its_own_name() {
    let mut ch = Channel::new("den".to_string(), "pw".to_string(), "alice".to_string());
    assert_eq!(ch.name(), "den");
    assert_eq!(ch.password(), "pw");
    assert_eq!(ch.members(), &vec!["alice".to_string()]);
    assert!(ch.has_member("alice"));
    assert!(!ch.has_member("bob"));
    ch.append_msg("alice".to_string(), "hi".to_string());
    assert_eq!(ch.queue(), &vec![pkg("msg", &["den", "alice", "hi"])]);
    ch.remove_member("alice");
    assert!(ch.members().is_empty());
}

#[test]
fn client_counts_offenses_up_to_the_limit() {
    let mut c = Client::new(Connection::new(1), Some("alice".to_string()));
    assert!(c.should_remain());
    assert!(!c.has_blocked("bob"));
    for n in 1..=5u8 {
        c.offend();
        assert_eq!(c.offenses(), n);
    }
    assert!(!c.should_remain());
    c.offend();
    assert_eq!(c.offenses(), 5);
}
