use rs_chat::connection::{Connection, ReadOutcome, BUF_SIZE};
use rs_chat::package::Package;
use rs_chat::requests::Request;
use rs_chat::server::login::{try_login, LoginWorker, MAX_AGE};
use rs_chat::SERVER_PORT;

fn pkg(cmd: &str, args: &[&str]) -> Package {
    Package { cmd: cmd.to_string(), args: args.iter().map(|a| a.to_string()).collect() }
}

#[test]
fn a_new_connection_is_alive_and_empty() {
    let mut conn = Connection::new(42);
    assert!(conn.alive());
    assert_eq!(conn.token(), 42);
    assert_eq!(conn.get_package(), None);
    assert!(conn.take_outgoing().is_empty());
    assert_eq!(SERVER_PORT, 6447);
}

#[test]
fn frames_are_reassembled_from_partial_reads() {
    let mut conn = Connection::new(1);
    conn.push_text("\x02post\x16den");
    assert_eq!(conn.get_package(), None);
    conn.push_text("\x19hi\x19\x03\x02pi");
    assert_eq!(conn.get_package(), Some(pkg("post", &["den", "hi"])));
    assert_eq!(conn.get_package(), None);
    conn.push_text("ng\x16\x03\x02about\x16\x03");
    assert_eq!(conn.get_package(), Some(pkg("ping", &[])));
    assert_eq!(conn.get_package(), Some(pkg("about", &[])));
    assert_eq!(conn.get_package(), None);
}

#[test]
fn a_malformed_frame_is_dropped_and_ends_the_poll() {
    let mut conn = Connection::new(1);
    conn.push_text("garbage\x03\x02ping\x16\x03");
    assert_eq!(conn.get_package(), None);
    assert_eq!(conn.get_package(), Some(pkg("ping", &[])));
    assert_eq!(conn.get_package(), None);
}

#[test]
fn reads_are_absorbed() {
    let mut conn = Connection::new(1);
    assert!(!conn.absorb(ReadOutcome::Bytes(b"\x02ping\x16\x03".to_vec())));
    assert!(!conn.absorb(ReadOutcome::WouldBlock));
    assert!(conn.alive());
    assert_eq!(conn.get_package(), Some(pkg("ping", &[])));
    let mut full = vec![b'a'; BUF_SIZE];
    full[0] = 2;
    full[1] = 0x16;
    assert!(conn.absorb(ReadOutcome::Bytes(full)));
    assert!(!conn.absorb(ReadOutcome::Bytes(vec![0x19, 3])));
    let got = conn.get_package().unwrap();
    assert_eq!(got.cmd, "");
    assert_eq!(got.args, vec!["a".repeat(BUF_SIZE - 2)]);
}

#[test]
fn invalid_utf8_becomes_the_replacement_character() {
    let mut conn = Connection::new(1);
    conn.absorb(ReadOutcome::Bytes(vec![2, b'p', 0x16, 0xff, b'a', 0xc3, 0x19, 3]));
    assert_eq!(conn.get_package(), Some(pkg("p", &["\u{fffd}a\u{fffd}"])));
    conn.absorb(ReadOutcome::Bytes(vec![2, b'p', 0x16, 0xc3]));
    conn.absorb(ReadOutcome::Bytes(vec![0xa9, 0x19, 3]));
    assert_eq!(conn.get_package(), Some(pkg("p", &["\u{fffd}\u{fffd}"])));
    conn.absorb(ReadOutcome::Bytes(vec![2, b'p', 0x16, 0xc3, 0xa9, 0x19, 3]));
    assert_eq!(conn.get_package(), Some(pkg("p", &["\u{e9}"])));
}

#[test]
fn an_empty_read_and_a_failed_read_close_the_connection() {
    let mut conn = Connection::new(1);
    conn.push_text("\x02ping\x16\x03");
    assert!(!conn.absorb(ReadOutcome::Bytes(Vec::new())));
    assert!(!conn.alive());
    assert_eq!(conn.get_package(), None);

    let mut conn = Connection::new(2);
    assert!(!conn.absorb(ReadOutcome::Failed));
    assert!(!conn.alive());
}

#[test]
fn a_dead_connection_stays_dead() {
    let mut conn = Connection::new(1);
    conn.send_package(&pkg("ack", &[]));
    conn.close();
    assert!(!conn.alive());
    conn.send_package(&pkg("ack", &[]));
    conn.send_all(&vec![pkg("ack", &[]), pkg("ack", &[])]);
    conn.push_text("\x02ping\x16\x03");
    assert!(!conn.absorb(ReadOutcome::Bytes(b"\x02ping\x16\x03".to_vec())));
    assert!(!conn.absorb(ReadOutcome::WouldBlock));
    assert_eq!(conn.get_package(), None);
    assert!(!conn.alive());
    assert_eq!(conn.take_outgoing(), vec![pkg("ack", &[])]);
    assert!(!conn.alive());
}

#[test]
fn packages_are_sent_in_order() {
    let mut conn = Connection::new(1);
    conn.send_package(&pkg("ack", &[]));
    conn.send_all(&vec![pkg("info", &["a"]), pkg("err", &["b"])]);
    assert_eq!(conn.take_outgoing(), vec![pkg("ack", &[]), pkg("info", &["a"]), pkg("err", &["b"])]);
    assert!(conn.take_outgoing().is_empty());
}

#[test]
fn handshake_steps() {
    let mut conn = Connection::new(1);
    assert_eq!(try_login(&mut conn), Err(()));
    assert!(conn.take_outgoing().is_empty());

    conn.push_text(&Request::Ping.package().encode());
    assert_eq!(try_login(&mut conn), Err(()));
    assert_eq!(conn.take_outgoing(), vec![pkg("err", &["please login first"])]);

    conn.push_text(&pkg("login", &[""]).encode());
    assert_eq!(try_login(&mut conn), Err(()));
    assert_eq!(conn.take_outgoing(), vec![pkg("err", &["please provide a name"])]);

    conn.push_text(&pkg("login", &[]).encode());
    assert_eq!(try_login(&mut conn), Err(()));
    assert_eq!(conn.take_outgoing(), vec![pkg("err", &["please login first"])]);

    conn.push_text(&pkg("login", &["alice"]).encode());
    assert_eq!(try_login(&mut conn), Ok(Some("alice".to_string())));
    assert!(conn.take_outgoing().is_empty());

    conn.push_text(&pkg("listen", &[]).encode());
    assert_eq!(try_login(&mut conn), Ok(None));
    assert!(conn.take_outgoing().is_empty());
}

#[test]
fn the_worker_hands_over_finished_handshakes_and_keeps_the_rest() {
    let mut worker = LoginWorker::new();
    worker.accept(Connection::new(1));
    worker.accept(Connection::new(2));
    worker.accept(Connection::new(3));
    assert_eq!(worker.len(), 3);
    worker.conn(0).push_text(&pkg("login", &["alice"]).encode());
    worker.conn(2).push_text(&pkg("listen", &[]).encode());
    let mut handoff = worker.tick();
    assert!(handoff.expired.is_empty());
    assert_eq!(handoff.clients.len(), 2);
    assert_eq!(handoff.clients[0].name(), Some(&"alice".to_string()));
    assert_eq!(handoff.clients[0].conn().token(), 1);
    assert_eq!(handoff.clients[0].offenses(), 0);
    assert_eq!(handoff.clients[1].name(), None);
    assert_eq!(handoff.clients[1].conn().token(), 3);
    assert!(handoff.clients[0].conn().take_outgoing().is_empty());
    assert_eq!(worker.len(), 1);
    assert_eq!(worker.conn(0).token(), 2);
}

#[test]
fn the_worker_drops_a_connection_after_max_age_failed_rounds() {
    let mut worker = LoginWorker::new();
    worker.accept(Connection::new(9));
    for _ in 0..MAX_AGE {
        let handoff = worker.tick();
        assert!(handoff.clients.is_empty());
        assert!(handoff.expired.is_empty());
        assert_eq!(worker.len(), 1);
    }
    let handoff = worker.tick();
    assert!(handoff.clients.is_empty());
    assert_eq!(handoff.expired.len(), 1);
    assert_eq!(handoff.expired[0].token(), 9);
    assert_eq!(worker.len(), 0);
    assert_eq!(MAX_AGE, 200);
}
