//! The admission worker's decisions: the handshake on one connection, and
//! one round over all connections that have not logged in yet.

use vstd::prelude::*;
use vstd::string::*;
use crate::connection::{polled, sent, Connection, ConnectionView};
use crate::requests::{request_of, Request, RequestView};
use crate::response::Response;
use crate::server::model::{error_frame, fresh_client, ClientView};
use crate::server::Client;

verus! {

/// Number of failed rounds after which a connection that has not logged in is dropped.
pub const MAX_AGE: u32 = 200;

/// How the handshake on a connection stands.
pub enum Handshake {
    /// The peer logged in under this name.
    Named(Seq<char>),
    /// The peer asked to listen.
    Listener,
    /// The peer has not logged in yet.
    Waiting,
}

/// The connection after one step of the handshake, and how the handshake stands.
///
/// Without a frame nothing happens. `Login` with a name and `Listen` finish
/// the handshake. `Login` without a name and every other frame are answered
/// with a failure, and the peer has to try again.
pub open spec fn login_step(c: ConnectionView) -> (ConnectionView, Handshake) {
    let (conn, got) = polled(c);
    match got {
        None => (conn, Handshake::Waiting),
        Some(f) => match request_of(f) {
            Ok(RequestView::Login(name)) => if name.len() == 0 {
                (sent(conn, error_frame("please provide a name"@)), Handshake::Waiting)
            } else {
                (conn, Handshake::Named(name))
            },
            Ok(RequestView::Listen) => (conn, Handshake::Listener),
            _ => (sent(conn, error_frame("please login first"@)), Handshake::Waiting),
        },
    }
}

/// Whether the result of a handshake step carries the given outcome.
pub open spec fn handshake_is(r: Result<Option<String>, ()>, h: Handshake) -> bool {
    match r {
        Ok(Some(name)) => h == Handshake::Named(name@),
        Ok(None) => h == Handshake::Listener,
        Err(_) => h == Handshake::Waiting,
    }
}

/// One step of the handshake on a connection that has not logged in yet.
///
/// `Ok` holds the name of an active client, or nothing for a passive
/// listener. `Err` means that the peer has not logged in yet.
pub fn try_login(conn: &mut Connection) -> (r: Result<Option<String>, ()>)
    ensures
        final(conn)@ == login_step(old(conn)@).0,
        handshake_is(r, login_step(old(conn)@).1),
{
    match conn.get_package() {
        None => Err(()),
        Some(pkg) => match Request::try_from(pkg) {
            Ok(Request::Login(name)) => {
                if name.as_str().is_empty() {
                    conn.send_package(&Response::err("please provide a name").package());
                    Err(())
                } else {
                    Ok(Some(name))
                }
            },
            Ok(Request::Listen) => Ok(None),
            _ => {
                conn.send_package(&Response::err("please login first").package());
                Err(())
            },
        },
    }
}

/// The mathematical content of a connection that waits for its login.
pub struct WaitingView {
    pub conn: ConnectionView,
    /// The number of rounds in which the login has failed.
    pub age: nat,
}

/// A connection that waits for its login.
pub struct Waiting {
    conn: Connection,
    age: u32,
}

impl View for Waiting {
    type V = WaitingView;

    closed spec fn view(&self) -> WaitingView {
        WaitingView { conn: self.conn@, age: self.age as nat }
    }
}

impl DeepView for Waiting {
    type V = WaitingView;

    open spec fn deep_view(&self) -> WaitingView {
        self@
    }
}

/// The client that a finished handshake yields, if it is finished.
pub open spec fn candidate(w: WaitingView) -> Option<ClientView> {
    match login_step(w.conn).1 {
        Handshake::Named(name) => Some(fresh_client(login_step(w.conn).0, Some(name))),
        Handshake::Listener => Some(fresh_client(login_step(w.conn).0, None)),
        Handshake::Waiting => None,
    }
}

/// Whether a connection whose handshake is not finished gets another round.
pub open spec fn may_wait(w: WaitingView) -> bool {
    w.age < MAX_AGE
}

/// The clients that one round hands over from the first `n` connections, in order.
pub open spec fn handed_over(incoming: Seq<WaitingView>, n: int) -> Seq<ClientView>
    decreases n,
{
    if n <= 0 {
        Seq::<ClientView>::empty()
    } else {
        match candidate(incoming[n - 1]) {
            Some(c) => handed_over(incoming, n - 1).push(c),
            None => handed_over(incoming, n - 1),
        }
    }
}

/// Those of the first `n` connections that wait on after one round, each one
/// round older.
pub open spec fn waiting_on(incoming: Seq<WaitingView>, n: int) -> Seq<WaitingView>
    decreases n,
{
    if n <= 0 {
        Seq::<WaitingView>::empty()
    } else {
        let w = incoming[n - 1];
        if candidate(w) is None && may_wait(w) {
            waiting_on(incoming, n - 1).push(
                WaitingView { conn: login_step(w.conn).0, age: w.age + 1 },
            )
        } else {
            waiting_on(incoming, n - 1)
        }
    }
}

/// Those of the first `n` connections that one round drops for their age.
pub open spec fn expired(incoming: Seq<WaitingView>, n: int) -> Seq<ConnectionView>
    decreases n,
{
    if n <= 0 {
        Seq::<ConnectionView>::empty()
    } else {
        let w = incoming[n - 1];
        if candidate(w) is None && !may_wait(w) {
            expired(incoming, n - 1).push(login_step(w.conn).0)
        } else {
            expired(incoming, n - 1)
        }
    }
}

/// What one round of the admission worker yields.
pub struct Handoff {
    /// The clients whose handshake is finished, for the event loop.
    pub clients: Vec<Client>,
    /// The connections that were dropped for their age.
    pub expired: Vec<Connection>,
}

/// The connections that have been accepted and have not logged in yet.
pub struct LoginWorker {
    incoming: Vec<Waiting>,
}

impl View for LoginWorker {
    type V = Seq<WaitingView>;

    closed spec fn view(&self) -> Seq<WaitingView> {
        self.incoming.deep_view()
    }
}

impl LoginWorker {
    /// A worker with no connection waiting.
    pub fn new() -> (r: LoginWorker)
        ensures
            r@ == Seq::<WaitingView>::empty(),
    {
        let incoming: Vec<Waiting> = Vec::new();
        assert(incoming.deep_view() == Seq::<WaitingView>::empty());
        LoginWorker { incoming }
    }

    /// Takes in a connection that was just accepted, with age 0.
    pub fn accept(&mut self, conn: Connection)
        ensures
            final(self)@ == old(self)@.push(WaitingView { conn: conn@, age: 0 }),
    {
        let ghost before = self.incoming.deep_view();
        let w = Waiting { conn, age: 0 };
        self.incoming.push(w);
        assert(self.incoming.deep_view() == before.push(w@));
    }

    /// The number of connections that wait.
    pub fn len(&self) -> (r: usize)
        ensures
            r == self@.len(),
    {
        self.incoming.len()
    }

    /// The connection at `i`, for its owner to read from and write to.
    pub fn conn(&mut self, i: usize) -> (r: &mut Connection)
        requires
            i < old(self)@.len(),
        ensures
            r@ == old(self)@[i as int].conn,
            final(self)@ == old(self)@.update(
                i as int,
                WaitingView { conn: final(r)@, ..old(self)@[i as int] },
            ),
    {
        &mut self.incoming[i].conn
    }

    /// One round: runs a step of the handshake on every connection, hands
    /// over the clients whose handshake is finished, keeps the others one
    /// round older, and drops those that have failed `MAX_AGE` rounds before.
    pub fn tick(&mut self) -> (r: Handoff)
        ensures
            r.clients.deep_view() == handed_over(old(self)@, old(self)@.len() as int),
            r.expired.deep_view() == expired(old(self)@, old(self)@.len() as int),
            final(self)@ == waiting_on(old(self)@, old(self)@.len() as int),
    {
        let ghost start = self@;
        let mut clients: Vec<Client> = Vec::new();
        let mut dropped: Vec<Connection> = Vec::new();
        let mut incoming: Vec<Waiting> = Vec::new();
        std::mem::swap(&mut incoming, &mut self.incoming);
        assert(self.incoming.deep_view() == Seq::<WaitingView>::empty());
        assert(clients.deep_view() == Seq::<ClientView>::empty());
        assert(dropped.deep_view() == Seq::<ConnectionView>::empty());
        for w in it: incoming
            invariant
                it.seq().len() == start.len(),
                forall|j: int| 0 <= j < start.len() ==> it.seq()[j]@ == start[j],
                clients.deep_view() == handed_over(start, it.index() as int),
                dropped.deep_view() == expired(start, it.index() as int),
                self.incoming.deep_view() == waiting_on(start, it.index() as int),
        {
            let Waiting { conn, age } = w;
            let mut conn = conn;
            match try_login(&mut conn) {
                Ok(name) => {
                    let ghost before = clients.deep_view();
                    let c = Client::new(conn, name);
                    clients.push(c);
                    assert(clients.deep_view() == before.push(c@));
                },
                Err(_) => {
                    if age < MAX_AGE {
                        let ghost before = self.incoming.deep_view();
                        let again = Waiting { conn, age: age + 1 };
                        self.incoming.push(again);
                        assert(self.incoming.deep_view() == before.push(again@));
                    } else {
                        let ghost before = dropped.deep_view();
                        dropped.push(conn);
                        assert(dropped.deep_view() == before.push(conn@));
                    }
                },
            }
        }
        Handoff { clients, expired: dropped }
    }
}

} // verus!
