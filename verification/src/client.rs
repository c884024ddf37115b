//! What the client programs decide: how a login ended, and the packages
//! that the primary and the secondary client exchange.

use vstd::prelude::*;
use vstd::string::*;
use crate::package::{Frame, Package};
use crate::response::{response_of, take_one, ParseErrorView, Response, ResponseView};
use crate::text::{chars_of, find, position, same_text, string_of};

pub mod primary;
pub mod secondary;
pub mod session;
pub mod trivial;

verus! {

/// Communication between primary and secondary clients.
///
/// The first three update what the secondary client knows: the name, the
/// channels joined and the users blocked. `Quit` tells the primary client to
/// stop. Their commands start with `:` to tell them from the server's.
#[derive(Debug, PartialEq, Eq)]
pub enum InterClientComm {
    Name(String),
    Channels(Vec<String>),
    Blocked(Vec<String>),
    Quit,
}

/// The mathematical content of an `InterClientComm`.
pub enum CommView {
    Name(Seq<char>),
    Channels(Seq<Seq<char>>),
    Blocked(Seq<Seq<char>>),
    Quit,
}

impl View for InterClientComm {
    type V = CommView;

    open spec fn view(&self) -> CommView {
        match self {
            InterClientComm::Name(name) => CommView::Name(name@),
            InterClientComm::Channels(ch) => CommView::Channels(ch.deep_view()),
            InterClientComm::Blocked(bl) => CommView::Blocked(bl.deep_view()),
            InterClientComm::Quit => CommView::Quit,
        }
    }
}

/// The frame that carries a message between the clients.
pub open spec fn comm_frame(c: CommView) -> Frame {
    match c {
        CommView::Name(name) => Frame { cmd: ":name"@, args: seq![name] },
        CommView::Channels(ch) => Frame { cmd: ":channels"@, args: ch },
        CommView::Blocked(bl) => Frame { cmd: ":blocked"@, args: bl },
        CommView::Quit => Frame { cmd: ":quit"@, args: seq![] },
    }
}

/// The message between the clients that a frame carries, if it carries one.
pub open spec fn comm_of(f: Frame) -> Option<CommView> {
    if f.cmd == ":name"@ {
        if f.args.len() >= 1 {
            Some(CommView::Name(f.args[0]))
        } else {
            None
        }
    } else if f.cmd == ":channels"@ {
        Some(CommView::Channels(f.args))
    } else if f.cmd == ":blocked"@ {
        Some(CommView::Blocked(f.args))
    } else if f.cmd == ":quit"@ {
        Some(CommView::Quit)
    } else {
        None
    }
}

impl InterClientComm {
    /// The package that carries this message.
    pub fn into_package(self) -> (r: Package)
        ensures
            r@ == comm_frame(self@),
    {
        match self {
            InterClientComm::Name(name) => {
                let mut args: Vec<String> = Vec::new();
                args.push(name);
                assert(args.deep_view() == seq![name@]);
                Package { cmd: String::from_str(":name"), args }
            },
            InterClientComm::Channels(ch) => Package { cmd: String::from_str(":channels"), args: ch },
            InterClientComm::Blocked(bl) => Package { cmd: String::from_str(":blocked"), args: bl },
            InterClientComm::Quit => {
                let args: Vec<String> = Vec::new();
                assert(args.deep_view() == Seq::<Seq<char>>::empty());
                Package { cmd: String::from_str(":quit"), args }
            },
        }
    }

    /// Reads a message between the clients out of a package.
    pub fn try_from(pkg: Package) -> (r: Result<InterClientComm, ()>)
        ensures
            match r {
                Ok(c) => comm_of(pkg@) == Some(c@),
                Err(_) => comm_of(pkg@) is None,
            },
    {
        let Package { cmd, args } = pkg;
        if same_text(cmd.as_str(), ":name") {
            match take_one(args) {
                Some(name) => Ok(InterClientComm::Name(name)),
                None => Err(()),
            }
        } else if same_text(cmd.as_str(), ":channels") {
            Ok(InterClientComm::Channels(args))
        } else if same_text(cmd.as_str(), ":blocked") {
            Ok(InterClientComm::Blocked(args))
        } else if same_text(cmd.as_str(), ":quit") {
            Ok(InterClientComm::Quit)
        } else {
            Err(())
        }
    }
}

/// Reading back the frame of a message between the clients gives the message.
pub proof fn lemma_comm_round_trip(c: CommView)
    ensures
        comm_of(comm_frame(c)) == Some(c),
{
    reveal_strlit(":name");
    reveal_strlit(":channels");
    reveal_strlit(":blocked");
    reveal_strlit(":quit");
    assert(":name"@[1] != ":channels"@[1]);
    assert(":name"@[1] != ":blocked"@[1]);
    assert(":name"@[1] != ":quit"@[1]);
    assert(":channels"@[1] != ":blocked"@[1]);
    assert(":channels"@[1] != ":quit"@[1]);
    assert(":blocked"@[1] != ":quit"@[1]);
}

/// The frame with which a client logs in under `name`.
pub open spec fn login_frame(name: Seq<char>) -> Frame {
    Frame { cmd: "login"@, args: seq![name] }
}

/// The package with which a client logs in under `name`.
pub fn login_package(name: &str) -> (r: Package)
    ensures
        r@ == login_frame(name@),
{
    let mut args: Vec<String> = Vec::new();
    args.push(String::from_str(name));
    assert(args.deep_view() == seq![name@]);
    Package { cmd: String::from_str("login"), args }
}

/// Whether the server's reply to a login admits the client: a package
/// arrived, and it is an acknowledgement.
pub fn login_accepted(reply: &Option<Package>) -> (r: bool)
    ensures
        r == (reply matches Some(p) && p@.cmd == "ack"@),
{
    match reply {
        Some(p) => same_text(p.cmd.as_str(), "ack"),
        None => false,
    }
}

/// `std::io::Error`, the error of an I/O operation. Nothing is known of its contents.
#[verifier::external_type_specification]
#[verifier::external_body]
pub struct ExIoError(std::io::Error);

/// Why a client could not start.
#[derive(Debug)]
pub enum ClientErr {
    IoError(std::io::Error),
    NonBlockingFailed,
    LoginFailed,
    StartupFailed,
}

impl ClientErr {
    /// The error that an I/O operation failed with.
    pub fn from(value: std::io::Error) -> (r: ClientErr)
        ensures
            r == ClientErr::IoError(value),
    {
        ClientErr::IoError(value)
    }
}

/// Checks the server's reply to a login.
pub fn check_login(reply: &Option<Package>) -> (r: Result<(), ClientErr>)
    ensures
        r is Ok <==> (reply matches Some(p) && p@.cmd == "ack"@),
        r matches Err(e) ==> e is LoginFailed,
{
    if login_accepted(reply) {
        Ok(())
    } else {
        Err(ClientErr::LoginFailed)
    }
}

/// Whether a reply arrived and is the response `Ack`.
pub open spec fn acknowledged(reply: Option<Package>) -> bool {
    match reply {
        Some(p) => response_of(p@) == Ok::<ResponseView, ParseErrorView>(ResponseView::Ack),
        None => false,
    }
}

/// Checks the server's reply to `listen`: the client may start if the reply
/// is an acknowledgement and the connection is still alive.
pub fn check_listen(reply: Option<Package>, alive: bool) -> (r: Result<(), ClientErr>)
    ensures
        r is Ok <==> alive && acknowledged(reply),
        r matches Err(e) ==> e is StartupFailed,
{
    let acked = match reply {
        Some(pkg) => match Response::try_from(pkg) {
            Ok(Response::Ack) => true,
            _ => false,
        },
        None => false,
    };
    if acked && alive {
        Ok(())
    } else {
        Err(ClientErr::StartupFailed)
    }
}

/// The line in which the listening client shows a message: the sender in
/// brackets, then the text.
pub open spec fn listen_text(f: Frame) -> Option<Seq<char>> {
    match response_of(f) {
        Ok(ResponseView::Msg(_, name, msg)) => Some("["@ + name + "] "@ + msg),
        _ => None,
    }
}

/// The line in which the listening client shows a message; `None` if the
/// package is no message.
pub fn listen_line(pkg: Package) -> (r: Option<String>)
    ensures
        match r {
            Some(line) => listen_text(pkg@) == Some(line@),
            None => listen_text(pkg@) is None,
        },
{
    match Response::try_from(pkg) {
        Ok(Response::Msg(_, name, msg)) => {
            let mut line = String::from_str("[");
            line.append(name.as_str());
            line.append("] ");
            line.append(msg.as_str());
            Some(line)
        },
        _ => None,
    }
}

/// Reads the user's name out of the first package that the primary client
/// sends when a secondary client attaches.
pub fn expect_name(reply: Option<Package>) -> (r: Result<String, ClientErr>)
    ensures
        match r {
            Ok(name) => reply matches Some(p) && comm_of(p@) == Some(CommView::Name(name@)),
            Err(e) => e is StartupFailed && !(reply matches Some(p) && comm_of(p@) matches Some(
                CommView::Name(_),
            )),
        },
{
    match reply {
        Some(pkg) => match InterClientComm::try_from(pkg) {
            Ok(InterClientComm::Name(name)) => Ok(name),
            _ => Err(ClientErr::StartupFailed),
        },
        None => Err(ClientErr::StartupFailed),
    }
}

/// Reads the joined channels out of the second package that the primary
/// client sends when a secondary client attaches.
pub fn expect_channels(reply: Option<Package>) -> (r: Result<Vec<String>, ClientErr>)
    ensures
        match r {
            Ok(list) => reply matches Some(p) && comm_of(p@) == Some(
                CommView::Channels(list.deep_view()),
            ),
            Err(e) => e is StartupFailed && !(reply matches Some(p) && comm_of(p@) matches Some(
                CommView::Channels(_),
            )),
        },
{
    match reply {
        Some(pkg) => match InterClientComm::try_from(pkg) {
            Ok(InterClientComm::Channels(list)) => Ok(list),
            _ => Err(ClientErr::StartupFailed),
        },
        None => Err(ClientErr::StartupFailed),
    }
}

/// Reads the blocked users out of the third package that the primary client
/// sends when a secondary client attaches.
pub fn expect_blocked(reply: Option<Package>) -> (r: Result<Vec<String>, ClientErr>)
    ensures
        match r {
            Ok(list) => reply matches Some(p) && comm_of(p@) == Some(
                CommView::Blocked(list.deep_view()),
            ),
            Err(e) => e is StartupFailed && !(reply matches Some(p) && comm_of(p@) matches Some(
                CommView::Blocked(_),
            )),
        },
{
    match reply {
        Some(pkg) => match InterClientComm::try_from(pkg) {
            Ok(InterClientComm::Blocked(list)) => Ok(list),
            _ => Err(ClientErr::StartupFailed),
        },
        None => Err(ClientErr::StartupFailed),
    }
}

/// The two parts of a connection string `name@address`: what precedes the
/// first `@` and what follows it.
pub open spec fn conn_parts(conn: Seq<char>) -> Option<(Seq<char>, Seq<char>)> {
    let k = find(conn, '@');
    if 0 <= k < conn.len() {
        Some((conn.take(k), conn.skip(k + 1)))
    } else {
        None
    }
}

/// Splits a connection string `name@address` at its first `@`; `None` if it holds none.
pub fn conn_str(conn: &str) -> (r: Option<(String, String)>)
    ensures
        match r {
            Some(p) => conn_parts(conn@) == Some((p.0@, p.1@)),
            None => conn_parts(conn@) is None,
        },
{
    let v = chars_of(conn);
    let n: usize = v.len();
    let k = position(&v, 0, n, '@');
    assert(v@.subrange(0, n as int) == conn@);
    if k == n {
        return None;
    }
    let name = string_of(&v, 0, k);
    let addr = string_of(&v, k + 1, n);
    assert(v@.subrange(0, k as int) == conn@.take(k as int));
    assert(v@.subrange(k + 1, n as int) == conn@.skip(k + 1));
    Some((name, addr))
}

} // verus!
