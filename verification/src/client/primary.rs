//! What the primary client decides: how a message is shown, where a package
//! goes, and what a secondary client is told when it attaches.

use vstd::prelude::*;
use vstd::string::*;
use crate::client::{comm_frame, comm_of, CommView, InterClientComm};
use crate::package::{Frame, Package};
use crate::response::{response_of, Response, ResponseView};
use crate::text::{chars_of, clone_strings, same_text};

verus! {

/// The line that shows a message, or nothing if the frame carries none.
///
/// A message of the global channel is shown under the sender's name, a
/// direct one with ` -> you` after it, any other with the channel's name after
/// an `@`.
pub open spec fn message_text(f: Frame) -> Option<Seq<char>> {
    match response_of(f) {
        Ok(ResponseView::Msg(channel, sender, msg)) => {
            let origin = if channel.len() == 0 {
                sender
            } else if channel == "__direct"@ {
                sender + " -> you"@
            } else {
                sender + seq!['@'] + channel
            };
            Some("["@ + origin + "] "@ + msg)
        },
        _ => None,
    }
}

/// The line that shows a message of the server; `None` if the package is no message.
pub fn message_line(pkg: Package) -> (r: Option<String>)
    ensures
        match r {
            Some(line) => message_text(pkg@) == Some(line@),
            None => message_text(pkg@) is None,
        },
{
    match Response::try_from(pkg) {
        Ok(Response::Msg(channel, sender, msg)) => {
            let mut line = String::from_str("[");
            line.append(sender.as_str());
            if channel.as_str().is_empty() {
                assert(sender@ + Seq::<char>::empty() == sender@);
            } else if same_text(channel.as_str(), "__direct") {
                line.append(" -> you");
            } else {
                line.push('@');
                line.append(channel.as_str());
            }
            line.append("] ");
            line.append(msg.as_str());
            proof {
                let origin = if channel@.len() == 0 {
                    sender@
                } else if channel@ == "__direct"@ {
                    sender@ + " -> you"@
                } else {
                    sender@ + seq!['@'] + channel@
                };
                assert(line@ == "["@ + origin + "] "@ + msg@);
            }
            Some(line)
        },
        _ => None,
    }
}

/// What the primary client does with a package of the server.
#[derive(Debug, PartialEq, Eq)]
pub enum FromServer {
    /// Show this line to the user.
    Show(String),
    /// Tell the user that the server sent a message that cannot be read.
    Invalid,
    /// Pass the package on to the secondary client, if one is attached.
    Forward(Package),
}

/// Decides what to do with a package of the server: a message is shown, any
/// other package is passed on.
pub fn route_from_server(pkg: Package) -> (r: FromServer)
    ensures
        match r {
            FromServer::Show(line) => pkg@.cmd == "msg"@ && message_text(pkg@) == Some(line@),
            FromServer::Invalid => pkg@.cmd == "msg"@ && message_text(pkg@) is None,
            FromServer::Forward(p) => pkg@.cmd != "msg"@ && p@ == pkg@,
        },
{
    if same_text(pkg.cmd.as_str(), "msg") {
        match message_line(pkg) {
            Some(line) => FromServer::Show(line),
            None => FromServer::Invalid,
        }
    } else {
        FromServer::Forward(pkg)
    }
}

/// What the primary client knows of its user.
#[derive(Debug, PartialEq, Eq)]
pub struct PrimaryState {
    pub name: String,
    pub channels: Vec<String>,
    pub blocked: Vec<String>,
}

/// The mathematical content of a `PrimaryState`.
pub struct PrimaryView {
    pub name: Seq<char>,
    pub channels: Seq<Seq<char>>,
    pub blocked: Seq<Seq<char>>,
}

impl View for PrimaryState {
    type V = PrimaryView;

    open spec fn view(&self) -> PrimaryView {
        PrimaryView {
            name: self.name@,
            channels: self.channels.deep_view(),
            blocked: self.blocked.deep_view(),
        }
    }
}

/// What the primary client does with a package of the secondary client.
#[derive(Debug, PartialEq, Eq)]
pub enum FromSecondary {
    /// Pass the package on to the server.
    Forward(Package),
    /// The package was for the primary client; nothing is left to do.
    Handled,
    /// The user asked the primary client to stop.
    Quit,
}

/// Whether the command of a package marks it as meant for the primary client.
pub open spec fn is_internal(f: Frame) -> bool {
    f.cmd.len() > 0 && f.cmd[0] == ':'
}

/// The state after a package of the secondary client: new lists of channels
/// or blocked users replace the old ones.
pub open spec fn after_secondary(s: PrimaryView, f: Frame) -> PrimaryView {
    if is_internal(f) {
        match comm_of(f) {
            Some(CommView::Channels(channels)) => PrimaryView { channels, ..s },
            Some(CommView::Blocked(blocked)) => PrimaryView { blocked, ..s },
            _ => s,
        }
    } else {
        s
    }
}

impl PrimaryState {
    /// The state of a client that has just logged in as `name`: it is in the
    /// global channel and blocks nobody.
    pub fn new(name: &str) -> (r: PrimaryState)
        ensures
            r@ == (PrimaryView { name: name@, channels: seq![Seq::<char>::empty()], blocked: seq![] }),
    {
        let mut channels: Vec<String> = Vec::new();
        channels.push(String::new());
        let blocked: Vec<String> = Vec::new();
        assert(channels.deep_view() == seq![Seq::<char>::empty()]);
        assert(blocked.deep_view() == Seq::<Seq<char>>::empty());
        PrimaryState { name: String::from_str(name), channels, blocked }
    }

    /// The packages that tell a secondary client, when it attaches, the name,
    /// the channels and the blocked users, in this order.
    pub fn greeting(&self) -> (r: Vec<Package>)
        ensures
            r.deep_view() == seq![
                comm_frame(CommView::Name(self@.name)),
                comm_frame(CommView::Channels(self@.channels)),
                comm_frame(CommView::Blocked(self@.blocked)),
            ],
    {
        let mut r: Vec<Package> = Vec::new();
        let a = InterClientComm::Name(self.name.clone()).into_package();
        let b = InterClientComm::Channels(clone_strings(&self.channels)).into_package();
        let c = InterClientComm::Blocked(clone_strings(&self.blocked)).into_package();
        r.push(a);
        r.push(b);
        r.push(c);
        assert(r.deep_view() == seq![a@, b@, c@]);
        r
    }

    /// Takes in a package of the secondary client. One whose command starts
    /// with a colon is for the primary client itself; any other goes to the
    /// server.
    pub fn on_secondary(&mut self, pkg: Package) -> (r: FromSecondary)
        ensures
            final(self)@ == after_secondary(old(self)@, pkg@),
            match r {
                FromSecondary::Forward(p) => !is_internal(pkg@) && p@ == pkg@,
                FromSecondary::Handled => is_internal(pkg@) && comm_of(pkg@) != Some(
                    CommView::Quit,
                ),
                FromSecondary::Quit => is_internal(pkg@) && comm_of(pkg@) == Some(CommView::Quit),
            },
    {
        let cmd = chars_of(pkg.cmd.as_str());
        if cmd.len() > 0 && cmd[0] == ':' {
            match InterClientComm::try_from(pkg) {
                Ok(InterClientComm::Channels(channels)) => {
                    self.channels = channels;
                    FromSecondary::Handled
                },
                Ok(InterClientComm::Blocked(blocked)) => {
                    self.blocked = blocked;
                    FromSecondary::Handled
                },
                Ok(InterClientComm::Quit) => FromSecondary::Quit,
                _ => FromSecondary::Handled,
            }
        } else {
            FromSecondary::Forward(pkg)
        }
    }
}

} // verus!
