//! Requests a client can make to a server.
//!
//! Each request is answered by exactly one synchronous response.

use vstd::prelude::*;
use vstd::string::*;
use crate::package::{Frame, Package};
use crate::response::{
    response_frame, take_one, take_two, PackageParseError, ParseErrorView, Response, ResponseView,
};
use crate::text::{chars_of, same_text};

verus! {

/// A request of a client.
#[derive(Debug, PartialEq, Eq)]
pub enum Request {
    /// Log into a server with the given name.
    Login(String),
    /// Listen to the global channel as a passive client.
    Listen,
    /// Check whether the connection still works.
    Ping,
    /// Post a message to a channel; the empty name is the global channel.
    Post(String, String),
    /// Send a message to another user.
    Send(String, String),
    /// List the users that have joined a channel.
    Names(String),
    /// Ask for the name of the server.
    About,
    /// Ask for the features that the server supports.
    Features,
    /// Create a channel; an empty password leaves it open.
    NewChannel(String, String),
    /// List all channels.
    ListChannels,
    /// Join a channel.
    Subscribe(String, String),
    /// Leave a channel.
    Unsubscribe(String),
    /// Refuse direct messages from and to a user.
    Block(String),
    /// Undo an earlier `Block`.
    Unblock(String),
    /// Ask how often the caller has offended the server.
    Offenses,
    /// Take one offense off another user.
    Pardon(String),
}

/// The mathematical content of a `Request`.
pub enum RequestView {
    Login(Seq<char>),
    Listen,
    Ping,
    Post(Seq<char>, Seq<char>),
    Send(Seq<char>, Seq<char>),
    Names(Seq<char>),
    About,
    Features,
    NewChannel(Seq<char>, Seq<char>),
    ListChannels,
    Subscribe(Seq<char>, Seq<char>),
    Unsubscribe(Seq<char>),
    Block(Seq<char>),
    Unblock(Seq<char>),
    Offenses,
    Pardon(Seq<char>),
}

impl View for Request {
    type V = RequestView;

    open spec fn view(&self) -> RequestView {
        match self {
            Request::Login(name) => RequestView::Login(name@),
            Request::Listen => RequestView::Listen,
            Request::Ping => RequestView::Ping,
            Request::Post(channel, msg) => RequestView::Post(channel@, msg@),
            Request::Send(name, msg) => RequestView::Send(name@, msg@),
            Request::Names(channel) => RequestView::Names(channel@),
            Request::About => RequestView::About,
            Request::Features => RequestView::Features,
            Request::NewChannel(channel, password) => RequestView::NewChannel(channel@, password@),
            Request::ListChannels => RequestView::ListChannels,
            Request::Subscribe(channel, password) => RequestView::Subscribe(channel@, password@),
            Request::Unsubscribe(channel) => RequestView::Unsubscribe(channel@),
            Request::Block(name) => RequestView::Block(name@),
            Request::Unblock(name) => RequestView::Unblock(name@),
            Request::Offenses => RequestView::Offenses,
            Request::Pardon(name) => RequestView::Pardon(name@),
        }
    }
}

impl DeepView for Request {
    type V = RequestView;

    open spec fn deep_view(&self) -> RequestView {
        self@
    }
}

/// The frame that carries a request.
pub open spec fn request_frame(r: RequestView) -> Frame {
    match r {
        RequestView::Login(name) => Frame { cmd: "login"@, args: seq![name] },
        RequestView::Listen => Frame { cmd: "listen"@, args: seq![] },
        RequestView::Ping => Frame { cmd: "ping"@, args: seq![] },
        RequestView::Post(channel, msg) => Frame { cmd: "post"@, args: seq![channel, msg] },
        RequestView::Send(name, msg) => Frame { cmd: "send"@, args: seq![name, msg] },
        RequestView::Names(channel) => Frame { cmd: "names"@, args: seq![channel] },
        RequestView::About => Frame { cmd: "about"@, args: seq![] },
        RequestView::Features => Frame { cmd: "features"@, args: seq![] },
        RequestView::NewChannel(channel, password) => Frame { cmd: "new_channel"@, args: seq![channel, password] },
        RequestView::ListChannels => Frame { cmd: "list_channels"@, args: seq![] },
        RequestView::Subscribe(channel, password) => Frame { cmd: "subscribe"@, args: seq![channel, password] },
        RequestView::Unsubscribe(channel) => Frame { cmd: "unsubscribe"@, args: seq![channel] },
        RequestView::Block(name) => Frame { cmd: "block"@, args: seq![name] },
        RequestView::Unblock(name) => Frame { cmd: "unblock"@, args: seq![name] },
        RequestView::Offenses => Frame { cmd: "offenses"@, args: seq![] },
        RequestView::Pardon(name) => Frame { cmd: "pardon"@, args: seq![name] },
    }
}

/// The request that a frame carries.
///
/// Arguments beyond those that the command takes are ignored.
pub open spec fn request_of(f: Frame) -> Result<RequestView, ParseErrorView> {
    if f.cmd == "login"@ {
        if f.args.len() >= 1 {
            Ok(RequestView::Login(f.args[0]))
        } else {
            Err(ParseErrorView::MissingArgs("name"@))
        }
    } else if f.cmd == "listen"@ {
        Ok(RequestView::Listen)
    } else if f.cmd == "ping"@ {
        Ok(RequestView::Ping)
    } else if f.cmd == "post"@ {
        if f.args.len() >= 2 {
            Ok(RequestView::Post(f.args[0], f.args[1]))
        } else {
            Err(ParseErrorView::MissingArgs("channel, msg"@))
        }
    } else if f.cmd == "send"@ {
        if f.args.len() >= 2 {
            Ok(RequestView::Send(f.args[0], f.args[1]))
        } else {
            Err(ParseErrorView::MissingArgs("name, msg"@))
        }
    } else if f.cmd == "names"@ {
        if f.args.len() >= 1 {
            Ok(RequestView::Names(f.args[0]))
        } else {
            Err(ParseErrorView::MissingArgs("channel"@))
        }
    } else if f.cmd == "about"@ {
        Ok(RequestView::About)
    } else if f.cmd == "features"@ {
        Ok(RequestView::Features)
    } else if f.cmd == "new_channel"@ {
        if f.args.len() >= 2 {
            Ok(RequestView::NewChannel(f.args[0], f.args[1]))
        } else {
            Err(ParseErrorView::MissingArgs("channel, password"@))
        }
    } else if f.cmd == "list_channels"@ {
        Ok(RequestView::ListChannels)
    } else if f.cmd == "subscribe"@ {
        if f.args.len() >= 2 {
            Ok(RequestView::Subscribe(f.args[0], f.args[1]))
        } else {
            Err(ParseErrorView::MissingArgs("channel, password"@))
        }
    } else if f.cmd == "unsubscribe"@ {
        if f.args.len() >= 1 {
            Ok(RequestView::Unsubscribe(f.args[0]))
        } else {
            Err(ParseErrorView::MissingArgs("channel"@))
        }
    } else if f.cmd == "block"@ {
        if f.args.len() >= 1 {
            Ok(RequestView::Block(f.args[0]))
        } else {
            Err(ParseErrorView::MissingArgs("name"@))
        }
    } else if f.cmd == "unblock"@ {
        if f.args.len() >= 1 {
            Ok(RequestView::Unblock(f.args[0]))
        } else {
            Err(ParseErrorView::MissingArgs("name"@))
        }
    } else if f.cmd == "offenses"@ {
        Ok(RequestView::Offenses)
    } else if f.cmd == "pardon"@ {
        if f.args.len() >= 1 {
            Ok(RequestView::Pardon(f.args[0]))
        } else {
            Err(ParseErrorView::MissingArgs("name"@))
        }
    } else {
        Err(ParseErrorView::UnknownCmd(f.cmd))
    }
}

/// Whether `c` may occur in the name of a user or a channel: an ASCII letter,
/// an ASCII digit or the underscore.
pub open spec fn ident_char(c: char) -> bool {
    ('a' <= c && c <= 'z') || ('A' <= c && c <= 'Z') || ('0' <= c && c <= '9') || c == '_'
}

/// Whether `s` can name a user or a channel. The empty name passes.
pub open spec fn ident_ok(s: Seq<char>) -> bool {
    forall|i: int| 0 <= i < s.len() ==> ident_char(#[trigger] s[i])
}

/// Whether the user or channel that a request names is a valid identifier.
pub open spec fn idents_ok(r: RequestView) -> bool {
    match r {
        RequestView::Login(name) => ident_ok(name),
        RequestView::Post(channel, _) => ident_ok(channel),
        RequestView::Send(name, _) => ident_ok(name),
        RequestView::Names(channel) => ident_ok(channel),
        RequestView::NewChannel(channel, _) => ident_ok(channel),
        RequestView::Subscribe(channel, _) => ident_ok(channel),
        RequestView::Unsubscribe(channel) => ident_ok(channel),
        RequestView::Block(name) => ident_ok(name),
        RequestView::Unblock(name) => ident_ok(name),
        RequestView::Pardon(name) => ident_ok(name),
        _ => true,
    }
}

/// Reasons for which a request is rejected at once.
#[derive(Debug, PartialEq, Eq)]
pub enum RequestErr {
    InvalidName,
    InvalidChannel,
    ParseErr(PackageParseError),
}

/// The mathematical content of a `RequestErr`.
pub enum RequestErrView {
    InvalidName,
    InvalidChannel,
    ParseErr(ParseErrorView),
}

impl View for RequestErr {
    type V = RequestErrView;

    open spec fn view(&self) -> RequestErrView {
        match self {
            RequestErr::InvalidName => RequestErrView::InvalidName,
            RequestErr::InvalidChannel => RequestErrView::InvalidChannel,
            RequestErr::ParseErr(e) => RequestErrView::ParseErr(e@),
        }
    }
}

/// The response that tells a client why its request was rejected.
pub open spec fn rejection(e: RequestErrView) -> ResponseView {
    match e {
        RequestErrView::InvalidName => ResponseView::Error("invalid name"@),
        RequestErrView::InvalidChannel => ResponseView::Error("invalid channel"@),
        RequestErrView::ParseErr(err) => ResponseView::Error(crate::response::parse_error_text(err)),
    }
}

/// The validated request that a frame carries: the frame must carry a request,
/// and the name in it must be a valid identifier.
pub open spec fn parsed(f: Frame) -> Result<RequestView, RequestErrView> {
    match request_of(f) {
        Ok(r) => if idents_ok(r) {
            Ok(r)
        } else {
            Err(RequestErrView::InvalidName)
        },
        Err(e) => Err(RequestErrView::ParseErr(e)),
    }
}

/// Whether a parse result carries the given content.
pub open spec fn request_result_is(
    r: Result<Request, PackageParseError>,
    m: Result<RequestView, ParseErrorView>,
) -> bool {
    match r {
        Ok(v) => m == Ok::<RequestView, ParseErrorView>(v@),
        Err(e) => m == Err::<RequestView, ParseErrorView>(e@),
    }
}

/// Whether a validation result carries the given content.
pub open spec fn parsed_result_is(
    r: Result<Request, RequestErr>,
    m: Result<RequestView, RequestErrView>,
) -> bool {
    match r {
        Ok(v) => m == Ok::<RequestView, RequestErrView>(v@),
        Err(e) => m == Err::<RequestView, RequestErrView>(e@),
    }
}

/// Whether `ident` can name a user or a channel.
pub fn is_ident_ok(ident: &str) -> (r: bool)
    ensures
        r == ident_ok(ident@),
{
    let v = chars_of(ident);
    let mut i: usize = 0;
    while i < v.len()
        invariant
            i <= v.len(),
            v@ == ident@,
            forall|j: int| 0 <= j < i ==> ident_char(#[trigger] v@[j]),
        decreases v.len() - i,
    {
        let c: char = v[i];
        let ok = ('a' <= c && c <= 'z') || ('A' <= c && c <= 'Z') || ('0' <= c && c <= '9') || c
            == '_';
        if !ok {
            assert(!ident_char(ident@[i as int]));
            return false;
        }
        i += 1;
    }
    true
}

impl Request {
    /// The request `Login`.
    pub fn login(name: &str) -> (r: Request)
        ensures
            r@ == RequestView::Login(name@),
    {
        Request::Login(String::from_str(name))
    }

    /// The request `Post`.
    pub fn post(channel: &str, msg: &str) -> (r: Request)
        ensures
            r@ == RequestView::Post(channel@, msg@),
    {
        Request::Post(String::from_str(channel), String::from_str(msg))
    }

    /// The request `Send`.
    pub fn send(name: &str, msg: &str) -> (r: Request)
        ensures
            r@ == RequestView::Send(name@, msg@),
    {
        Request::Send(String::from_str(name), String::from_str(msg))
    }

    /// The request `Names`.
    pub fn names(channel: &str) -> (r: Request)
        ensures
            r@ == RequestView::Names(channel@),
    {
        Request::Names(String::from_str(channel))
    }

    /// The request `NewChannel`.
    pub fn new_channel(channel: &str, password: &str) -> (r: Request)
        ensures
            r@ == RequestView::NewChannel(channel@, password@),
    {
        Request::NewChannel(String::from_str(channel), String::from_str(password))
    }

    /// The request `Subscribe`.
    pub fn subscribe(channel: &str, password: &str) -> (r: Request)
        ensures
            r@ == RequestView::Subscribe(channel@, password@),
    {
        Request::Subscribe(String::from_str(channel), String::from_str(password))
    }

    /// The request `Unsubscribe`.
    pub fn unsubscribe(channel: &str) -> (r: Request)
        ensures
            r@ == RequestView::Unsubscribe(channel@),
    {
        Request::Unsubscribe(String::from_str(channel))
    }

    /// The request `Block`.
    pub fn block(name: &str) -> (r: Request)
        ensures
            r@ == RequestView::Block(name@),
    {
        Request::Block(String::from_str(name))
    }

    /// The request `Unblock`.
    pub fn unblock(name: &str) -> (r: Request)
        ensures
            r@ == RequestView::Unblock(name@),
    {
        Request::Unblock(String::from_str(name))
    }

    /// The request `Pardon`.
    pub fn pardon(name: &str) -> (r: Request)
        ensures
            r@ == RequestView::Pardon(name@),
    {
        Request::Pardon(String::from_str(name))
    }

    /// The package that carries this request.
    pub fn package(self) -> (r: Package)
        ensures
            r@ == request_frame(self@),
    {
        match self {
            Request::Login(name) => {
                let mut args: Vec<String> = Vec::new();
                args.push(name);
                assert(args.deep_view() == seq![name@]);
                Package { cmd: String::from_str("login"), args }
            },
            Request::Listen => Package { cmd: String::from_str("listen"), args: no_args() },
            Request::Ping => Package { cmd: String::from_str("ping"), args: no_args() },
            Request::Post(channel, msg) => {
                let mut args: Vec<String> = Vec::new();
                args.push(channel);
                args.push(msg);
                assert(args.deep_view() == seq![channel@, msg@]);
                Package { cmd: String::from_str("post"), args }
            },
            Request::Send(name, msg) => {
                let mut args: Vec<String> = Vec::new();
                args.push(name);
                args.push(msg);
                assert(args.deep_view() == seq![name@, msg@]);
                Package { cmd: String::from_str("send"), args }
            },
            Request::Names(channel) => {
                let mut args: Vec<String> = Vec::new();
                args.push(channel);
                assert(args.deep_view() == seq![channel@]);
                Package { cmd: String::from_str("names"), args }
            },
            Request::About => Package { cmd: String::from_str("about"), args: no_args() },
            Request::Features => Package { cmd: String::from_str("features"), args: no_args() },
            Request::NewChannel(channel, password) => {
                let mut args: Vec<String> = Vec::new();
                args.push(channel);
                args.push(password);
                assert(args.deep_view() == seq![channel@, password@]);
                Package { cmd: String::from_str("new_channel"), args }
            },
            Request::ListChannels => Package { cmd: String::from_str("list_channels"), args: no_args() },
            Request::Subscribe(channel, password) => {
                let mut args: Vec<String> = Vec::new();
                args.push(channel);
                args.push(password);
                assert(args.deep_view() == seq![channel@, password@]);
                Package { cmd: String::from_str("subscribe"), args }
            },
            Request::Unsubscribe(channel) => {
                let mut args: Vec<String> = Vec::new();
                args.push(channel);
                assert(args.deep_view() == seq![channel@]);
                Package { cmd: String::from_str("unsubscribe"), args }
            },
            Request::Block(name) => {
                let mut args: Vec<String> = Vec::new();
                args.push(name);
                assert(args.deep_view() == seq![name@]);
                Package { cmd: String::from_str("block"), args }
            },
            Request::Unblock(name) => {
                let mut args: Vec<String> = Vec::new();
                args.push(name);
                assert(args.deep_view() == seq![name@]);
                Package { cmd: String::from_str("unblock"), args }
            },
            Request::Offenses => Package { cmd: String::from_str("offenses"), args: no_args() },
            Request::Pardon(name) => {
                let mut args: Vec<String> = Vec::new();
                args.push(name);
                assert(args.deep_view() == seq![name@]);
                Package { cmd: String::from_str("pardon"), args }
            },
        }
    }

    /// Reads a request out of a package.
    pub fn try_from(value: Package) -> (r: Result<Request, PackageParseError>)
        ensures
            request_result_is(r, request_of(value@)),
    {
        let Package { cmd, args } = value;
        if same_text(cmd.as_str(), "login") {
            match take_one(args) {
                Some(name) => Ok(Request::Login(name)),
                None => Err(PackageParseError::MissingArgs("name")),
            }
        } else if same_text(cmd.as_str(), "listen") {
            Ok(Request::Listen)
        } else if same_text(cmd.as_str(), "ping") {
            Ok(Request::Ping)
        } else if same_text(cmd.as_str(), "post") {
            match take_two(args) {
                Some((channel, msg)) => Ok(Request::Post(channel, msg)),
                None => Err(PackageParseError::MissingArgs("channel, msg")),
            }
        } else if same_text(cmd.as_str(), "send") {
            match take_two(args) {
                Some((name, msg)) => Ok(Request::Send(name, msg)),
                None => Err(PackageParseError::MissingArgs("name, msg")),
            }
        } else if same_text(cmd.as_str(), "names") {
            match take_one(args) {
                Some(channel) => Ok(Request::Names(channel)),
                None => Err(PackageParseError::MissingArgs("channel")),
            }
        } else if same_text(cmd.as_str(), "about") {
            Ok(Request::About)
        } else if same_text(cmd.as_str(), "features") {
            Ok(Request::Features)
        } else if same_text(cmd.as_str(), "new_channel") {
            match take_two(args) {
                Some((channel, password)) => Ok(Request::NewChannel(channel, password)),
                None => Err(PackageParseError::MissingArgs("channel, password")),
            }
        } else if same_text(cmd.as_str(), "list_channels") {
            Ok(Request::ListChannels)
        } else if same_text(cmd.as_str(), "subscribe") {
            match take_two(args) {
                Some((channel, password)) => Ok(Request::Subscribe(channel, password)),
                None => Err(PackageParseError::MissingArgs("channel, password")),
            }
        } else if same_text(cmd.as_str(), "unsubscribe") {
            match take_one(args) {
                Some(channel) => Ok(Request::Unsubscribe(channel)),
                None => Err(PackageParseError::MissingArgs("channel")),
            }
        } else if same_text(cmd.as_str(), "block") {
            match take_one(args) {
                Some(name) => Ok(Request::Block(name)),
                None => Err(PackageParseError::MissingArgs("name")),
            }
        } else if same_text(cmd.as_str(), "unblock") {
            match take_one(args) {
                Some(name) => Ok(Request::Unblock(name)),
                None => Err(PackageParseError::MissingArgs("name")),
            }
        } else if same_text(cmd.as_str(), "offenses") {
            Ok(Request::Offenses)
        } else if same_text(cmd.as_str(), "pardon") {
            match take_one(args) {
                Some(name) => Ok(Request::Pardon(name)),
                None => Err(PackageParseError::MissingArgs("name")),
            }
        } else {
            Err(PackageParseError::UnknownCmd(cmd))
        }
    }

    /// Reads a request out of a package and validates the name in it.
    pub fn parse(pkg: Package) -> (r: Result<Request, RequestErr>)
        ensures
            parsed_result_is(r, parsed(pkg@)),
    {
        match Request::try_from(pkg) {
            Ok(res) => match res.check_idents() {
                Ok(()) => Ok(res),
                Err(e) => Err(e),
            },
            Err(e) => Err(RequestErr::ParseErr(e)),
        }
    }

    /// Checks the name of the user or channel in the request.
    ///
    /// Fails with `InvalidName` exactly when the request names a user or a
    /// channel and the name is not a valid identifier.
    pub fn check_idents(&self) -> (r: Result<(), RequestErr>)
        ensures
            r is Ok <==> idents_ok(self@),
            r matches Err(e) ==> e@ == RequestErrView::InvalidName,
    {
        let ok = match self {
            Request::Login(name) => is_ident_ok(name.as_str()),
            Request::Post(channel, _) => is_ident_ok(channel.as_str()),
            Request::Send(name, _) => is_ident_ok(name.as_str()),
            Request::Names(channel) => is_ident_ok(channel.as_str()),
            Request::NewChannel(channel, _) => is_ident_ok(channel.as_str()),
            Request::Subscribe(channel, _) => is_ident_ok(channel.as_str()),
            Request::Unsubscribe(channel) => is_ident_ok(channel.as_str()),
            Request::Block(name) => is_ident_ok(name.as_str()),
            Request::Unblock(name) => is_ident_ok(name.as_str()),
            Request::Pardon(name) => is_ident_ok(name.as_str()),
            _ => true,
        };
        if ok {
            Ok(())
        } else {
            Err(RequestErr::InvalidName)
        }
    }
}

/// An empty argument list.
fn no_args() -> (r: Vec<String>)
    ensures
        r.deep_view() == Seq::<Seq<char>>::empty(),
{
    let r: Vec<String> = Vec::new();
    assert(r.deep_view() == Seq::<Seq<char>>::empty());
    r
}

impl RequestErr {
    /// The rejection for a package that is no request.
    pub fn from(value: PackageParseError) -> (r: RequestErr)
        ensures
            r@ == RequestErrView::ParseErr(value@),
    {
        RequestErr::ParseErr(value)
    }

    /// The response that tells the client of the rejection.
    pub fn response(self) -> (r: Response)
        ensures
            r@ == rejection(self@),
    {
        match self {
            RequestErr::InvalidName => Response::err("invalid name"),
            RequestErr::InvalidChannel => Response::err("invalid channel"),
            RequestErr::ParseErr(err) => Response::Error(err.message()),
        }
    }

    /// The package that tells the client of the rejection.
    pub fn package(self) -> (r: Package)
        ensures
            r@ == response_frame(rejection(self@)),
    {
        self.response().package()
    }
}

} // verus!
