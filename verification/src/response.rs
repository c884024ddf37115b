//! Responses the server sends to a client.
//!
//! `Ack`, `Error` and `Info` answer a request, one response per request and in
//! the order of the requests. `Msg` is pushed to a client at any time.

use vstd::prelude::*;
use vstd::string::*;
use crate::move_vec;
use crate::package::{Frame, Package};
use crate::text::same_text;

verus! {

/// Why a package is not a request or a response.
#[derive(Debug, PartialEq, Eq)]
pub enum PackageParseError {
    /// The command is not known.
    UnknownCmd(String),
    /// The command needs more arguments; the text lists the expected ones.
    MissingArgs(&'static str),
}

/// The mathematical content of a `PackageParseError`.
pub enum ParseErrorView {
    UnknownCmd(Seq<char>),
    MissingArgs(Seq<char>),
}

impl View for PackageParseError {
    type V = ParseErrorView;

    open spec fn view(&self) -> ParseErrorView {
        match self {
            PackageParseError::UnknownCmd(cmd) => ParseErrorView::UnknownCmd(cmd@),
            PackageParseError::MissingArgs(args) => ParseErrorView::MissingArgs(args@),
        }
    }
}

/// The text that describes a parse error.
pub open spec fn parse_error_text(e: ParseErrorView) -> Seq<char> {
    match e {
        ParseErrorView::UnknownCmd(cmd) => "unknown command "@ + cmd,
        ParseErrorView::MissingArgs(args) => "insufficient args provided, expected ["@ + args
            + "]"@,
    }
}

impl PackageParseError {
    /// The text that describes the error.
    pub fn message(&self) -> (r: String)
        ensures
            r@ == parse_error_text(self@),
    {
        match self {
            PackageParseError::UnknownCmd(cmd) => {
                let mut r = String::from_str("unknown command ");
                r.append(cmd.as_str());
                r
            },
            PackageParseError::MissingArgs(args) => {
                let mut r = String::from_str("insufficient args provided, expected [");
                r.append(args);
                r.append("]");
                r
            },
        }
    }
}

/// The first string of `args`, if there is one.
pub fn take_one(args: Vec<String>) -> (r: Option<String>)
    ensures
        r is Some <==> args@.len() >= 1,
        r matches Some(a) ==> a@ == args.deep_view()[0],
{
    match move_vec::<1>(args) {
        Some(arr) => {
            assert(arr@[0] == args@[0]);
            Some(arr[0].clone())
        },
        None => None,
    }
}

/// The first two strings of `args`, if there are two.
pub fn take_two(args: Vec<String>) -> (r: Option<(String, String)>)
    ensures
        r is Some <==> args@.len() >= 2,
        r matches Some(p) ==> p.0@ == args.deep_view()[0] && p.1@ == args.deep_view()[1],
{
    match move_vec::<2>(args) {
        Some(arr) => {
            assert(arr@[0] == args@[0]);
            assert(arr@[1] == args@[1]);
            Some((arr[0].clone(), arr[1].clone()))
        },
        None => None,
    }
}

/// The first three strings of `args`, if there are three.
pub fn take_three(args: Vec<String>) -> (r: Option<(String, String, String)>)
    ensures
        r is Some <==> args@.len() >= 3,
        r matches Some(p) ==> p.0@ == args.deep_view()[0] && p.1@ == args.deep_view()[1] && p.2@
            == args.deep_view()[2],
{
    match move_vec::<3>(args) {
        Some(arr) => {
            assert(arr@[0] == args@[0]);
            assert(arr@[1] == args@[1]);
            assert(arr@[2] == args@[2]);
            Some((arr[0].clone(), arr[1].clone(), arr[2].clone()))
        },
        None => None,
    }
}

/// A response of the server.
#[derive(Debug, PartialEq, Eq)]
pub enum Response {
    /// The request succeeded; there is nothing to tell.
    Ack,
    /// The request failed, for the given reason.
    Error(String),
    /// The request succeeded; the data asked for is attached.
    Info(Vec<String>),
    /// A message: channel, sender, text.
    Msg(String, String, String),
}

/// The mathematical content of a `Response`.
pub enum ResponseView {
    Ack,
    Error(Seq<char>),
    Info(Seq<Seq<char>>),
    Msg(Seq<char>, Seq<char>, Seq<char>),
}

impl View for Response {
    type V = ResponseView;

    open spec fn view(&self) -> ResponseView {
        match self {
            Response::Ack => ResponseView::Ack,
            Response::Error(why) => ResponseView::Error(why@),
            Response::Info(data) => ResponseView::Info(data.deep_view()),
            Response::Msg(channel, name, msg) => ResponseView::Msg(channel@, name@, msg@),
        }
    }
}

/// The frame that carries a response.
pub open spec fn response_frame(r: ResponseView) -> Frame {
    match r {
        ResponseView::Ack => Frame { cmd: "ack"@, args: seq![] },
        ResponseView::Error(why) => Frame { cmd: "err"@, args: seq![why] },
        ResponseView::Info(data) => Frame { cmd: "info"@, args: data },
        ResponseView::Msg(channel, name, msg) => Frame {
            cmd: "msg"@,
            args: seq![channel, name, msg],
        },
    }
}

/// The response that a frame carries.
///
/// Arguments beyond those that the command takes are ignored.
pub open spec fn response_of(f: Frame) -> Result<ResponseView, ParseErrorView> {
    if f.cmd == "ack"@ {
        Ok(ResponseView::Ack)
    } else if f.cmd == "err"@ {
        if f.args.len() >= 1 {
            Ok(ResponseView::Error(f.args[0]))
        } else {
            Err(ParseErrorView::MissingArgs("why"@))
        }
    } else if f.cmd == "info"@ {
        Ok(ResponseView::Info(f.args))
    } else if f.cmd == "msg"@ {
        if f.args.len() >= 3 {
            Ok(ResponseView::Msg(f.args[0], f.args[1], f.args[2]))
        } else {
            Err(ParseErrorView::MissingArgs("channel, name, msg"@))
        }
    } else {
        Err(ParseErrorView::UnknownCmd(f.cmd))
    }
}

/// Whether a parse result carries the given content.
pub open spec fn response_result_is(
    r: Result<Response, PackageParseError>,
    m: Result<ResponseView, ParseErrorView>,
) -> bool {
    match r {
        Ok(v) => m == Ok::<ResponseView, ParseErrorView>(v@),
        Err(e) => m == Err::<ResponseView, ParseErrorView>(e@),
    }
}

impl Response {
    /// Whether this response counts towards a client's offenses.
    pub fn is_bad(&self) -> (r: bool)
        ensures
            r == (self@ is Error),
    {
        match self {
            Response::Error(_) => true,
            _ => false,
        }
    }

    /// An `Error` response with the given reason.
    pub fn err(why: &str) -> (r: Response)
        ensures
            r@ == ResponseView::Error(why@),
    {
        Response::Error(String::from_str(why))
    }

    /// An `Info` response with the given data.
    pub fn info(data: Vec<String>) -> (r: Response)
        ensures
            r@ == ResponseView::Info(data.deep_view()),
    {
        Response::Info(data)
    }

    /// A `Msg` response.
    pub fn msg(channel: &str, name: &str, msg: &str) -> (r: Response)
        ensures
            r@ == ResponseView::Msg(channel@, name@, msg@),
    {
        Response::Msg(String::from_str(channel), String::from_str(name), String::from_str(msg))
    }

    /// The package that carries this response.
    pub fn package(self) -> (r: Package)
        ensures
            r@ == response_frame(self@),
    {
        match self {
            Response::Ack => {
                let args: Vec<String> = Vec::new();
                assert(args.deep_view() == Seq::<Seq<char>>::empty());
                Package { cmd: String::from_str("ack"), args }
            },
            Response::Error(why) => {
                let mut args: Vec<String> = Vec::new();
                args.push(why);
                assert(args.deep_view() == seq![why@]);
                Package { cmd: String::from_str("err"), args }
            },
            Response::Info(data) => Package { cmd: String::from_str("info"), args: data },
            Response::Msg(channel, name, msg) => {
                let mut args: Vec<String> = Vec::new();
                args.push(channel);
                args.push(name);
                args.push(msg);
                assert(args.deep_view() == seq![channel@, name@, msg@]);
                Package { cmd: String::from_str("msg"), args }
            },
        }
    }

    /// Reads a response out of a package.
    pub fn try_from(value: Package) -> (r: Result<Response, PackageParseError>)
        ensures
            response_result_is(r, response_of(value@)),
    {
        let Package { cmd, args } = value;
        if same_text(cmd.as_str(), "ack") {
            Ok(Response::Ack)
        } else if same_text(cmd.as_str(), "err") {
            match take_one(args) {
                Some(why) => Ok(Response::Error(why)),
                None => Err(PackageParseError::MissingArgs("why")),
            }
        } else if same_text(cmd.as_str(), "info") {
            Ok(Response::Info(args))
        } else if same_text(cmd.as_str(), "msg") {
            match take_three(args) {
                Some((channel, name, msg)) => Ok(Response::Msg(channel, name, msg)),
                None => Err(PackageParseError::MissingArgs("channel, name, msg")),
            }
        } else {
            Err(PackageParseError::UnknownCmd(cmd))
        }
    }
}

/// Reading back the frame of a response gives the response.
pub proof fn lemma_response_round_trip(r: ResponseView)
    ensures
        response_of(response_frame(r)) == Ok::<ResponseView, ParseErrorView>(r),
{
    reveal_strlit("ack");
    reveal_strlit("err");
    reveal_strlit("info");
    reveal_strlit("msg");
    assert("err"@[0] != "ack"@[0]);
    assert("info"@[0] != "ack"@[0]);
    assert("info"@[0] != "err"@[0]);
    assert("msg"@[0] != "ack"@[0]);
    assert("msg"@[0] != "err"@[0]);
    assert("msg"@[0] != "info"@[0]);
}

} // verus!
