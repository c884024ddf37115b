//! What the secondary client decides: what the user meant by a line of
//! input, what a response of the server means for a request, and how lists
//! are shown.

use vstd::prelude::*;
use vstd::string::*;
use crate::client::{comm_frame, CommView, InterClientComm};
use crate::package::Package;
use crate::requests::{Request, RequestView};
use crate::response::{
    response_of, take_two, PackageParseError, ParseErrorView, Response, ResponseView,
};
use crate::text::{chars_of, clone_strings, drop_name, holds, same_text, string_of, without};

verus! {

/// Things a user might want to do.
#[derive(Debug, PartialEq, Eq)]
pub enum UserCmd {
    DirectMsg(String, String),
    ChannelMsg(String, String),
    Help(Option<char>),
    ServerInfo,
    Quit(bool),
    Who(String),
    ChannelList,
    ChannelJoinNew(String, String),
    ChannelLeave(String),
    BlockList,
    Block(String),
    Offenses,
    Pardon(String),
    SecretHelp,
}

/// The mathematical content of a `UserCmd`.
pub enum UserCmdView {
    DirectMsg(Seq<char>, Seq<char>),
    ChannelMsg(Seq<char>, Seq<char>),
    Help(Option<char>),
    ServerInfo,
    Quit(bool),
    Who(Seq<char>),
    ChannelList,
    ChannelJoinNew(Seq<char>, Seq<char>),
    ChannelLeave(Seq<char>),
    BlockList,
    Block(Seq<char>),
    Offenses,
    Pardon(Seq<char>),
    SecretHelp,
}

impl View for UserCmd {
    type V = UserCmdView;

    open spec fn view(&self) -> UserCmdView {
        match self {
            UserCmd::DirectMsg(name, msg) => UserCmdView::DirectMsg(name@, msg@),
            UserCmd::ChannelMsg(channel, msg) => UserCmdView::ChannelMsg(channel@, msg@),
            UserCmd::Help(sub) => UserCmdView::Help(*sub),
            UserCmd::ServerInfo => UserCmdView::ServerInfo,
            UserCmd::Quit(force) => UserCmdView::Quit(*force),
            UserCmd::Who(channel) => UserCmdView::Who(channel@),
            UserCmd::ChannelList => UserCmdView::ChannelList,
            UserCmd::ChannelJoinNew(channel, password) => UserCmdView::ChannelJoinNew(
                channel@,
                password@,
            ),
            UserCmd::ChannelLeave(channel) => UserCmdView::ChannelLeave(channel@),
            UserCmd::BlockList => UserCmdView::BlockList,
            UserCmd::Block(name) => UserCmdView::Block(name@),
            UserCmd::Offenses => UserCmdView::Offenses,
            UserCmd::Pardon(name) => UserCmdView::Pardon(name@),
            UserCmd::SecretHelp => UserCmdView::SecretHelp,
        }
    }
}

/// Whether `c` is white space: a character with the Unicode property White_Space.
pub open spec fn is_space(c: char) -> bool {
    ||| ('\u{9}' <= c && c <= '\u{d}')
    ||| c == ' '
    ||| c == '\u{85}'
    ||| c == '\u{a0}'
    ||| c == '\u{1680}'
    ||| ('\u{2000}' <= c && c <= '\u{200a}')
    ||| c == '\u{2028}'
    ||| c == '\u{2029}'
    ||| c == '\u{202f}'
    ||| c == '\u{205f}'
    ||| c == '\u{3000}'
}

/// Whether `c` is white space.
pub fn is_white(c: char) -> (r: bool)
    ensures
        r == is_space(c),
{
    ('\u{9}' <= c && c <= '\u{d}') || c == ' ' || c == '\u{85}' || c == '\u{a0}' || c
        == '\u{1680}' || ('\u{2000}' <= c && c <= '\u{200a}') || c == '\u{2028}' || c
        == '\u{2029}' || c == '\u{202f}' || c == '\u{205f}' || c == '\u{3000}'
}

/// Number of white-space characters at the start of `s`.
pub open spec fn leading_space(s: Seq<char>) -> int
    decreases s.len(),
{
    if s.len() == 0 || !is_space(s[0]) {
        0
    } else {
        1 + leading_space(s.drop_first())
    }
}

/// Number of characters at the start of `s` that are no white space.
pub open spec fn leading_word(s: Seq<char>) -> int
    decreases s.len(),
{
    if s.len() == 0 || is_space(s[0]) {
        0
    } else {
        1 + leading_word(s.drop_first())
    }
}

/// `s` without the white space at its start.
pub open spec fn trimmed_start(s: Seq<char>) -> Seq<char> {
    s.skip(leading_space(s))
}

/// The words of `s`: the maximal runs of characters that are no white space.
pub open spec fn words(s: Seq<char>) -> Seq<Seq<char>>
    decreases s.len(),
{
    let t = trimmed_start(s);
    let k = leading_word(t);
    if k > 0 {
        proof {
            lemma_leading_space(s);
            lemma_leading_word(t);
        }
        seq![t.take(k)] + words(t.skip(k))
    } else {
        Seq::<Seq<char>>::empty()
    }
}

/// The run of white space at the start is within the sequence, and what follows it is none.
pub proof fn lemma_leading_space(s: Seq<char>)
    ensures
        0 <= leading_space(s) <= s.len(),
        forall|i: int| 0 <= i < leading_space(s) ==> is_space(s[i]),
        leading_space(s) < s.len() ==> !is_space(s[leading_space(s)]),
    decreases s.len(),
{
    if s.len() > 0 && is_space(s[0]) {
        let t = s.drop_first();
        lemma_leading_space(t);
        assert forall|i: int| 0 <= i < leading_space(s) implies is_space(s[i]) by {
            if i > 0 {
                assert(s[i] == t[i - 1]);
            }
        }
        if leading_space(s) < s.len() {
            assert(s[leading_space(s)] == t[leading_space(t)]);
        }
    }
}

/// The run of other characters at the start is within the sequence, and what
/// follows it is white space.
pub proof fn lemma_leading_word(s: Seq<char>)
    ensures
        0 <= leading_word(s) <= s.len(),
        forall|i: int| 0 <= i < leading_word(s) ==> !is_space(s[i]),
        leading_word(s) < s.len() ==> is_space(s[leading_word(s)]),
    decreases s.len(),
{
    if s.len() > 0 && !is_space(s[0]) {
        let t = s.drop_first();
        lemma_leading_word(t);
        assert forall|i: int| 0 <= i < leading_word(s) implies !is_space(s[i]) by {
            if i > 0 {
                assert(s[i] == t[i - 1]);
            }
        }
        if leading_word(s) < s.len() {
            assert(s[leading_word(s)] == t[leading_word(t)]);
        }
    }
}

/// A run of white space that ends before a character that is none, or at the
/// end, is the one that `leading_space` measures.
pub proof fn lemma_leading_space_is(s: Seq<char>, k: int)
    requires
        0 <= k <= s.len(),
        forall|i: int| 0 <= i < k ==> is_space(s[i]),
        k < s.len() ==> !is_space(s[k]),
    ensures
        leading_space(s) == k,
{
    lemma_leading_space(s);
    let f = leading_space(s);
    if f < k {
        assert(is_space(s[f]));
    } else if f > k {
        assert(is_space(s[k]));
    }
}

/// A run of other characters that ends before white space, or at the end, is
/// the one that `leading_word` measures.
pub proof fn lemma_leading_word_is(s: Seq<char>, k: int)
    requires
        0 <= k <= s.len(),
        forall|i: int| 0 <= i < k ==> !is_space(s[i]),
        k < s.len() ==> is_space(s[k]),
    ensures
        leading_word(s) == k,
{
    lemma_leading_word(s);
    let f = leading_word(s);
    if f < k {
        assert(is_space(s[f]));
    } else if f > k {
        assert(is_space(s[k]));
    }
}

/// The end of the run of white space that starts at `from`.
fn skip_space(v: &Vec<char>, from: usize) -> (r: usize)
    requires
        from <= v.len(),
    ensures
        from <= r <= v.len(),
        r - from == leading_space(v@.skip(from as int)),
{
    let ghost part = v@.skip(from as int);
    let mut i: usize = from;
    while i < v.len() && is_white(v[i])
        invariant
            from <= i <= v.len(),
            part == v@.skip(from as int),
            forall|j: int| 0 <= j < i - from ==> is_space(part[j]),
        decreases v.len() - i,
    {
        i += 1;
    }
    proof {
        lemma_leading_space_is(part, i - from);
    }
    i
}

/// The end of the run of characters other than white space that starts at `from`.
fn skip_word(v: &Vec<char>, from: usize) -> (r: usize)
    requires
        from <= v.len(),
    ensures
        from <= r <= v.len(),
        r - from == leading_word(v@.skip(from as int)),
{
    let ghost part = v@.skip(from as int);
    let mut i: usize = from;
    while i < v.len() && !is_white(v[i])
        invariant
            from <= i <= v.len(),
            part == v@.skip(from as int),
            forall|j: int| 0 <= j < i - from ==> !is_space(part[j]),
        decreases v.len() - i,
    {
        i += 1;
    }
    proof {
        lemma_leading_word_is(part, i - from);
    }
    i
}

/// The words of `v[from..]`.
fn split_words(v: &Vec<char>, from: usize) -> (r: Vec<String>)
    requires
        from <= v.len(),
    ensures
        r.deep_view() == words(v@.skip(from as int)),
{
    let n: usize = v.len();
    let ghost all = words(v@.skip(from as int));
    let mut r: Vec<String> = Vec::new();
    let mut at: usize = from;
    assert(r.deep_view() == Seq::<Seq<char>>::empty());
    loop
        invariant_except_break
            from <= at <= n,
            n == v.len(),
            all == r.deep_view() + words(v@.skip(at as int)),
        ensures
            all == r.deep_view(),
        decreases n - at,
    {
        let ghost s = v@.skip(at as int);
        let start = skip_space(v, at);
        let ghost t = v@.skip(start as int);
        assert(trimmed_start(s) == t);
        let end = skip_word(v, start);
        if end == start {
            assert(words(s) == Seq::<Seq<char>>::empty());
            break ;
        }
        let word = string_of(v, start, end);
        proof {
            assert(t.take(end - start) == v@.subrange(start as int, end as int));
            assert(t.skip(end - start) == v@.skip(end as int));
            assert(words(s) == seq![word@] + words(v@.skip(end as int)));
            assert(r.deep_view().push(word@) + words(v@.skip(end as int)) == all);
        }
        let ghost before = r.deep_view();
        r.push(word);
        assert(r.deep_view() == before.push(word@));
        at = end;
    }
    r
}

/// What a line of input means, or what to tell the user instead; `Err(None)`
/// stands for a line that is passed over in silence.
pub type Meaning = Result<UserCmdView, Option<Seq<char>>>;

/// The word at `i`, or the empty word where there is none.
pub open spec fn word_or_empty(args: Seq<Seq<char>>, i: int) -> Seq<char> {
    if 0 <= i < args.len() {
        args[i]
    } else {
        Seq::<char>::empty()
    }
}

/// What the text after a colon means.
///
/// The command is what precedes the first white space, its arguments are
/// the words after it.
pub open spec fn command(inp: Seq<char>) -> Meaning {
    let k = leading_word(inp);
    let cmd = inp.take(k);
    let args = if k < inp.len() {
        words(inp.skip(k + 1))
    } else {
        Seq::<Seq<char>>::empty()
    };
    if cmd == "s"@ {
        Ok(UserCmdView::ServerInfo)
    } else if cmd == "q"@ {
        Ok(UserCmdView::Quit(false))
    } else if cmd == "q!"@ {
        Ok(UserCmdView::Quit(true))
    } else if cmd == "w"@ {
        Ok(UserCmdView::Who(word_or_empty(args, 0)))
    } else if cmd == "c"@ {
        if args.len() == 0 {
            Ok(UserCmdView::ChannelList)
        } else if args[0].len() > 0 && args[0][0] == '-' {
            Ok(UserCmdView::ChannelLeave(args[0].skip(1)))
        } else if args[0].len() > 0 && args[0][0] == '+' {
            Ok(UserCmdView::ChannelJoinNew(args[0].skip(1), word_or_empty(args, 1)))
        } else {
            Ok(UserCmdView::ChannelJoinNew(args[0], word_or_empty(args, 1)))
        }
    } else if cmd == "b"@ {
        if args.len() == 0 {
            Ok(UserCmdView::BlockList)
        } else {
            Ok(UserCmdView::Block(args[0]))
        }
    } else if cmd == "o"@ {
        Ok(UserCmdView::Offenses)
    } else if cmd == "p"@ {
        if args.len() == 0 {
            Err(Some("please provide a name"@))
        } else {
            Ok(UserCmdView::Pardon(args[0]))
        }
    } else if cmd == "?!"@ {
        Ok(UserCmdView::SecretHelp)
    } else {
        Err(Some("unknown command "@ + cmd))
    }
}

/// What a line of input means.
///
/// A line that is empty or starts with a character outside ASCII is passed
/// over. Otherwise the first character decides: `@` sends a direct message,
/// `/` posts to a channel, `\` posts the rest to the global channel, `:`
/// starts a command, `?` asks for help, and any other line is posted to the
/// global channel as it is.
pub open spec fn meaning(inp: Seq<char>) -> Meaning {
    if inp.len() == 0 || inp[0] > '\u{7f}' {
        Err(None)
    } else {
        let rest = trimmed_start(inp.skip(1));
        let k = leading_word(rest);
        if inp[0] == '@' {
            if k < rest.len() {
                Ok(UserCmdView::DirectMsg(rest.take(k), rest.skip(k + 1)))
            } else {
                Err(Some("please provide name and message"@))
            }
        } else if inp[0] == '/' {
            if k < rest.len() {
                Ok(UserCmdView::ChannelMsg(rest.take(k), rest.skip(k + 1)))
            } else {
                Err(Some("please provide channel and message"@))
            }
        } else if inp[0] == '\\' {
            Ok(UserCmdView::ChannelMsg(Seq::<char>::empty(), rest))
        } else if inp[0] == ':' {
            command(rest)
        } else if inp[0] == '?' {
            Ok(
                UserCmdView::Help(
                    if rest.len() > 0 {
                        Some(rest[0])
                    } else {
                        None
                    },
                ),
            )
        } else {
            Ok(UserCmdView::ChannelMsg(Seq::<char>::empty(), inp))
        }
    }
}

/// Whether a parse result carries the given meaning.
pub open spec fn meaning_is(r: Result<UserCmd, Option<String>>, m: Meaning) -> bool {
    match r {
        Ok(cmd) => m == Ok::<UserCmdView, Option<Seq<char>>>(cmd@),
        Err(Some(text)) => m == Err::<UserCmdView, Option<Seq<char>>>(Some(text@)),
        Err(None) => m == Err::<UserCmdView, Option<Seq<char>>>(None),
    }
}

/// A copy of the word at `i`, or the empty word where there is none.
fn word_at(args: &Vec<String>, i: usize) -> (r: String)
    ensures
        r@ == word_or_empty(args.deep_view(), i as int),
{
    if i < args.len() {
        let r = args[i].clone();
        assert(r@ == args.deep_view()[i as int]);
        r
    } else {
        String::new()
    }
}

/// What the text `v[from..]` after a colon means.
fn parse_cmd_at(v: &Vec<char>, from: usize) -> (r: Result<UserCmd, Option<String>>)
    requires
        from <= v.len(),
    ensures
        meaning_is(r, command(v@.skip(from as int))),
{
    let n: usize = v.len();
    let ghost inp = v@.skip(from as int);
    let end = skip_word(v, from);
    let cmd = string_of(v, from, end);
    assert(inp.take(end - from) == v@.subrange(from as int, end as int));
    let args = if end < n {
        assert(inp.skip(end - from + 1) == v@.skip(end + 1));
        split_words(v, end + 1)
    } else {
        let none: Vec<String> = Vec::new();
        assert(none.deep_view() == Seq::<Seq<char>>::empty());
        none
    };
    let c: &str = cmd.as_str();
    if same_text(c, "s") {
        Ok(UserCmd::ServerInfo)
    } else if same_text(c, "q") {
        Ok(UserCmd::Quit(false))
    } else if same_text(c, "q!") {
        Ok(UserCmd::Quit(true))
    } else if same_text(c, "w") {
        Ok(UserCmd::Who(word_at(&args, 0)))
    } else if same_text(c, "c") {
        if args.len() == 0 {
            return Ok(UserCmd::ChannelList);
        }
        let first = chars_of(args[0].as_str());
        assert(first@ == args.deep_view()[0]);
        if first.len() > 0 && first[0] == '-' {
            let channel = string_of(&first, 1, first.len());
            assert(first@.subrange(1, first.len() as int) == first@.skip(1));
            Ok(UserCmd::ChannelLeave(channel))
        } else if first.len() > 0 && first[0] == '+' {
            let channel = string_of(&first, 1, first.len());
            assert(first@.subrange(1, first.len() as int) == first@.skip(1));
            Ok(UserCmd::ChannelJoinNew(channel, word_at(&args, 1)))
        } else {
            Ok(UserCmd::ChannelJoinNew(word_at(&args, 0), word_at(&args, 1)))
        }
    } else if same_text(c, "b") {
        if args.len() == 0 {
            Ok(UserCmd::BlockList)
        } else {
            Ok(UserCmd::Block(word_at(&args, 0)))
        }
    } else if same_text(c, "o") {
        Ok(UserCmd::Offenses)
    } else if same_text(c, "p") {
        if args.len() == 0 {
            Err(Some(String::from_str("please provide a name")))
        } else {
            Ok(UserCmd::Pardon(word_at(&args, 0)))
        }
    } else if same_text(c, "?!") {
        Ok(UserCmd::SecretHelp)
    } else {
        let mut text = String::from_str("unknown command ");
        text.append(c);
        Err(Some(text))
    }
}

/// Reads a command, the text after a colon.
pub fn parse_cmd(inp: &str) -> (r: Result<UserCmd, Option<String>>)
    ensures
        meaning_is(r, command(inp@)),
{
    let v = chars_of(inp);
    assert(v@.skip(0) == inp@);
    parse_cmd_at(&v, 0)
}

/// Tries to figure out what the user intended to do.
///
/// `Err` holds what to tell the user, or nothing where the line is passed over.
pub fn parse_input(inp: &str) -> (r: Result<UserCmd, Option<String>>)
    ensures
        meaning_is(r, meaning(inp@)),
{
    let v = chars_of(inp);
    let n: usize = v.len();
    if n == 0 || v[0] > '\u{7f}' {
        return Err(None);
    }
    let first: char = v[0];
    let start = skip_space(&v, 1);
    let ghost rest = v@.skip(start as int);
    assert(trimmed_start(inp@.skip(1)) == rest);
    if first == '@' || first == '/' {
        let end = skip_word(&v, start);
        if end >= n {
            if first == '@' {
                return Err(Some(String::from_str("please provide name and message")));
            } else {
                return Err(Some(String::from_str("please provide channel and message")));
            }
        }
        let target = string_of(&v, start, end);
        let msg = string_of(&v, end + 1, n);
        assert(rest.take(end - start) == v@.subrange(start as int, end as int));
        assert(rest.skip(end - start + 1) == v@.subrange(end + 1, n as int));
        if first == '@' {
            Ok(UserCmd::DirectMsg(target, msg))
        } else {
            Ok(UserCmd::ChannelMsg(target, msg))
        }
    } else if first == '\\' {
        let msg = string_of(&v, start, n);
        assert(v@.subrange(start as int, n as int) == rest);
        Ok(UserCmd::ChannelMsg(String::new(), msg))
    } else if first == ':' {
        parse_cmd_at(&v, start)
    } else if first == '?' {
        if start < n {
            Ok(UserCmd::Help(Some(v[start])))
        } else {
            Ok(UserCmd::Help(None))
        }
    } else {
        let msg = string_of(&v, 0, n);
        assert(v@.subrange(0, n as int) == inp@);
        Ok(UserCmd::ChannelMsg(String::new(), msg))
    }
}

/// The name under which a channel is shown: the global one has a name of its own.
pub fn channel_name(chan: &str) -> (r: &str)
    ensures
        r@ == if chan@.len() == 0 {
            "<GLOBAL>"@
        } else {
            chan@
        },
{
    if chan.is_empty() {
        "<GLOBAL>"
    } else {
        chan
    }
}

/// The items of a list, separated by a comma and a space.
pub open spec fn listed(items: Seq<Seq<char>>) -> Seq<char>
    decreases items.len(),
{
    if items.len() == 0 {
        Seq::<char>::empty()
    } else if items.len() == 1 {
        items[0]
    } else {
        listed(items.drop_last()) + ", "@ + items.last()
    }
}

/// Shows a list: its items, separated by a comma and a space.
pub fn listing(items: &Vec<String>) -> (r: String)
    ensures
        r@ == listed(items.deep_view()),
{
    let ghost all = items.deep_view();
    let mut r = String::new();
    let mut i: usize = 0;
    assert(all.take(0) == Seq::<Seq<char>>::empty());
    while i < items.len()
        invariant
            i <= items.len(),
            all == items.deep_view(),
            r@ == listed(all.take(i as int)),
        decreases items.len() - i,
    {
        proof {
            let next = all.take(i + 1);
            assert(next.drop_last() == all.take(i as int));
            assert(next.last() == all[i as int]);
            if i == 0 {
                assert(r@ + all[0] == all[0]);
            }
        }
        if i > 0 {
            r.append(", ");
        }
        r.append(items[i].as_str());
        i += 1;
    }
    assert(all.take(i as int) == all);
    r
}

/// The name under which a channel is shown.
pub open spec fn shown_name(chan: Seq<char>) -> Seq<char> {
    if chan.len() == 0 {
        "<GLOBAL>"@
    } else {
        chan
    }
}

/// The entry of a channel in the list of channels: its shown name, marked
/// if the user has joined it.
pub open spec fn channel_entry(chan: Seq<char>, joined: Seq<Seq<char>>) -> Seq<char> {
    if joined.contains(chan) {
        "(*) "@ + shown_name(chan)
    } else {
        shown_name(chan)
    }
}

/// The entries of the channels `all` for a user who has joined `joined`.
pub fn channel_entries(all: &Vec<String>, joined: &Vec<String>) -> (r: Vec<String>)
    ensures
        r.deep_view() == Seq::new(
            all.deep_view().len(),
            |i: int| channel_entry(all.deep_view()[i], joined.deep_view()),
        ),
{
    let mut r: Vec<String> = Vec::new();
    let mut i: usize = 0;
    while i < all.len()
        invariant
            i <= all.len(),
            r.len() == i,
            forall|j: int|
                0 <= j < i ==> r.deep_view()[j] == channel_entry(
                    all.deep_view()[j],
                    joined.deep_view(),
                ),
        decreases all.len() - i,
    {
        let shown = channel_name(all[i].as_str());
        let entry = if holds(joined, all[i].as_str()) {
            let mut e = String::from_str("(*) ");
            e.append(shown);
            e
        } else {
            String::from_str(shown)
        };
        let ghost before = r.deep_view();
        r.push(entry);
        assert(r.deep_view() == before.push(entry@));
        i += 1;
    }
    r
}

/// Unexpected things that can occur while a command runs: an error, or the
/// user's wish to quit.
#[derive(Debug, PartialEq, Eq)]
pub enum Happenings {
    ResponseErr(PackageParseError),
    OwnMistake(String),
    ProtocolViolation,
    ServerDied,
    QuitCmd,
}

/// The mathematical content of a `Happenings`.
pub enum HappeningsView {
    ResponseErr(ParseErrorView),
    OwnMistake(Seq<char>),
    ProtocolViolation,
    ServerDied,
    QuitCmd,
}

impl View for Happenings {
    type V = HappeningsView;

    open spec fn view(&self) -> HappeningsView {
        match self {
            Happenings::ResponseErr(e) => HappeningsView::ResponseErr(e@),
            Happenings::OwnMistake(why) => HappeningsView::OwnMistake(why@),
            Happenings::ProtocolViolation => HappeningsView::ProtocolViolation,
            Happenings::ServerDied => HappeningsView::ServerDied,
            Happenings::QuitCmd => HappeningsView::QuitCmd,
        }
    }
}

/// What the server's reply to a request for data means: the data, or what happened.
pub open spec fn info_reply(reply: Option<Package>) -> Result<Seq<Seq<char>>, HappeningsView> {
    match reply {
        None => Err(HappeningsView::ServerDied),
        Some(pkg) => match response_of(pkg@) {
            Err(e) => Err(HappeningsView::ResponseErr(e)),
            Ok(ResponseView::Info(data)) => Ok(data),
            Ok(ResponseView::Error(why)) => Err(HappeningsView::OwnMistake(why)),
            Ok(_) => Err(HappeningsView::ProtocolViolation),
        },
    }
}

/// What the server's reply to a request that is only acknowledged means.
pub open spec fn ack_reply(reply: Option<Package>) -> Result<(), HappeningsView> {
    match reply {
        None => Err(HappeningsView::ServerDied),
        Some(pkg) => match response_of(pkg@) {
            Err(e) => Err(HappeningsView::ResponseErr(e)),
            Ok(ResponseView::Ack) => Ok(()),
            Ok(ResponseView::Error(why)) => Err(HappeningsView::OwnMistake(why)),
            Ok(_) => Err(HappeningsView::ProtocolViolation),
        },
    }
}

/// Reads the data out of the server's reply to a request for data; no reply
/// means that the server has gone.
pub fn expect_info(reply: Option<Package>) -> (r: Result<Vec<String>, Happenings>)
    ensures
        match r {
            Ok(data) => info_reply(reply) == Ok::<Seq<Seq<char>>, HappeningsView>(
                data.deep_view(),
            ),
            Err(h) => info_reply(reply) == Err::<Seq<Seq<char>>, HappeningsView>(h@),
        },
{
    match reply {
        None => Err(Happenings::ServerDied),
        Some(pkg) => match Response::try_from(pkg) {
            Err(e) => Err(Happenings::ResponseErr(e)),
            Ok(Response::Info(data)) => Ok(data),
            Ok(Response::Error(why)) => Err(Happenings::OwnMistake(why)),
            Ok(_) => Err(Happenings::ProtocolViolation),
        },
    }
}

/// Checks that the server's reply to a request is an acknowledgement.
pub fn expect_ack(reply: Option<Package>) -> (r: Result<(), Happenings>)
    ensures
        match r {
            Ok(_) => ack_reply(reply) == Ok::<(), HappeningsView>(()),
            Err(h) => ack_reply(reply) == Err::<(), HappeningsView>(h@),
        },
{
    match reply {
        None => Err(Happenings::ServerDied),
        Some(pkg) => match Response::try_from(pkg) {
            Err(e) => Err(Happenings::ResponseErr(e)),
            Ok(Response::Ack) => Ok(()),
            Ok(Response::Error(why)) => Err(Happenings::OwnMistake(why)),
            Ok(_) => Err(Happenings::ProtocolViolation),
        },
    }
}

/// What the user is told about something that happened, if anything.
pub open spec fn report_text(h: HappeningsView) -> Option<Seq<char>> {
    match h {
        HappeningsView::ResponseErr(e) => Some(
            "server sent invalid response: "@ + crate::response::parse_error_text(e),
        ),
        HappeningsView::OwnMistake(what) => Some("you made a mistake (or me?): "@ + what),
        HappeningsView::ProtocolViolation => Some("server violated the protocol"@),
        HappeningsView::ServerDied => Some("server died. oh no."@),
        HappeningsView::QuitCmd => None,
    }
}

impl Happenings {
    /// What to tell the user, if anything.
    pub fn report(&self) -> (r: Option<String>)
        ensures
            match r {
                Some(text) => report_text(self@) == Some(text@),
                None => report_text(self@) is None,
            },
    {
        match self {
            Happenings::ResponseErr(e) => {
                let mut text = String::from_str("server sent invalid response: ");
                text.append(e.message().as_str());
                Some(text)
            },
            Happenings::OwnMistake(what) => {
                let mut text = String::from_str("you made a mistake (or me?): ");
                text.append(what.as_str());
                Some(text)
            },
            Happenings::ProtocolViolation => Some(String::from_str("server violated the protocol")),
            Happenings::ServerDied => Some(String::from_str("server died. oh no.")),
            Happenings::QuitCmd => None,
        }
    }

    /// Whether the client stops after this: it goes on only after a mistake
    /// of the user.
    pub fn ends_session(&self) -> (r: bool)
        ensures
            r == !(self@ is OwnMistake),
    {
        match self {
            Happenings::OwnMistake(_) => false,
            _ => true,
        }
    }
}

/// The Jaro-Winkler similarity of two texts, as the bits of the number that
/// stands for it.
pub uninterp spec fn jaro_winkler_bits(a: Seq<char>, b: Seq<char>) -> u64;

/// `strsim::jaro_winkler` gives the similarity of the two texts, a number
/// between 0 and 1 that depends on the texts alone; `to_bits` hands it over
/// as an integer. Among such numbers the greater one has the greater bits.
#[verifier::external_body]
fn similarity(a: &str, b: &str) -> (r: u64)
    ensures
        r == jaro_winkler_bits(a@, b@),
{
    strsim::jaro_winkler(a, b).to_bits()
}

/// Index of the greatest of the first `n` scores, the last one among equals;
/// `-1` if there is none.
pub open spec fn best_index(scores: Seq<u64>, n: int) -> int
    decreases n,
{
    if n <= 0 {
        -1
    } else {
        let b = best_index(scores, n - 1);
        if b < 0 || scores[n - 1] >= scores[b] {
            n - 1
        } else {
            b
        }
    }
}

/// The best index is a position among the first `n`, unless there is none.
pub proof fn lemma_best_index(scores: Seq<u64>, n: int)
    requires
        0 <= n <= scores.len(),
    ensures
        n == 0 ==> best_index(scores, n) == -1,
        n > 0 ==> 0 <= best_index(scores, n) < n,
        forall|i: int| 0 <= i < n ==> #[trigger] scores[i] <= scores[best_index(scores, n)],
    decreases n,
{
    if n > 0 {
        lemma_best_index(scores, n - 1);
    }
}

/// The scores of a list of scored candidates, in order.
pub open spec fn scores_in(scored: Seq<(String, u64)>) -> Seq<u64> {
    Seq::new(scored.len(), |i: int| scored[i].1)
}

/// The candidate with the greatest score, the last one among equals.
pub fn pick_best(scored: &Vec<(String, u64)>) -> (r: Option<String>)
    ensures
        match r {
            Some(best) => scored.len() > 0 && best@ == scored@[best_index(
                scores_in(scored@),
                scored.len() as int,
            )].0@,
            None => scored.len() == 0,
        },
{
    let n: usize = scored.len();
    if n == 0 {
        return None;
    }
    let ghost scores = scores_in(scored@);
    let mut best: usize = 0;
    let mut i: usize = 1;
    assert(best_index(scores, 0) == -1);
    assert(best_index(scores, 1) == 0);
    while i < n
        invariant
            1 <= i <= n,
            n == scored.len(),
            scores == scores_in(scored@),
            best < i,
            best == best_index(scores, i as int),
        decreases n - i,
    {
        if scored[i].1 >= scored[best].1 {
            best = i;
        }
        i += 1;
    }
    Some(scored[best].0.clone())
}

/// The similarity of `name` to each candidate.
pub open spec fn scores_of(name: Seq<char>, candidates: Seq<Seq<char>>) -> Seq<u64> {
    Seq::new(candidates.len(), |i: int| jaro_winkler_bits(name, candidates[i]))
}

/// The candidate that is most similar to `name`, the last one among equals.
pub fn closest(name: &str, candidates: &Vec<String>) -> (r: Option<String>)
    ensures
        match r {
            Some(best) => candidates.len() > 0 && best@ == candidates.deep_view()[best_index(
                scores_of(name@, candidates.deep_view()),
                candidates.len() as int,
            )],
            None => candidates.len() == 0,
        },
{
    let mut scored: Vec<(String, u64)> = Vec::new();
    let mut i: usize = 0;
    while i < candidates.len()
        invariant
            i <= candidates.len(),
            scored.len() == i,
            forall|j: int|
                0 <= j < i ==> (#[trigger] scored@[j]).0@ == candidates.deep_view()[j]
                    && scored@[j].1 == jaro_winkler_bits(name@, candidates.deep_view()[j]),
        decreases candidates.len() - i,
    {
        let score = similarity(name, candidates[i].as_str());
        let c = candidates[i].clone();
        assert(c@ == candidates.deep_view()[i as int]);
        scored.push((c, score));
        i += 1;
    }
    assert(scores_in(scored@) == scores_of(name@, candidates.deep_view()));
    proof {
        lemma_best_index(scores_in(scored@), scored.len() as int);
    }
    pick_best(&scored)
}

/// `all` with the names of `more` that it does not hold yet added in order.
pub open spec fn united(all: Seq<Seq<char>>, more: Seq<Seq<char>>) -> Seq<Seq<char>>
    decreases more.len(),
{
    if more.len() == 0 {
        all
    } else {
        let front = united(all, more.drop_last());
        if front.contains(more.last()) {
            front
        } else {
            front.push(more.last())
        }
    }
}

/// Adds to `all` the names of `more` that it does not hold yet, in order.
pub fn add_names(all: &mut Vec<String>, more: &Vec<String>)
    ensures
        final(all).deep_view() == united(old(all).deep_view(), more.deep_view()),
{
    let ghost start = all.deep_view();
    let ghost extra = more.deep_view();
    let mut i: usize = 0;
    assert(extra.take(0) == Seq::<Seq<char>>::empty());
    while i < more.len()
        invariant
            i <= more.len(),
            extra == more.deep_view(),
            all.deep_view() == united(start, extra.take(i as int)),
        decreases more.len() - i,
    {
        proof {
            let next = extra.take(i + 1);
            assert(next.drop_last() == extra.take(i as int));
            assert(next.last() == extra[i as int]);
        }
        if !holds(all, more[i].as_str()) {
            let ghost before = all.deep_view();
            let name = more[i].clone();
            all.push(name);
            assert(all.deep_view() == before.push(extra[i as int]));
        }
        i += 1;
    }
    assert(extra.take(i as int) == extra);
}

/// What the user's answer to a suggested name means: the first character
/// that is no white space decides.
pub open spec fn answer_of(answer: Seq<char>, name: Seq<char>, best: Seq<char>) -> Option<
    Seq<char>,
> {
    let t = trimmed_start(answer);
    if t.len() > 0 && t[0] == 'y' {
        Some(best)
    } else if t.len() > 0 && t[0] == 'n' {
        Some(name)
    } else {
        None
    }
}

/// Settles which name to use after the user was offered `best` in place of
/// `name`: `y` takes the offer, `n` keeps the name, anything else gives up.
pub fn settle_name(answer: &str, name: String, best: String) -> (r: Option<String>)
    ensures
        match r {
            Some(n) => answer_of(answer@, name@, best@) == Some(n@),
            None => answer_of(answer@, name@, best@) is None,
        },
{
    let v = chars_of(answer);
    assert(v@.skip(0) == answer@);
    let at = skip_space(&v, 0);
    assert(v@.skip(at as int).len() > 0 ==> v@.skip(at as int)[0] == v@[at as int]);
    if at < v.len() && v[at] == 'y' {
        Some(best)
    } else if at < v.len() && v[at] == 'n' {
        Some(name)
    } else {
        None
    }
}

/// The overview of what can be entered.
pub const HELP: &'static str = "Sending messages:
 <msg>            send <msg> to the global channel
 @<name> <msg>    send <msg> to user <name>
 /<chan> <msg>    send <msg> to channel <channel>
 use \\ to send a global message starting with a special character
Commands:
 ?                print this help
 ?<c>             print help for command <c>
 :s               get server information
 :q               quit this program
 :w [<chan>]      get name list
 :c [<arg..>]     channel operations
 :b [<name>]      block / unblock player
 :o               get your offenses
 :p <name>        pardon player";

/// Help for `?`.
pub const HELP_HELP: &'static str = "? - print help
Use ?<cmd> to get details about other commands";

/// Help for `@`.
pub const HELP_AT: &'static str = "@ - send direct messages
Usage: @<name> <message>
If no user matching the given name is found, the most similar name will be offered as an alternative. Your options are:
 [y]es: accept alternate name
 [n]o: use original name
 [a]bort: exit command";

/// Help for `/`.
pub const HELP_SLASH: &'static str = "/ - post messages to a channel
Usage: /<channel> <message>
Note: you must first join a channel via ':c' to post a message there";

/// Help for `:s`.
pub const HELP_SERVER: &'static str = ":s - get server information";

/// Help for `:q`.
pub const HELP_QUIT: &'static str = ":q - quit this program
Use :q! to also close the primary client
Note: unless you use :q!, you will stay logged in in your primary client and thus be able to read messages";

/// Help for `:w`.
pub const HELP_WHO: &'static str = ":w - find out who is online
Usage: :w [<channel>]
Print a list of names that are subscribed to a channel. If no channel is provided, the global channel is taken.
Note: other clients may unsubscribe from the global channel and thus stay anonymous";

/// Help for `:c`.
pub const HELP_CHANNEL: &'static str = ":c - channel operations
Several actions can be performed:
 :c - list available channels. Channels you have joined will be marked with (*).
 :c [+]<channel> [<password>] - create or join channel.\
If a channel named <channel> already exists, attempts to join that channel with the given password.\
Otherwise, the channel is created. If no password is given, an empty password is used.
 :c -[<channel>] - leave a channel. Omit the channel to leave the global channel.";

/// Help for `:b`.
pub const HELP_BLOCK: &'static str = ":b - (un)block a user
Usage: :b [<name>]
Blocks selected user. Enter again to unblock.
If no name is given, lists the users you have currently blocked.
A name check analog to direct messages will be performed.";

/// Help for `:o`.
pub const HELP_OFFENSES: &'static str = ":o - get your offenses
Find out how often you have offended the server and when you will be kicked";

/// Help for `:p`.
pub const HELP_PARDON: &'static str = ":p - pardon another player
Usage: :p <name>
Reduces the number of offenses of that player by 1.
If this player did not have any offenses, it will be counted as an offense by you.
A name check analog to direct messages will be performed.";

/// What the secondary client shows when it starts.
pub const START_MESSAGE: &'static str =
    "rs_chat secondary client v0.1.0\nEnter '?' to view a list of available commands";

/// Where more help is found.
pub const SECRET_HELP: &'static str = "visit https://github.com/ba-lindner/rs_chat for more help";

/// The help text for a topic, or nothing where the topic is not known.
pub open spec fn help_for(sub: Option<char>) -> Option<Seq<char>> {
    match sub {
        None => Some(HELP@),
        Some(c) => if c == '?' {
            Some(HELP_HELP@)
        } else if c == '@' {
            Some(HELP_AT@)
        } else if c == '/' {
            Some(HELP_SLASH@)
        } else if c == 's' {
            Some(HELP_SERVER@)
        } else if c == 'q' {
            Some(HELP_QUIT@)
        } else if c == 'w' {
            Some(HELP_WHO@)
        } else if c == 'c' {
            Some(HELP_CHANNEL@)
        } else if c == 'b' {
            Some(HELP_BLOCK@)
        } else if c == 'o' {
            Some(HELP_OFFENSES@)
        } else if c == 'p' {
            Some(HELP_PARDON@)
        } else {
            None
        },
    }
}

/// The help text for a topic: the overview without one, the help for the
/// command that the character stands for, or a complaint where it stands for none.
pub fn help_text(sub: Option<char>) -> (r: Result<&'static str, String>)
    ensures
        match r {
            Ok(text) => help_for(sub) == Some(text@),
            Err(text) => help_for(sub) is None && sub is Some && text@
                == "unknown command "@.push(sub->0),
        },
{
    match sub {
        None => Ok(HELP),
        Some(c) => if c == '?' {
            Ok(HELP_HELP)
        } else if c == '@' {
            Ok(HELP_AT)
        } else if c == '/' {
            Ok(HELP_SLASH)
        } else if c == 's' {
            Ok(HELP_SERVER)
        } else if c == 'q' {
            Ok(HELP_QUIT)
        } else if c == 'w' {
            Ok(HELP_WHO)
        } else if c == 'c' {
            Ok(HELP_CHANNEL)
        } else if c == 'b' {
            Ok(HELP_BLOCK)
        } else if c == 'o' {
            Ok(HELP_OFFENSES)
        } else if c == 'p' {
            Ok(HELP_PARDON)
        } else {
            let mut text = String::from_str("unknown command ");
            text.push(c);
            Err(text)
        },
    }
}

/// What the secondary client knows of its user.
#[derive(Debug, PartialEq, Eq)]
pub struct SecondaryState {
    pub name: String,
    pub channels: Vec<String>,
    pub blocked: Vec<String>,
}

/// The mathematical content of a `SecondaryState`.
pub struct SecondaryView {
    pub name: Seq<char>,
    pub channels: Seq<Seq<char>>,
    pub blocked: Seq<Seq<char>>,
}

impl View for SecondaryState {
    type V = SecondaryView;

    open spec fn view(&self) -> SecondaryView {
        SecondaryView {
            name: self.name@,
            channels: self.channels.deep_view(),
            blocked: self.blocked.deep_view(),
        }
    }
}

/// The next step of a command: a request to the server, or what to tell the
/// user instead.
pub type Step = Result<RequestView, Seq<char>>;

/// Whether a step carries the given content.
pub open spec fn step_is(r: Result<Request, String>, m: Step) -> bool {
    match r {
        Ok(req) => m == Ok::<RequestView, Seq<char>>(req@),
        Err(text) => m == Err::<RequestView, Seq<char>>(text@),
    }
}

/// Posting to a channel: only to one that the user has joined.
pub open spec fn post_step(s: SecondaryView, chan: Seq<char>, msg: Seq<char>) -> Step {
    if s.channels.contains(chan) {
        Ok(RequestView::Post(chan, msg))
    } else {
        Err("join channel "@ + shown_name(chan) + " to post messages"@)
    }
}

/// Listing the members of a channel: only of one that the user has joined.
pub open spec fn who_step(s: SecondaryView, chan: Seq<char>) -> Step {
    if s.channels.contains(chan) {
        Ok(RequestView::Names(chan))
    } else {
        Err("join channel "@ + shown_name(chan) + " to list its members"@)
    }
}

/// Sending a direct message: not to a user whom the user has blocked.
pub open spec fn send_step(s: SecondaryView, name: Seq<char>, msg: Seq<char>) -> Step {
    if s.blocked.contains(name) {
        Err("you blocked "@ + name)
    } else {
        Ok(RequestView::Send(name, msg))
    }
}

/// Blocking a user: nobody blocks himself; a user who is blocked is unblocked.
pub open spec fn block_step(s: SecondaryView, name: Seq<char>) -> Step {
    if name == s.name {
        Err("don't block yourself :("@)
    } else if s.blocked.contains(name) {
        Ok(RequestView::Unblock(name))
    } else {
        Ok(RequestView::Block(name))
    }
}

/// Leaving a channel: only one that the user has joined.
pub open spec fn leave_step(s: SecondaryView, chan: Seq<char>) -> Step {
    if s.channels.contains(chan) {
        Ok(RequestView::Unsubscribe(chan))
    } else {
        Err("you didn't join "@ + shown_name(chan))
    }
}

/// Joining a channel: one that exists is subscribed to, any other is created.
pub open spec fn join_step(existing: Seq<Seq<char>>, chan: Seq<char>, password: Seq<char>)
    -> RequestView {
    if existing.contains(chan) {
        RequestView::Subscribe(chan, password)
    } else {
        RequestView::NewChannel(chan, password)
    }
}

/// The state after the server has acknowledged the blocking or unblocking
/// of `name`, and the line that tells the user.
pub open spec fn block_toggled(s: SecondaryView, name: Seq<char>) -> (SecondaryView, Seq<char>) {
    if s.blocked.contains(name) {
        (SecondaryView { blocked: without(s.blocked, name), ..s }, "unblocked "@ + name)
    } else {
        (SecondaryView { blocked: s.blocked.push(name), ..s }, "blocked "@ + name)
    }
}

impl SecondaryState {
    /// The next step of posting `msg` to the channel `chan`.
    pub fn post_request(&self, chan: String, msg: String) -> (r: Result<Request, String>)
        ensures
            step_is(r, post_step(self@, chan@, msg@)),
    {
        if holds(&self.channels, chan.as_str()) {
            Ok(Request::Post(chan, msg))
        } else {
            let mut text = String::from_str("join channel ");
            text.append(channel_name(chan.as_str()));
            text.append(" to post messages");
            Err(text)
        }
    }

    /// The next step of listing the members of the channel `chan`.
    pub fn who_request(&self, chan: String) -> (r: Result<Request, String>)
        ensures
            step_is(r, who_step(self@, chan@)),
    {
        if holds(&self.channels, chan.as_str()) {
            Ok(Request::Names(chan))
        } else {
            let mut text = String::from_str("join channel ");
            text.append(channel_name(chan.as_str()));
            text.append(" to list its members");
            Err(text)
        }
    }

    /// The next step of sending `msg` to the user `name`.
    pub fn send_request(&self, name: String, msg: String) -> (r: Result<Request, String>)
        ensures
            step_is(r, send_step(self@, name@, msg@)),
    {
        if holds(&self.blocked, name.as_str()) {
            let mut text = String::from_str("you blocked ");
            text.append(name.as_str());
            Err(text)
        } else {
            Ok(Request::Send(name, msg))
        }
    }

    /// The next step of blocking, or unblocking, the user `name`.
    pub fn block_request(&self, name: String) -> (r: Result<Request, String>)
        ensures
            step_is(r, block_step(self@, name@)),
    {
        if same_text(name.as_str(), self.name.as_str()) {
            Err(String::from_str("don't block yourself :("))
        } else if holds(&self.blocked, name.as_str()) {
            Ok(Request::Unblock(name))
        } else {
            Ok(Request::Block(name))
        }
    }

    /// Records that the server has acknowledged the blocking or unblocking
    /// of `name`, and gives the line that tells the user.
    pub fn block_done(&mut self, name: String) -> (line: String)
        ensures
            final(self)@ == block_toggled(old(self)@, name@).0,
            line@ == block_toggled(old(self)@, name@).1,
    {
        if holds(&self.blocked, name.as_str()) {
            drop_name(&mut self.blocked, name.as_str());
            let mut line = String::from_str("unblocked ");
            line.append(name.as_str());
            line
        } else {
            let mut line = String::from_str("blocked ");
            line.append(name.as_str());
            let ghost before = self.blocked.deep_view();
            self.blocked.push(name);
            assert(self.blocked.deep_view() == before.push(name@));
            line
        }
    }

    /// Whether the user may pardon `name`: nobody pardons himself.
    pub fn pardon_allowed(&self, name: &str) -> (r: Result<(), String>)
        ensures
            r is Ok <==> name@ != self@.name,
            r matches Err(text) ==> text@ == "can't pardon yourself"@,
    {
        if same_text(name, self.name.as_str()) {
            Err(String::from_str("can't pardon yourself"))
        } else {
            Ok(())
        }
    }

    /// The next step of leaving the channel `chan`.
    pub fn leave_request(&self, chan: String) -> (r: Result<Request, String>)
        ensures
            step_is(r, leave_step(self@, chan@)),
    {
        if holds(&self.channels, chan.as_str()) {
            Ok(Request::Unsubscribe(chan))
        } else {
            let mut text = String::from_str("you didn't join ");
            text.append(channel_name(chan.as_str()));
            Err(text)
        }
    }

    /// Records that the server has acknowledged the leaving of `chan`, and
    /// gives the line that tells the user.
    pub fn left(&mut self, chan: &str) -> (line: String)
        ensures
            final(self)@ == (SecondaryView {
                channels: without(old(self)@.channels, chan@),
                ..old(self)@
            }),
            line@ == "left "@ + shown_name(chan@),
    {
        drop_name(&mut self.channels, chan);
        let mut line = String::from_str("left ");
        line.append(channel_name(chan));
        line
    }

    /// What to tell the user who joins a channel that he is in already.
    pub fn join_notice(&self, chan: &str) -> (r: Option<String>)
        ensures
            r is Some <==> self@.channels.contains(chan@),
            r matches Some(text) ==> text@ == "you are already in "@ + shown_name(chan@),
    {
        if holds(&self.channels, chan) {
            let mut text = String::from_str("you are already in ");
            text.append(channel_name(chan));
            Some(text)
        } else {
            None
        }
    }

    /// Records that the server has acknowledged the joining or the creation
    /// of `chan`, and gives the line that tells the user.
    pub fn joined(&mut self, chan: String, created: bool) -> (line: String)
        ensures
            final(self)@ == (SecondaryView {
                channels: old(self)@.channels.push(chan@),
                ..old(self)@
            }),
            line@ == if created {
                "created "@
            } else {
                "joined "@
            } + shown_name(chan@),
    {
        let mut line = if created {
            String::from_str("created ")
        } else {
            String::from_str("joined ")
        };
        line.append(channel_name(chan.as_str()));
        let ghost before = self.channels.deep_view();
        self.channels.push(chan);
        assert(self.channels.deep_view() == before.push(chan@));
        line
    }

    /// The package that tells the primary client the channels joined.
    pub fn channels_update(&self) -> (r: Package)
        ensures
            r@ == comm_frame(CommView::Channels(self@.channels)),
    {
        InterClientComm::Channels(clone_strings(&self.channels)).into_package()
    }

    /// The package that tells the primary client the users blocked.
    pub fn blocked_update(&self) -> (r: Package)
        ensures
            r@ == comm_frame(CommView::Blocked(self@.blocked)),
    {
        InterClientComm::Blocked(clone_strings(&self.blocked)).into_package()
    }

    /// The line that lists the users blocked.
    pub fn blocked_line(&self) -> (r: String)
        ensures
            r@ == "you have currently blocked: "@ + listed(self@.blocked),
    {
        let mut line = String::from_str("you have currently blocked: ");
        line.append(listing(&self.blocked).as_str());
        line
    }

    /// The line that lists the channels `all` of the server, those joined marked.
    pub fn channels_line(&self, all: &Vec<String>) -> (r: String)
        ensures
            r@ == "channels: "@ + listed(
                Seq::new(
                    all.deep_view().len(),
                    |i: int| channel_entry(all.deep_view()[i], self@.channels),
                ),
            ),
    {
        let mut line = String::from_str("channels: ");
        line.append(listing(&channel_entries(all, &self.channels)).as_str());
        line
    }
}

/// The request that joins the channel `chan`: a subscription if the server
/// has the channel, its creation if not.
pub fn join_request(existing: &Vec<String>, chan: String, password: String) -> (r: Request)
    ensures
        r@ == join_step(existing.deep_view(), chan@, password@),
{
    if holds(existing, chan.as_str()) {
        Request::Subscribe(chan, password)
    } else {
        Request::NewChannel(chan, password)
    }
}

/// The line that lists the members of a channel.
pub fn who_line(chan: &str, names: &Vec<String>) -> (r: String)
    ensures
        r@ == "members of channel "@ + shown_name(chan@) + ": "@ + listed(names.deep_view()),
{
    let mut line = String::from_str("members of channel ");
    line.append(channel_name(chan));
    line.append(": ");
    line.append(listing(names).as_str());
    line
}

/// The line that shows the server's banner: the first item of its answer
/// to `About`. An answer without items violates the protocol.
pub fn server_line(about: &Vec<String>) -> (r: Result<String, Happenings>)
    ensures
        r is Ok <==> about.len() > 0,
        r matches Ok(line) ==> line@ == "server: "@ + about.deep_view()[0],
        r matches Err(h) ==> h@ is ProtocolViolation,
{
    if about.len() == 0 {
        return Err(Happenings::ProtocolViolation);
    }
    let mut line = String::from_str("server: ");
    line.append(about[0].as_str());
    assert(about[0]@ == about.deep_view()[0]);
    Ok(line)
}

/// The line that lists the server's features.
pub fn features_line(features: &Vec<String>) -> (r: String)
    ensures
        r@ == "available features: "@ + listed(features.deep_view()),
{
    let mut line = String::from_str("available features: ");
    line.append(listing(features).as_str());
    line
}

/// The line that shows the user's offenses and the limit: the first two
/// items of the server's answer to `Offenses`. An answer with fewer items
/// violates the protocol.
pub fn offenses_line(info: Vec<String>) -> (r: Result<String, Happenings>)
    ensures
        r is Ok <==> info.len() >= 2,
        r matches Ok(line) ==> line@ == "your offenses: "@ + info.deep_view()[0] + " / "@
            + info.deep_view()[1],
        r matches Err(h) ==> h@ is ProtocolViolation,
{
    match take_two(info) {
        Some((own, max)) => {
            let mut line = String::from_str("your offenses: ");
            line.append(own.as_str());
            line.append(" / ");
            line.append(max.as_str());
            Ok(line)
        },
        None => Err(Happenings::ProtocolViolation),
    }
}

} // verus!
