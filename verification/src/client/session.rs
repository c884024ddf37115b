//! The secondary client as a state machine: a command of the user, a reply
//! of the server or an answer of the user goes in, and what to do next comes out.

use vstd::prelude::*;
use vstd::string::*;
use crate::client::secondary::{
    ack_reply, add_names, answer_of, best_index, block_step, block_toggled, channel_entry, closest,
    expect_ack, expect_info, features_line, help_for, help_text, info_reply, join_request,
    join_step, leave_step, listed, offenses_line, post_step, report_text, scores_of, send_step,
    server_line, settle_name, shown_name, united, who_line, who_step, Happenings, HappeningsView,
    SecondaryState, SecondaryView, UserCmd, UserCmdView, SECRET_HELP,
};
use crate::client::{comm_frame, CommView, InterClientComm};
use crate::package::{Frame, Package};
use crate::requests::{Request, RequestView};
use crate::text::{holds, without};

verus! {

/// What a user is looked up for.
#[derive(Debug, PartialEq, Eq)]
pub enum Purpose {
    /// To send the user this message.
    Direct(String),
    /// To block or unblock the user.
    Block,
    /// To pardon the user.
    Pardon,
}

/// The mathematical content of a `Purpose`.
pub enum PurposeView {
    Direct(Seq<char>),
    Block,
    Pardon,
}

impl View for Purpose {
    type V = PurposeView;

    open spec fn view(&self) -> PurposeView {
        match self {
            Purpose::Direct(msg) => PurposeView::Direct(msg@),
            Purpose::Block => PurposeView::Block,
            Purpose::Pardon => PurposeView::Pardon,
        }
    }
}

/// Where a command stands: what the client waits for.
#[derive(Debug, PartialEq, Eq)]
pub enum Stage {
    /// No command is running.
    Idle,
    /// The list of channels, to show it.
    ChannelList,
    /// The server's banner.
    About,
    /// The server's features.
    Features,
    /// The user's offenses.
    Offenses,
    /// The members of this channel.
    Who(String),
    /// An acknowledgement after which nothing is left to do.
    Plain,
    /// The acknowledgement of blocking or unblocking this user.
    BlockAck(String),
    /// The acknowledgement of pardoning this user.
    PardonAck(String),
    /// The acknowledgement of leaving this channel.
    LeaveAck(String),
    /// The list of channels, to join this channel with this password.
    JoinList(String, String),
    /// The acknowledgement of joining this channel, or of creating it.
    JoinAck(String, bool),
    /// The members of a channel, to look this user up: the names found so
    /// far, the position of the next channel to ask for, and whether the
    /// global channel is the one that was asked for.
    Names(Purpose, String, Vec<String>, usize, bool),
    /// The user's answer to the offer of the second name for the first.
    Answer(Purpose, String, String),
}

/// The mathematical content of a `Stage`.
pub enum StageView {
    Idle,
    ChannelList,
    About,
    Features,
    Offenses,
    Who(Seq<char>),
    Plain,
    BlockAck(Seq<char>),
    PardonAck(Seq<char>),
    LeaveAck(Seq<char>),
    JoinList(Seq<char>, Seq<char>),
    JoinAck(Seq<char>, bool),
    Names(PurposeView, Seq<char>, Seq<Seq<char>>, int, bool),
    Answer(PurposeView, Seq<char>, Seq<char>),
}

impl View for Stage {
    type V = StageView;

    open spec fn view(&self) -> StageView {
        match self {
            Stage::Idle => StageView::Idle,
            Stage::ChannelList => StageView::ChannelList,
            Stage::About => StageView::About,
            Stage::Features => StageView::Features,
            Stage::Offenses => StageView::Offenses,
            Stage::Who(chan) => StageView::Who(chan@),
            Stage::Plain => StageView::Plain,
            Stage::BlockAck(name) => StageView::BlockAck(name@),
            Stage::PardonAck(name) => StageView::PardonAck(name@),
            Stage::LeaveAck(chan) => StageView::LeaveAck(chan@),
            Stage::JoinList(chan, password) => StageView::JoinList(chan@, password@),
            Stage::JoinAck(chan, created) => StageView::JoinAck(chan@, *created),
            Stage::Names(purpose, name, found, next, global) => StageView::Names(
                purpose@,
                name@,
                found.deep_view(),
                *next as int,
                *global,
            ),
            Stage::Answer(purpose, name, best) => StageView::Answer(purpose@, name@, best@),
        }
    }
}

/// What the client does next.
#[derive(Debug, PartialEq, Eq)]
pub enum Action {
    /// Show this line to the user.
    Print(String),
    /// Show this line to the user as a complaint.
    Complain(String),
    /// Send this package to the primary client.
    Tell(Package),
    /// Send this request to the server, wait for the reply and hand it in.
    Ask(Request),
    /// Ask the user with this prompt and hand the answer in.
    Prompt(String),
    /// Stop the client.
    Quit,
}

/// The mathematical content of an `Action`.
pub enum ActionView {
    Print(Seq<char>),
    Complain(Seq<char>),
    Tell(Frame),
    Ask(RequestView),
    Prompt(Seq<char>),
    Quit,
}

impl View for Action {
    type V = ActionView;

    open spec fn view(&self) -> ActionView {
        match self {
            Action::Print(line) => ActionView::Print(line@),
            Action::Complain(line) => ActionView::Complain(line@),
            Action::Tell(pkg) => ActionView::Tell(pkg@),
            Action::Ask(req) => ActionView::Ask(req@),
            Action::Prompt(line) => ActionView::Prompt(line@),
            Action::Quit => ActionView::Quit,
        }
    }
}

impl DeepView for Action {
    type V = ActionView;

    open spec fn deep_view(&self) -> ActionView {
        self@
    }
}

/// The mathematical content of a `Session`.
pub struct SessionView {
    pub user: SecondaryView,
    pub stage: StageView,
}

/// A state of the session together with what the client does next, in order.
pub type Turn = (SessionView, Seq<ActionView>);

/// The session at rest, with nothing to do.
pub open spec fn rest(user: SecondaryView) -> SessionView {
    SessionView { user, stage: StageView::Idle }
}

/// The command ends with these actions.
pub open spec fn done(user: SecondaryView, actions: Seq<ActionView>) -> Turn {
    (rest(user), actions)
}

/// The command goes on in the given stage after these actions.
pub open spec fn wait(user: SecondaryView, stage: StageView, actions: Seq<ActionView>) -> Turn {
    (SessionView { user, stage }, actions)
}

/// The command goes on with a request, or ends with a complaint.
pub open spec fn ask_or_complain(
    user: SecondaryView,
    step: Result<RequestView, Seq<char>>,
    stage: StageView,
) -> Turn {
    match step {
        Ok(req) => wait(user, stage, seq![ActionView::Ask(req)]),
        Err(text) => done(user, seq![ActionView::Complain(text)]),
    }
}

/// The package that tells the primary client the users blocked.
pub open spec fn blocked_frame(user: SecondaryView) -> Frame {
    comm_frame(CommView::Blocked(user.blocked))
}

/// The package that tells the primary client the channels joined.
pub open spec fn channels_frame(user: SecondaryView) -> Frame {
    comm_frame(CommView::Channels(user.channels))
}

/// The first step of looking a user up: the members of the global channel are asked for.
pub open spec fn look_up(user: SecondaryView, purpose: PurposeView, name: Seq<char>) -> Turn {
    wait(
        user,
        StageView::Names(purpose, name, Seq::<Seq<char>>::empty(), 0, true),
        seq![ActionView::Ask(RequestView::Names(Seq::<char>::empty()))],
    )
}

/// What a command of the user starts.
pub open spec fn begun(user: SecondaryView, cmd: UserCmdView) -> Turn {
    match cmd {
        UserCmdView::Help(sub) => match help_for(sub) {
            Some(text) => done(user, seq![ActionView::Print(text)]),
            None => done(user, seq![ActionView::Complain("unknown command "@.push(sub->0))]),
        },
        UserCmdView::SecretHelp => done(user, seq![ActionView::Print(SECRET_HELP@)]),
        UserCmdView::BlockList => done(
            user,
            seq![ActionView::Print("you have currently blocked: "@ + listed(user.blocked))],
        ),
        UserCmdView::Quit(force) => if force {
            done(
                user,
                seq![ActionView::Tell(comm_frame(CommView::Quit)), ActionView::Quit],
            )
        } else {
            done(user, seq![ActionView::Quit])
        },
        UserCmdView::ChannelList => wait(
            user,
            StageView::ChannelList,
            seq![ActionView::Ask(RequestView::ListChannels)],
        ),
        UserCmdView::ServerInfo => wait(
            user,
            StageView::About,
            seq![ActionView::Ask(RequestView::About)],
        ),
        UserCmdView::Offenses => wait(
            user,
            StageView::Offenses,
            seq![ActionView::Ask(RequestView::Offenses)],
        ),
        UserCmdView::Who(chan) => ask_or_complain(user, who_step(user, chan), StageView::Who(chan)),
        UserCmdView::ChannelMsg(chan, msg) => ask_or_complain(
            user,
            post_step(user, chan, msg),
            StageView::Plain,
        ),
        UserCmdView::DirectMsg(name, msg) => look_up(user, PurposeView::Direct(msg), name),
        UserCmdView::Block(name) => look_up(user, PurposeView::Block, name),
        UserCmdView::Pardon(name) => if name == user.name {
            done(user, seq![ActionView::Complain("can't pardon yourself"@)])
        } else {
            look_up(user, PurposeView::Pardon, name)
        },
        UserCmdView::ChannelLeave(chan) => ask_or_complain(
            user,
            leave_step(user, chan),
            StageView::LeaveAck(chan),
        ),
        UserCmdView::ChannelJoinNew(chan, password) => wait(
            user,
            StageView::JoinList(chan, password),
            if user.channels.contains(chan) {
                seq![
                    ActionView::Complain("you are already in "@ + shown_name(chan)),
                    ActionView::Ask(RequestView::ListChannels),
                ]
            } else {
                seq![ActionView::Ask(RequestView::ListChannels)]
            },
        ),
    }
}

/// How a command ends when something happened: the user is told, and the
/// client stops unless it was a mistake of the user.
pub open spec fn failed(user: SecondaryView, h: HappeningsView) -> Turn {
    let told = match report_text(h) {
        Some(text) => seq![ActionView::Complain(text)],
        None => Seq::<ActionView>::empty(),
    };
    if h is OwnMistake {
        done(user, told)
    } else {
        done(user, told.push(ActionView::Quit))
    }
}

/// What follows once the user that a command is about is settled.
pub open spec fn resolved(user: SecondaryView, purpose: PurposeView, name: Seq<char>) -> Turn {
    match purpose {
        PurposeView::Direct(msg) => ask_or_complain(
            user,
            send_step(user, name, msg),
            StageView::Plain,
        ),
        PurposeView::Block => match block_step(user, name) {
            Ok(req) => wait(user, StageView::BlockAck(name), seq![ActionView::Ask(req)]),
            Err(text) => done(
                user,
                seq![ActionView::Complain(text), ActionView::Tell(blocked_frame(user))],
            ),
        },
        PurposeView::Pardon => wait(
            user,
            StageView::PardonAck(name),
            seq![ActionView::Ask(RequestView::Pardon(name))],
        ),
    }
}

/// Position of the first channel from `from` on that is not the global one,
/// or the number of channels if there is none.
pub open spec fn next_named(channels: Seq<Seq<char>>, from: int) -> int
    decreases channels.len() - from,
{
    if from < 0 || from >= channels.len() {
        channels.len() as int
    } else if channels[from].len() > 0 {
        from
    } else {
        next_named(channels, from + 1)
    }
}

/// The prompt that offers `best` in place of `name`.
pub open spec fn offer(name: Seq<char>, best: Seq<char>) -> Seq<char> {
    "user "@ + name + " not found. did you mean "@ + best + "? [y/n/a] "@
}

/// What follows once every channel has been asked for its members and the
/// name is not among them: the most similar name is offered, if there is any name.
pub open spec fn suggested(
    user: SecondaryView,
    purpose: PurposeView,
    name: Seq<char>,
    found: Seq<Seq<char>>,
) -> Turn {
    if found.len() == 0 {
        done(user, seq![ActionView::Complain("no names found"@)])
    } else {
        let best = found[best_index(scores_of(name, found), found.len() as int)];
        wait(
            user,
            StageView::Answer(purpose, name, best),
            seq![ActionView::Prompt(offer(name, best))],
        )
    }
}

/// What follows the members of one channel in the look-up of a user.
///
/// A name among the members of the global channel settles the look-up at
/// once. Otherwise the channels that the user has joined are asked one after
/// the other, and the name is looked for among all members when none is left.
pub open spec fn looked_up(
    user: SecondaryView,
    purpose: PurposeView,
    name: Seq<char>,
    found: Seq<Seq<char>>,
    next: int,
    global: bool,
) -> Turn {
    if global && found.contains(name) {
        resolved(user, purpose, name)
    } else {
        let j = next_named(user.channels, next);
        if 0 <= j < user.channels.len() {
            wait(
                user,
                StageView::Names(purpose, name, found, j + 1, false),
                seq![ActionView::Ask(RequestView::Names(user.channels[j]))],
            )
        } else if found.contains(name) {
            resolved(user, purpose, name)
        } else {
            suggested(user, purpose, name, found)
        }
    }
}

/// The line that shows the channels `all` to a user who has joined `joined`.
pub open spec fn channels_text(all: Seq<Seq<char>>, joined: Seq<Seq<char>>) -> Seq<char> {
    "channels: "@ + listed(Seq::new(all.len(), |i: int| channel_entry(all[i], joined)))
}

/// What follows a reply of the server.
pub open spec fn replied(s: SessionView, reply: Option<Package>) -> Turn {
    let user = s.user;
    match s.stage {
        StageView::Idle => (s, Seq::<ActionView>::empty()),
        StageView::Answer(_, _, _) => (s, Seq::<ActionView>::empty()),
        StageView::ChannelList => match info_reply(reply) {
            Ok(all) => done(user, seq![ActionView::Print(channels_text(all, user.channels))]),
            Err(h) => failed(user, h),
        },
        StageView::About => match info_reply(reply) {
            Ok(about) => if about.len() > 0 {
                wait(
                    user,
                    StageView::Features,
                    seq![
                        ActionView::Print("server: "@ + about[0]),
                        ActionView::Ask(RequestView::Features),
                    ],
                )
            } else {
                failed(user, HappeningsView::ProtocolViolation)
            },
            Err(h) => failed(user, h),
        },
        StageView::Features => match info_reply(reply) {
            Ok(features) => done(
                user,
                seq![ActionView::Print("available features: "@ + listed(features))],
            ),
            Err(h) => failed(user, h),
        },
        StageView::Offenses => match info_reply(reply) {
            Ok(info) => if info.len() >= 2 {
                done(
                    user,
                    seq![ActionView::Print("your offenses: "@ + info[0] + " / "@ + info[1])],
                )
            } else {
                failed(user, HappeningsView::ProtocolViolation)
            },
            Err(h) => failed(user, h),
        },
        StageView::Who(chan) => match info_reply(reply) {
            Ok(names) => done(
                user,
                seq![
                    ActionView::Print(
                        "members of channel "@ + shown_name(chan) + ": "@ + listed(names),
                    ),
                ],
            ),
            Err(h) => failed(user, h),
        },
        StageView::Plain => match ack_reply(reply) {
            Ok(_) => done(user, Seq::<ActionView>::empty()),
            Err(h) => failed(user, h),
        },
        StageView::BlockAck(name) => match ack_reply(reply) {
            Ok(_) => {
                let (after, line) = block_toggled(user, name);
                done(after, seq![ActionView::Print(line), ActionView::Tell(blocked_frame(after))])
            },
            Err(h) => failed(user, h),
        },
        StageView::PardonAck(name) => match ack_reply(reply) {
            Ok(_) => done(user, seq![ActionView::Print("pardoned "@ + name)]),
            Err(h) => failed(user, h),
        },
        StageView::LeaveAck(chan) => match ack_reply(reply) {
            Ok(_) => {
                let after = SecondaryView { channels: without(user.channels, chan), ..user };
                done(
                    after,
                    seq![
                        ActionView::Print("left "@ + shown_name(chan)),
                        ActionView::Tell(channels_frame(after)),
                    ],
                )
            },
            Err(h) => failed(user, h),
        },
        StageView::JoinList(chan, password) => match info_reply(reply) {
            Ok(existing) => wait(
                user,
                StageView::JoinAck(chan, !existing.contains(chan)),
                seq![ActionView::Ask(join_step(existing, chan, password))],
            ),
            Err(h) => failed(user, h),
        },
        StageView::JoinAck(chan, created) => match ack_reply(reply) {
            Ok(_) => {
                let after = SecondaryView { channels: user.channels.push(chan), ..user };
                let word = if created {
                    "created "@
                } else {
                    "joined "@
                };
                done(
                    after,
                    seq![
                        ActionView::Print(word + shown_name(chan)),
                        ActionView::Tell(channels_frame(after)),
                    ],
                )
            },
            Err(h) => failed(user, h),
        },
        StageView::Names(purpose, name, found, next, global) => match info_reply(reply) {
            Ok(more) => looked_up(user, purpose, name, united(found, more), next, global),
            Err(h) => failed(user, h),
        },
    }
}

/// What follows an answer of the user.
pub open spec fn answered(s: SessionView, answer: Seq<char>) -> Turn {
    match s.stage {
        StageView::Answer(purpose, name, best) => match answer_of(answer, name, best) {
            Some(n) => resolved(s.user, purpose, n),
            None => done(s.user, Seq::<ActionView>::empty()),
        },
        _ => (s, Seq::<ActionView>::empty()),
    }
}

/// The secondary client between two events.
#[derive(Debug, PartialEq, Eq)]
pub struct Session {
    user: SecondaryState,
    stage: Stage,
}

impl View for Session {
    type V = SessionView;

    closed spec fn view(&self) -> SessionView {
        SessionView { user: self.user@, stage: self.stage@ }
    }
}

/// No action.
fn nothing() -> (r: Vec<Action>)
    ensures
        r.deep_view() == Seq::<ActionView>::empty(),
{
    let r: Vec<Action> = Vec::new();
    assert(r.deep_view() == Seq::<ActionView>::empty());
    r
}

/// One action.
fn one(a: Action) -> (r: Vec<Action>)
    ensures
        r.deep_view() == seq![a@],
{
    let mut r: Vec<Action> = Vec::new();
    r.push(a);
    assert(r.deep_view() == seq![a@]);
    r
}

/// Two actions.
fn two(a: Action, b: Action) -> (r: Vec<Action>)
    ensures
        r.deep_view() == seq![a@, b@],
{
    let mut r: Vec<Action> = Vec::new();
    r.push(a);
    r.push(b);
    assert(r.deep_view() == seq![a@, b@]);
    r
}

impl Session {
    /// A session at rest for the given user.
    pub fn new(user: SecondaryState) -> (r: Session)
        ensures
            r@ == rest(user@),
    {
        Session { user, stage: Stage::Idle }
    }

    /// What the client knows of its user.
    pub fn user(&self) -> (r: &SecondaryState)
        ensures
            r@ == self@.user,
    {
        &self.user
    }

    /// Where the running command stands.
    pub fn stage(&self) -> (r: &Stage)
        ensures
            r@ == self@.stage,
    {
        &self.stage
    }

    /// Goes on with a request, or ends the command with a complaint.
    fn ask_or_complain(&mut self, step: Result<Request, String>, stage: Stage) -> (r: Vec<Action>)
        ensures
            (final(self)@, r.deep_view()) == ask_or_complain(
                old(self)@.user,
                match step {
                    Ok(req) => Ok(req@),
                    Err(text) => Err(text@),
                },
                stage@,
            ),
    {
        match step {
            Ok(req) => {
                self.stage = stage;
                one(Action::Ask(req))
            },
            Err(text) => {
                self.stage = Stage::Idle;
                one(Action::Complain(text))
            },
        }
    }

    /// Starts looking a user up.
    fn look_up(&mut self, purpose: Purpose, name: String) -> (r: Vec<Action>)
        ensures
            (final(self)@, r.deep_view()) == look_up(old(self)@.user, purpose@, name@),
    {
        let found: Vec<String> = Vec::new();
        assert(found.deep_view() == Seq::<Seq<char>>::empty());
        self.stage = Stage::Names(purpose, name, found, 0, true);
        one(Action::Ask(Request::Names(String::new())))
    }

    /// Starts a command of the user. A command that was running is given up.
    pub fn begin(&mut self, cmd: UserCmd) -> (r: Vec<Action>)
        ensures
            (final(self)@, r.deep_view()) == begun(old(self)@.user, cmd@),
    {
        self.stage = Stage::Idle;
        match cmd {
            UserCmd::Help(sub) => match help_text(sub) {
                Ok(text) => one(Action::Print(String::from_str(text))),
                Err(text) => one(Action::Complain(text)),
            },
            UserCmd::SecretHelp => one(Action::Print(String::from_str(SECRET_HELP))),
            UserCmd::BlockList => one(Action::Print(self.user.blocked_line())),
            UserCmd::Quit(force) => {
                if force {
                    two(Action::Tell(InterClientComm::Quit.into_package()), Action::Quit)
                } else {
                    one(Action::Quit)
                }
            },
            UserCmd::ChannelList => {
                self.stage = Stage::ChannelList;
                one(Action::Ask(Request::ListChannels))
            },
            UserCmd::ServerInfo => {
                self.stage = Stage::About;
                one(Action::Ask(Request::About))
            },
            UserCmd::Offenses => {
                self.stage = Stage::Offenses;
                one(Action::Ask(Request::Offenses))
            },
            UserCmd::Who(chan) => {
                let step = self.user.who_request(chan.clone());
                self.ask_or_complain(step, Stage::Who(chan))
            },
            UserCmd::ChannelMsg(chan, msg) => {
                let step = self.user.post_request(chan, msg);
                self.ask_or_complain(step, Stage::Plain)
            },
            UserCmd::DirectMsg(name, msg) => self.look_up(Purpose::Direct(msg), name),
            UserCmd::Block(name) => self.look_up(Purpose::Block, name),
            UserCmd::Pardon(name) => match self.user.pardon_allowed(name.as_str()) {
                Ok(_) => self.look_up(Purpose::Pardon, name),
                Err(text) => one(Action::Complain(text)),
            },
            UserCmd::ChannelLeave(chan) => {
                let step = self.user.leave_request(chan.clone());
                self.ask_or_complain(step, Stage::LeaveAck(chan))
            },
            UserCmd::ChannelJoinNew(chan, password) => {
                let notice = self.user.join_notice(chan.as_str());
                self.stage = Stage::JoinList(chan, password);
                match notice {
                    Some(text) => two(Action::Complain(text), Action::Ask(Request::ListChannels)),
                    None => one(Action::Ask(Request::ListChannels)),
                }
            },
        }
    }

    /// Ends the command after something happened.
    fn fail(&mut self, h: Happenings) -> (r: Vec<Action>)
        ensures
            (final(self)@, r.deep_view()) == failed(old(self)@.user, h@),
    {
        self.stage = Stage::Idle;
        let stop = h.ends_session();
        let mut r = match h.report() {
            Some(text) => one(Action::Complain(text)),
            None => nothing(),
        };
        if stop {
            let ghost before = r.deep_view();
            r.push(Action::Quit);
            assert(r.deep_view() == before.push(ActionView::Quit));
        }
        r
    }

    /// Goes on once the user that the command is about is settled.
    fn resolve(&mut self, purpose: Purpose, name: String) -> (r: Vec<Action>)
        ensures
            (final(self)@, r.deep_view()) == resolved(old(self)@.user, purpose@, name@),
    {
        match purpose {
            Purpose::Direct(msg) => {
                let step = self.user.send_request(name, msg);
                self.ask_or_complain(step, Stage::Plain)
            },
            Purpose::Block => match self.user.block_request(name.clone()) {
                Ok(req) => {
                    self.stage = Stage::BlockAck(name);
                    one(Action::Ask(req))
                },
                Err(text) => {
                    self.stage = Stage::Idle;
                    two(Action::Complain(text), Action::Tell(self.user.blocked_update()))
                },
            },
            Purpose::Pardon => {
                self.stage = Stage::PardonAck(name.clone());
                one(Action::Ask(Request::Pardon(name)))
            },
        }
    }

    /// Position of the first channel from `from` on that is not the global one.
    fn next_channel(&self, from: usize) -> (r: usize)
        ensures
            r == next_named(self@.user.channels, from as int),
            r <= self.user.channels.len(),
    {
        let mut i: usize = from;
        while i < self.user.channels.len() && self.user.channels[i].as_str().is_empty()
            invariant
                next_named(self@.user.channels, from as int) == next_named(
                    self@.user.channels,
                    i as int,
                ),
            decreases self.user.channels.len() - i,
        {
            assert(self.user.channels[i as int]@ == self@.user.channels[i as int]);
            i += 1;
        }
        if i < self.user.channels.len() {
            assert(self.user.channels[i as int]@ == self@.user.channels[i as int]);
            i
        } else {
            self.user.channels.len()
        }
    }

    /// Offers the most similar name, if there is any name.
    fn suggest(&mut self, purpose: Purpose, name: String, found: Vec<String>) -> (r: Vec<Action>)
        ensures
            (final(self)@, r.deep_view()) == suggested(
                old(self)@.user,
                purpose@,
                name@,
                found.deep_view(),
            ),
    {
        match closest(name.as_str(), &found) {
            None => {
                self.stage = Stage::Idle;
                one(Action::Complain(String::from_str("no names found")))
            },
            Some(best) => {
                let mut prompt = String::from_str("user ");
                prompt.append(name.as_str());
                prompt.append(" not found. did you mean ");
                prompt.append(best.as_str());
                prompt.append("? [y/n/a] ");
                self.stage = Stage::Answer(purpose, name, best);
                one(Action::Prompt(prompt))
            },
        }
    }

    /// Goes on with the look-up of a user after the members of one channel.
    fn looked_up(
        &mut self,
        purpose: Purpose,
        name: String,
        found: Vec<String>,
        next: usize,
        global: bool,
    ) -> (r: Vec<Action>)
        ensures
            (final(self)@, r.deep_view()) == looked_up(
                old(self)@.user,
                purpose@,
                name@,
                found.deep_view(),
                next as int,
                global,
            ),
    {
        if global && holds(&found, name.as_str()) {
            return self.resolve(purpose, name);
        }
        let j = self.next_channel(next);
        if j < self.user.channels.len() {
            let chan = self.user.channels[j].clone();
            assert(chan@ == self@.user.channels[j as int]);
            self.stage = Stage::Names(purpose, name, found, j + 1, false);
            one(Action::Ask(Request::Names(chan)))
        } else if holds(&found, name.as_str()) {
            self.resolve(purpose, name)
        } else {
            self.suggest(purpose, name, found)
        }
    }

    /// Takes in the server's reply to the request that was asked last; no
    /// reply means that the server has gone.
    pub fn on_reply(&mut self, reply: Option<Package>) -> (r: Vec<Action>)
        ensures
            (final(self)@, r.deep_view()) == replied(old(self)@, reply),
    {
        let mut stage = Stage::Idle;
        std::mem::swap(&mut stage, &mut self.stage);
        match stage {
            Stage::Idle => nothing(),
            Stage::Answer(purpose, name, best) => {
                self.stage = Stage::Answer(purpose, name, best);
                nothing()
            },
            Stage::ChannelList => match expect_info(reply) {
                Ok(all) => one(Action::Print(self.user.channels_line(&all))),
                Err(h) => self.fail(h),
            },
            Stage::About => match expect_info(reply) {
                Ok(about) => match server_line(&about) {
                    Ok(line) => {
                        self.stage = Stage::Features;
                        two(Action::Print(line), Action::Ask(Request::Features))
                    },
                    Err(h) => self.fail(h),
                },
                Err(h) => self.fail(h),
            },
            Stage::Features => match expect_info(reply) {
                Ok(features) => one(Action::Print(features_line(&features))),
                Err(h) => self.fail(h),
            },
            Stage::Offenses => match expect_info(reply) {
                Ok(info) => match offenses_line(info) {
                    Ok(line) => one(Action::Print(line)),
                    Err(h) => self.fail(h),
                },
                Err(h) => self.fail(h),
            },
            Stage::Who(chan) => match expect_info(reply) {
                Ok(names) => one(Action::Print(who_line(chan.as_str(), &names))),
                Err(h) => self.fail(h),
            },
            Stage::Plain => match expect_ack(reply) {
                Ok(_) => nothing(),
                Err(h) => self.fail(h),
            },
            Stage::BlockAck(name) => match expect_ack(reply) {
                Ok(_) => {
                    let line = self.user.block_done(name);
                    two(Action::Print(line), Action::Tell(self.user.blocked_update()))
                },
                Err(h) => self.fail(h),
            },
            Stage::PardonAck(name) => match expect_ack(reply) {
                Ok(_) => {
                    let mut line = String::from_str("pardoned ");
                    line.append(name.as_str());
                    one(Action::Print(line))
                },
                Err(h) => self.fail(h),
            },
            Stage::LeaveAck(chan) => match expect_ack(reply) {
                Ok(_) => {
                    let line = self.user.left(chan.as_str());
                    two(Action::Print(line), Action::Tell(self.user.channels_update()))
                },
                Err(h) => self.fail(h),
            },
            Stage::JoinList(chan, password) => match expect_info(reply) {
                Ok(existing) => {
                    let created = !holds(&existing, chan.as_str());
                    let req = join_request(&existing, chan.clone(), password);
                    self.stage = Stage::JoinAck(chan, created);
                    one(Action::Ask(req))
                },
                Err(h) => self.fail(h),
            },
            Stage::JoinAck(chan, created) => match expect_ack(reply) {
                Ok(_) => {
                    let line = self.user.joined(chan, created);
                    two(Action::Print(line), Action::Tell(self.user.channels_update()))
                },
                Err(h) => self.fail(h),
            },
            Stage::Names(purpose, name, found, next, global) => match expect_info(reply) {
                Ok(more) => {
                    let mut found = found;
                    add_names(&mut found, &more);
                    self.looked_up(purpose, name, found, next, global)
                },
                Err(h) => self.fail(h),
            },
        }
    }

    /// Takes in the user's answer to the prompt that was shown last.
    pub fn on_answer(&mut self, answer: &str) -> (r: Vec<Action>)
        ensures
            (final(self)@, r.deep_view()) == answered(old(self)@, answer@),
    {
        let mut stage = Stage::Idle;
        std::mem::swap(&mut stage, &mut self.stage);
        match stage {
            Stage::Answer(purpose, name, best) => match settle_name(answer, name, best) {
                Some(n) => self.resolve(purpose, n),
                None => nothing(),
            },
            other => {
                self.stage = other;
                nothing()
            },
        }
    }
}

} // verus!
