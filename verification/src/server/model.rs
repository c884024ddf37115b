//! The chat state as mathematics, and the server's transitions on it.

use vstd::prelude::*;
use crate::connection::{polled, sent, sent_all, ConnectionView};
use crate::package::{ETX, Frame};
use crate::requests::{parsed, rejection, RequestView};
use crate::response::{response_frame, ResponseView};
use crate::text::{decimal, lemma_find, without};

verus! {

/// Number of offenses at which a client is removed.
pub const MAX_OFFENSES: u8 = 5;

/// The mathematical content of a client.
pub struct ClientView {
    pub conn: ConnectionView,
    /// The name of an active client; a passive listener has none.
    pub name: Option<Seq<char>>,
    pub offenses: nat,
    /// The peers that the client refuses to talk to.
    pub blocked: Set<Seq<char>>,
}

/// The mathematical content of a channel.
pub struct ChannelView {
    pub name: Seq<char>,
    pub password: Seq<char>,
    /// The names of the members, in the order in which they joined.
    pub members: Seq<Seq<char>>,
    /// The messages that wait for the next fan-out, oldest first.
    pub queue: Seq<Frame>,
}

/// The mathematical content of the server's state.
pub struct ServerView {
    /// The active clients, in the order of their admission.
    pub active: Seq<ClientView>,
    /// The passive listeners, in the order of their admission.
    pub passive: Seq<ClientView>,
    /// The channels, in the order of their creation; the first is the global one.
    pub channels: Seq<ChannelView>,
}

/// The name of the global channel: the empty string.
pub open spec fn global_name() -> Seq<char> {
    Seq::<char>::empty()
}

/// The channel tag of direct messages, which no channel may have as its name.
pub open spec fn direct_name() -> Seq<char> {
    "__direct"@
}

/// The banner that `About` is answered with.
pub open spec fn about_text() -> Seq<char> {
    "rs_chat server v0.1.0 by blindner"@
}

/// The feature tags that `Features` is answered with.
pub open spec fn feature_tags() -> Seq<Seq<char>> {
    seq!["basic"@, "direct"@, "channels"@, "offenses"@]
}

/// Position of the first occurrence of `key` in `keys`, or `keys.len()` if there is none.
pub open spec fn position_of(keys: Seq<Seq<char>>, key: Seq<char>) -> int
    decreases keys.len(),
{
    if keys.len() == 0 {
        0
    } else if keys[0] == key {
        0
    } else {
        1 + position_of(keys.drop_first(), key)
    }
}

/// The name under which a client is listed; the empty name for one without.
pub open spec fn name_of(c: ClientView) -> Seq<char> {
    match c.name {
        Some(n) => n,
        None => Seq::<char>::empty(),
    }
}

/// The names of the clients, in order.
pub open spec fn client_names(clients: Seq<ClientView>) -> Seq<Seq<char>> {
    Seq::new(clients.len(), |i: int| name_of(clients[i]))
}

/// The names of the channels, in order.
pub open spec fn channel_names(channels: Seq<ChannelView>) -> Seq<Seq<char>> {
    Seq::new(channels.len(), |i: int| channels[i].name)
}

/// Index of the active client called `name`, or the number of active clients if there is none.
pub open spec fn client_index(s: ServerView, name: Seq<char>) -> int {
    position_of(client_names(s.active), name)
}

/// Index of the channel called `name`, or the number of channels if there is none.
pub open spec fn channel_index(s: ServerView, name: Seq<char>) -> int {
    position_of(channel_names(s.channels), name)
}

/// Whether an active client is called `name`.
pub open spec fn is_active(s: ServerView, name: Seq<char>) -> bool {
    client_index(s, name) < s.active.len()
}

/// Whether `f` is a message posted to the channel called `channel`.
pub open spec fn posted_to(f: Frame, channel: Seq<char>) -> bool {
    f.cmd == "msg"@ && f.args.len() == 3 && f.args[0] == channel
}

/// What holds of the state at every moment.
///
/// Active clients have names, no two the same, and at most `MAX_OFFENSES`
/// offenses. Passive listeners have no name. The first channel is the global
/// one, no two channels share a name, no member is listed twice, and the
/// messages that wait in a channel were posted to it.
pub open spec fn well_formed(s: ServerView) -> bool {
    &&& forall|i: int| 0 <= i < s.active.len() ==> (#[trigger] s.active[i]).name is Some
    &&& client_names(s.active).no_duplicates()
    &&& forall|i: int| 0 <= i < s.active.len() ==> (#[trigger] s.active[i]).offenses <= MAX_OFFENSES
    &&& forall|i: int| 0 <= i < s.passive.len() ==> (#[trigger] s.passive[i]).name is None
    &&& s.channels.len() >= 1
    &&& s.channels[0].name == global_name()
    &&& channel_names(s.channels).no_duplicates()
    &&& forall|i: int| 0 <= i < s.channels.len() ==> (#[trigger] s.channels[i]).members.no_duplicates()
    &&& forall|i: int, k: int|
        0 <= i < s.channels.len() && 0 <= k < s.channels[i].queue.len() ==> posted_to(
            #[trigger] s.channels[i].queue[k],
            s.channels[i].name,
        )
}

/// What holds of the state at the end of every tick, in addition.
///
/// Every member of a channel is an active client, every channel but the global
/// one has a member, every active client has fewer than `MAX_OFFENSES`
/// offenses and a live connection, and no message waits for fan-out.
pub open spec fn settled(s: ServerView) -> bool {
    &&& forall|i: int, j: int|
        0 <= i < s.channels.len() && 0 <= j < s.channels[i].members.len() ==> is_active(
            s,
            #[trigger] s.channels[i].members[j],
        )
    &&& forall|i: int| 1 <= i < s.channels.len() ==> (#[trigger] s.channels[i]).members.len() > 0
    &&& forall|i: int| 0 <= i < s.active.len() ==> (#[trigger] s.active[i]).offenses < MAX_OFFENSES
    &&& forall|i: int| 0 <= i < s.active.len() ==> (#[trigger] s.active[i]).conn.alive
    &&& forall|i: int| 0 <= i < s.passive.len() ==> (#[trigger] s.passive[i]).conn.alive
    &&& forall|i: int| 0 <= i < s.channels.len() ==> (#[trigger] s.channels[i]).queue.len() == 0
}

/// The state of a server that has just started: nobody is there, and the
/// global channel is open and empty.
pub open spec fn initial() -> ServerView {
    ServerView {
        active: seq![],
        passive: seq![],
        channels: seq![
            ChannelView { name: global_name(), password: seq![], members: seq![], queue: seq![] },
        ],
    }
}

/// A client that has just been handed over by the admission worker.
pub open spec fn fresh_client(conn: ConnectionView, name: Option<Seq<char>>) -> ClientView {
    ClientView { conn, name, offenses: 0, blocked: Set::empty() }
}

/// One more offense, up to `MAX_OFFENSES`.
pub open spec fn bumped(offenses: nat) -> nat {
    if offenses < MAX_OFFENSES {
        offenses + 1
    } else {
        offenses
    }
}

/// The client with its connection in the state `conn`.
pub open spec fn reconnected(c: ClientView, conn: ConnectionView) -> ClientView {
    ClientView { conn, ..c }
}

/// The client after `f` has been handed to its connection.
pub open spec fn told(c: ClientView, f: Frame) -> ClientView {
    ClientView { conn: sent(c.conn, f), ..c }
}

/// The frame of a message.
pub open spec fn msg_frame(channel: Seq<char>, sender: Seq<char>, body: Seq<char>) -> Frame {
    response_frame(ResponseView::Msg(channel, sender, body))
}

/// The frame of an acknowledgement.
pub open spec fn ack_frame() -> Frame {
    response_frame(ResponseView::Ack)
}

/// The frame of a failure with the given reason.
pub open spec fn error_frame(why: Seq<char>) -> Frame {
    response_frame(ResponseView::Error(why))
}

/// The state after one client has come from the admission worker.
///
/// A passive one joins the listeners and is acknowledged. An active one whose
/// name is taken is told so and dropped. Any other active one is acknowledged,
/// joins the active clients, and becomes a member of the global channel.
pub open spec fn admitted(s: ServerView, c: ClientView) -> ServerView {
    match c.name {
        None => ServerView { passive: s.passive.push(told(c, ack_frame())), ..s },
        Some(name) => if is_active(s, name) {
            s
        } else {
            let global = s.channels[0];
            let members = if global.members.contains(name) {
                global.members
            } else {
                global.members.push(name)
            };
            ServerView {
                active: s.active.push(told(c, ack_frame())),
                channels: s.channels.update(0, ChannelView { members, ..global }),
                ..s
            }
        },
    }
}

/// The state after the clients `cs` have come from the admission worker, in order.
pub open spec fn admitted_all(s: ServerView, cs: Seq<ClientView>) -> ServerView
    decreases cs.len(),
{
    if cs.len() == 0 {
        s
    } else {
        admitted(admitted_all(s, cs.drop_last()), cs.last())
    }
}

/// The client after all frames that wait on its connection have been read,
/// and the requests among them.
///
/// Each frame that carries a valid request yields that request. Each other
/// frame is answered with the rejection at once and costs one offense. Reading
/// stops at the first poll that gives nothing.
pub open spec fn drained(c: ClientView) -> (ClientView, Seq<RequestView>)
    decreases c.conn.pending.len(),
{
    let (conn, got) = polled(c.conn);
    match got {
        None => (ClientView { conn, ..c }, Seq::<RequestView>::empty()),
        Some(f) => {
            proof {
                lemma_find(c.conn.pending, ETX);
            }
            match parsed(f) {
                Ok(req) => {
                    let (rest_c, rest) = drained(ClientView { conn, ..c });
                    (rest_c, seq![req] + rest)
                },
                Err(e) => drained(
                    ClientView {
                        conn: sent(conn, response_frame(rejection(e))),
                        offenses: bumped(c.offenses),
                        ..c
                    },
                ),
            }
        },
    }
}

/// One request together with the name of the client that made it.
pub struct Pending {
    pub client: Seq<char>,
    pub request: RequestView,
}

/// The requests `reqs`, each marked as made by `client`.
pub open spec fn marked(client: Seq<char>, reqs: Seq<RequestView>) -> Seq<Pending> {
    Seq::new(reqs.len(), |i: int| Pending { client, request: reqs[i] })
}

/// The requests that the first `n` active clients have waiting, client by client.
pub open spec fn collected(active: Seq<ClientView>, n: int) -> Seq<Pending>
    decreases n,
{
    if n <= 0 {
        Seq::<Pending>::empty()
    } else {
        collected(active, n - 1) + marked(name_of(active[n - 1]), drained(active[n - 1]).1)
    }
}

/// The active clients after the waiting frames of each have been read.
pub open spec fn drained_all(active: Seq<ClientView>) -> Seq<ClientView> {
    Seq::new(active.len(), |i: int| drained(active[i]).0)
}

/// The channel that `caller` may use under the name `channel`: its index, or
/// the failure to report.
pub open spec fn member_channel(s: ServerView, caller: Seq<char>, channel: Seq<char>) -> Result<
    int,
    ResponseView,
> {
    let ci = channel_index(s, channel);
    if ci >= s.channels.len() {
        Err(ResponseView::Error("channel doesn't exist"@))
    } else if !s.channels[ci].members.contains(caller) {
        Err(ResponseView::Error("not subscribed to channel"@))
    } else {
        Ok(ci)
    }
}

/// The failure that is reported for a user who is not an active client.
pub open spec fn no_such_user() -> ResponseView {
    ResponseView::Error("user doesn't exist"@)
}

/// The state with the active client at `i` replaced by `c`.
pub open spec fn with_client(s: ServerView, i: int, c: ClientView) -> ServerView {
    ServerView { active: s.active.update(i, c), ..s }
}

/// The state with the passive listener at `i` replaced by `c`.
pub open spec fn with_listener(s: ServerView, i: int, c: ClientView) -> ServerView {
    ServerView { passive: s.passive.update(i, c), ..s }
}

/// The state with the channel at `i` replaced by `ch`.
pub open spec fn with_channel(s: ServerView, i: int, ch: ChannelView) -> ServerView {
    ServerView { channels: s.channels.update(i, ch), ..s }
}

/// The state after the request `req` of `caller`, and the response to it.
///
/// The response is `Err` where a channel or a user that the request needs is
/// not there, or the caller is not a member of the channel; every other
/// response is `Ok`.
pub open spec fn responded(s: ServerView, caller: Seq<char>, req: RequestView) -> (
    ServerView,
    Result<ResponseView, ResponseView>,
) {
    let me = client_index(s, caller);
    match req {
        RequestView::Login(_) | RequestView::Listen => (
            s,
            Ok(ResponseView::Error("already logged in"@)),
        ),
        RequestView::Ping => (s, Ok(ResponseView::Ack)),
        RequestView::Post(channel, msg) => match member_channel(s, caller, channel) {
            Err(e) => (s, Err(e)),
            Ok(ci) => {
                let ch = s.channels[ci];
                (
                    with_channel(
                        s,
                        ci,
                        ChannelView { queue: ch.queue.push(msg_frame(ch.name, caller, msg)), ..ch },
                    ),
                    Ok(ResponseView::Ack),
                )
            },
        },
        RequestView::Send(to, msg) => {
            let you = client_index(s, to);
            if me >= s.active.len() {
                (s, Err(no_such_user()))
            } else if s.active[me].blocked.contains(to) {
                (s, Ok(ResponseView::Error("user was blocked"@)))
            } else if you >= s.active.len() {
                (s, Err(no_such_user()))
            } else if s.active[you].blocked.contains(caller) {
                (s, Ok(ResponseView::Error("you were blocked by user"@)))
            } else {
                (
                    with_client(
                        s,
                        you,
                        told(s.active[you], msg_frame(direct_name(), caller, msg)),
                    ),
                    Ok(ResponseView::Ack),
                )
            }
        },
        RequestView::Names(channel) => match member_channel(s, caller, channel) {
            Err(e) => (s, Err(e)),
            Ok(ci) => (s, Ok(ResponseView::Info(s.channels[ci].members))),
        },
        RequestView::About => (s, Ok(ResponseView::Info(seq![about_text()]))),
        RequestView::Features => (s, Ok(ResponseView::Info(feature_tags()))),
        RequestView::NewChannel(channel, password) => {
            if channel_index(s, channel) < s.channels.len() || channel == direct_name() {
                (s, Ok(ResponseView::Error("channel exists already"@)))
            } else {
                (
                    ServerView {
                        channels: s.channels.push(
                            ChannelView {
                                name: channel,
                                password,
                                members: seq![caller],
                                queue: seq![],
                            },
                        ),
                        ..s
                    },
                    Ok(ResponseView::Ack),
                )
            }
        },
        RequestView::ListChannels => (s, Ok(ResponseView::Info(channel_names(s.channels)))),
        RequestView::Subscribe(channel, password) => {
            let ci = channel_index(s, channel);
            if ci >= s.channels.len() {
                (s, Err(ResponseView::Error("channel doesn't exist"@)))
            } else if s.channels[ci].password != password {
                (s, Ok(ResponseView::Error("wrong password"@)))
            } else if s.channels[ci].members.contains(caller) {
                (s, Ok(ResponseView::Error("already subscribed"@)))
            } else {
                let ch = s.channels[ci];
                (
                    with_channel(s, ci, ChannelView { members: ch.members.push(caller), ..ch }),
                    Ok(ResponseView::Ack),
                )
            }
        },
        RequestView::Unsubscribe(channel) => match member_channel(s, caller, channel) {
            Err(e) => (s, Err(e)),
            Ok(ci) => {
                let ch = s.channels[ci];
                (
                    with_channel(
                        s,
                        ci,
                        ChannelView { members: without(ch.members, caller), ..ch },
                    ),
                    Ok(ResponseView::Ack),
                )
            },
        },
        RequestView::Block(name) => {
            if !is_active(s, name) || me >= s.active.len() {
                (s, Err(no_such_user()))
            } else if s.active[me].blocked.contains(name) {
                (s, Ok(ResponseView::Error("user already blocked"@)))
            } else {
                let c = s.active[me];
                (
                    with_client(s, me, ClientView { blocked: c.blocked.insert(name), ..c }),
                    Ok(ResponseView::Ack),
                )
            }
        },
        RequestView::Unblock(name) => {
            if me >= s.active.len() {
                (s, Err(no_such_user()))
            } else if !s.active[me].blocked.contains(name) {
                (s, Ok(ResponseView::Error("user wasn't blocked"@)))
            } else {
                let c = s.active[me];
                (
                    with_client(s, me, ClientView { blocked: c.blocked.remove(name), ..c }),
                    Ok(ResponseView::Ack),
                )
            }
        },
        RequestView::Offenses => {
            if me >= s.active.len() {
                (s, Err(no_such_user()))
            } else {
                (
                    s,
                    Ok(
                        ResponseView::Info(
                            seq![decimal(s.active[me].offenses), decimal(MAX_OFFENSES as nat)],
                        ),
                    ),
                )
            }
        },
        RequestView::Pardon(name) => {
            let you = client_index(s, name);
            if you >= s.active.len() {
                (s, Err(no_such_user()))
            } else if s.active[you].offenses == 0 {
                (s, Ok(ResponseView::Error("user has no offenses"@)))
            } else {
                let c = s.active[you];
                (
                    with_client(s, you, ClientView { offenses: (c.offenses - 1) as nat, ..c }),
                    Ok(ResponseView::Ack),
                )
            }
        },
    }
}

/// The response inside a result, whichever side it is on.
pub open spec fn merged(r: Result<ResponseView, ResponseView>) -> ResponseView {
    match r {
        Ok(v) => v,
        Err(v) => v,
    }
}

/// The state after one request has been handled: the request is answered, the
/// response goes to the caller if it is still an active client, and a failure
/// costs the caller one offense.
pub open spec fn dispatched(s: ServerView, p: Pending) -> ServerView {
    let (s1, result) = responded(s, p.client, p.request);
    let resp = merged(result);
    let me = client_index(s1, p.client);
    if me < s1.active.len() {
        let c = s1.active[me];
        let offenses = if resp is Error {
            bumped(c.offenses)
        } else {
            c.offenses
        };
        with_client(s1, me, told(ClientView { offenses, ..c }, response_frame(resp)))
    } else {
        s1
    }
}

/// The state after the requests `ps` have been handled in order.
pub open spec fn dispatched_all(s: ServerView, ps: Seq<Pending>) -> ServerView
    decreases ps.len(),
{
    if ps.len() == 0 {
        s
    } else {
        dispatched(dispatched_all(s, ps.drop_last()), ps.last())
    }
}

/// The messages that wait in the first `n` channels for the client `name`:
/// channel by channel, the whole queue of each channel that lists the client.
pub open spec fn deliveries(channels: Seq<ChannelView>, name: Seq<char>, n: int) -> Seq<Frame>
    decreases n,
{
    if n <= 0 {
        Seq::<Frame>::empty()
    } else {
        let ch = channels[n - 1];
        if ch.members.contains(name) {
            deliveries(channels, name, n - 1) + ch.queue
        } else {
            deliveries(channels, name, n - 1)
        }
    }
}

/// The state after fan-out: every active client has been sent the waiting
/// messages of the channels it is a member of, every passive listener those of
/// the global channel, and no message waits any more.
pub open spec fn fanned_out(s: ServerView) -> ServerView {
    ServerView {
        active: Seq::new(
            s.active.len(),
            |i: int|
                ClientView {
                    conn: sent_all(
                        s.active[i].conn,
                        deliveries(s.channels, name_of(s.active[i]), s.channels.len() as int),
                    ),
                    ..s.active[i]
                },
        ),
        passive: Seq::new(
            s.passive.len(),
            |i: int|
                ClientView {
                    conn: sent_all(s.passive[i].conn, s.channels[0].queue),
                    ..s.passive[i]
                },
        ),
        channels: Seq::new(
            s.channels.len(),
            |i: int| ChannelView { queue: Seq::<Frame>::empty(), ..s.channels[i] },
        ),
    }
}

/// Whether an active client stays: its connection is alive and it has fewer
/// than `MAX_OFFENSES` offenses.
pub open spec fn remains(c: ClientView) -> bool {
    c.conn.alive && c.offenses < MAX_OFFENSES
}

/// The test that an active client stays.
pub open spec fn stays() -> spec_fn(ClientView) -> bool {
    |c: ClientView| remains(c)
}

/// The test that an active client goes.
pub open spec fn goes() -> spec_fn(ClientView) -> bool {
    |c: ClientView| !remains(c)
}

/// The test that the connection of a client is alive.
pub open spec fn hears() -> spec_fn(ClientView) -> bool {
    |c: ClientView| c.conn.alive
}

/// The test that the connection of a client is dead.
pub open spec fn is_deaf() -> spec_fn(ClientView) -> bool {
    |c: ClientView| !c.conn.alive
}

/// The test that a name is among `names`.
pub open spec fn named_in(names: Seq<Seq<char>>) -> spec_fn(Seq<char>) -> bool {
    |m: Seq<char>| names.contains(m)
}

/// The channel with the members that are not named in `names` removed.
pub open spec fn trimmed(ch: ChannelView, names: Seq<Seq<char>>) -> ChannelView {
    ChannelView { members: ch.members.filter(named_in(names)), ..ch }
}

/// Whether a channel stays: it is the global one or it has a member.
pub open spec fn kept(ch: ChannelView) -> bool {
    ch.name == global_name() || ch.members.len() > 0
}

/// The first `n` channels, each without the members that are not named in
/// `names`, and without the channels that are then neither global nor inhabited.
pub open spec fn surviving(channels: Seq<ChannelView>, names: Seq<Seq<char>>, n: int) -> Seq<
    ChannelView,
>
    decreases n,
{
    if n <= 0 {
        Seq::<ChannelView>::empty()
    } else {
        let t = trimmed(channels[n - 1], names);
        if kept(t) {
            surviving(channels, names, n - 1).push(t)
        } else {
            surviving(channels, names, n - 1)
        }
    }
}

/// The state after pruning: the active clients that remain, the listeners
/// whose connection is alive, and the surviving channels.
pub open spec fn pruned(s: ServerView) -> ServerView {
    let active = s.active.filter(stays());
    ServerView {
        active,
        passive: s.passive.filter(hears()),
        channels: surviving(s.channels, client_names(active), s.channels.len() as int),
    }
}

/// The clients that pruning removes: the active ones that do not remain, then
/// the listeners whose connection is dead.
pub open spec fn removed(s: ServerView) -> Seq<ClientView> {
    s.active.filter(goes()) + s.passive.filter(is_deaf())
}

/// The candidate that is turned away when it comes from the admission worker:
/// an active one whose name is taken, with the reason handed to its connection.
pub open spec fn turned_away(s: ServerView, c: ClientView) -> Option<ClientView> {
    match c.name {
        Some(name) => if is_active(s, name) {
            Some(told(c, error_frame("name already used"@)))
        } else {
            None
        },
        None => None,
    }
}

/// The candidates among `cs` that are turned away, in order.
pub open spec fn turned_away_all(s: ServerView, cs: Seq<ClientView>) -> Seq<ClientView>
    decreases cs.len(),
{
    if cs.len() == 0 {
        Seq::<ClientView>::empty()
    } else {
        let before = turned_away_all(s, cs.drop_last());
        match turned_away(admitted_all(s, cs.drop_last()), cs.last()) {
            Some(c) => before.push(c),
            None => before,
        }
    }
}

/// The state after one tick: the new clients are admitted, the waiting
/// requests are read and handled in order, the messages are fanned out, and
/// what has gone is pruned.
pub open spec fn ticked(s: ServerView, incoming: Seq<ClientView>) -> ServerView {
    pruned(fanned_out(answered(admitted_all(s, incoming))))
}

/// The state after the waiting requests of all active clients have been read
/// and handled in order.
pub open spec fn answered(s: ServerView) -> ServerView {
    dispatched_all(
        ServerView { active: drained_all(s.active), ..s },
        collected(s.active, s.active.len() as int),
    )
}

/// The clients that leave the server in one tick: the candidates that are
/// turned away, then those that pruning removes.
pub open spec fn departed(s: ServerView, incoming: Seq<ClientView>) -> Seq<ClientView> {
    turned_away_all(s, incoming) + removed(fanned_out(answered(admitted_all(s, incoming))))
}

/// The frames that a connection was handed between two of its states.
pub open spec fn newly_sent(before: ConnectionView, after: ConnectionView) -> Seq<Frame> {
    after.outgoing.skip(before.outgoing.len() as int)
}

} // verus!
