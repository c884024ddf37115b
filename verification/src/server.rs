//! The server's state machine: clients, channels, and the five phases of a tick.

use vstd::prelude::*;
use vstd::string::*;
use vstd::hash_set::StringHashSet;
use crate::connection::{sent_all, Connection, ConnectionView};
use crate::package::{ETX, Frame, Package};
use crate::requests::{rejection, Request, RequestView};
use crate::response::{Response, ResponseView};
use crate::server::laws::{
    lemma_admitted_well_formed, lemma_dispatched_well_formed, lemma_drained_all_well_formed,
    lemma_fanned_out_well_formed, lemma_names_after_update, lemma_position_at, lemma_position_of,
    lemma_pruned_settled, lemma_responded_well_formed,
};
use crate::server::model::{
    about_text, ack_frame, admitted, admitted_all, answered, bumped, channel_index, channel_names,
    client_index, client_names, collected, deliveries, departed, dispatched, dispatched_all,
    drained, drained_all, fanned_out, feature_tags, fresh_client, goes, hears, initial, is_active,
    is_deaf, marked, member_channel, msg_frame, name_of, named_in, pruned, reconnected, remains,
    removed, responded, settled, stays, surviving, ticked, told, trimmed, turned_away,
    turned_away_all, well_formed, with_client, with_listener, ChannelView, ClientView,
    MAX_OFFENSES, Pending, ServerView,
};
use crate::text::{
    clone_strings, decimal, decimal_string, drop_name, holds, lemma_find, same_text, without,
};

pub mod laws;
pub mod login;
pub mod model;

verus! {

/// Name of the global channel.
pub const GLOBAL_CHANNEL_NAME: &'static str = "";

/// Channel tag of direct messages.
pub const DIRECT_CHANNEL_NAME: &'static str = "__direct";

/// An admitted session.
pub struct Client {
    conn: Connection,
    name: Option<String>,
    offenses: u8,
    blocked: StringHashSet,
}

impl View for Client {
    type V = ClientView;

    closed spec fn view(&self) -> ClientView {
        ClientView {
            conn: self.conn@,
            name: match self.name {
                Some(n) => Some(n@),
                None => None,
            },
            offenses: if self.offenses <= MAX_OFFENSES {
                self.offenses as nat
            } else {
                MAX_OFFENSES as nat
            },
            blocked: self.blocked@,
        }
    }
}

impl DeepView for Client {
    type V = ClientView;

    open spec fn deep_view(&self) -> ClientView {
        self@
    }
}

impl Client {
    /// A client without offenses that blocks nobody. Without a name it is a
    /// passive listener.
    pub fn new(conn: Connection, name: Option<String>) -> (r: Client)
        ensures
            r@ == fresh_client(
                conn@,
                match name {
                    Some(n) => Some(n@),
                    None => None,
                },
            ),
    {
        Client { conn, name, offenses: 0, blocked: StringHashSet::new() }
    }

    /// The offenses of a client never exceed the limit.
    pub proof fn lemma_offenses_bounded(&self)
        ensures
            self@.offenses <= MAX_OFFENSES,
    {
    }

    /// The name of an active client; a passive listener has none.
    pub fn name(&self) -> (r: Option<&String>)
        ensures
            match r {
                Some(n) => self@.name == Some(n@),
                None => self@.name is None,
            },
    {
        self.name.as_ref()
    }

    /// Whether the client refuses to talk to `name`.
    pub fn has_blocked(&self, name: &str) -> (r: bool)
        ensures
            r == self@.blocked.contains(name@),
    {
        self.blocked.contains(name)
    }

    /// The number of offenses.
    pub fn offenses(&self) -> (r: u8)
        ensures
            r == self@.offenses,
    {
        if self.offenses <= MAX_OFFENSES {
            self.offenses
        } else {
            MAX_OFFENSES
        }
    }

    /// Counts one more offense, up to the limit.
    pub fn offend(&mut self)
        ensures
            final(self)@ == (ClientView { offenses: bumped(old(self)@.offenses), ..old(self)@ }),
    {
        if self.offenses < MAX_OFFENSES {
            self.offenses = self.offenses + 1;
        }
    }

    /// Reads every frame that waits on the connection and gives the requests
    /// among them. A frame that is no valid request is answered with the
    /// rejection at once and counts as an offense.
    pub fn collect_requests(&mut self) -> (r: Vec<Request>)
        ensures
            final(self)@ == drained(old(self)@).0,
            r.deep_view() == drained(old(self)@).1,
    {
        let ghost start = self@;
        let mut r: Vec<Request> = Vec::new();
        assert(r.deep_view() == Seq::<RequestView>::empty());
        loop
            invariant_except_break
                drained(start).0 == drained(self@).0,
                drained(start).1 == r.deep_view() + drained(self@).1,
            ensures
                self@ == drained(start).0,
                r.deep_view() == drained(start).1,
            decreases self@.conn.pending.len(),
        {
            let ghost cur = self@;
            proof {
                lemma_find(cur.conn.pending, ETX);
            }
            match self.conn.get_package() {
                None => {
                    assert(drained(cur).1 == Seq::<RequestView>::empty());
                    break ;
                },
                Some(pkg) => {
                    match Request::parse(pkg) {
                        Ok(req) => {
                            let ghost before = r.deep_view();
                            r.push(req);
                            assert(r.deep_view() == before.push(req@));
                            assert(before + (seq![req@] + drained(self@).1) == before.push(req@)
                                + drained(self@).1);
                        },
                        Err(why) => {
                            self.offend();
                            self.conn.send_package(&why.package());
                        },
                    }
                },
            }
        }
        r
    }

    /// Whether the client stays on the server: its connection is alive and
    /// its offenses are below the limit.
    pub fn should_remain(&self) -> (r: bool)
        ensures
            r == remains(self@),
    {
        self.conn.alive() && self.offenses < MAX_OFFENSES
    }

    /// The client's connection.
    pub fn conn(&mut self) -> (r: &mut Connection)
        ensures
            r@ == old(self)@.conn,
            final(self)@ == (ClientView { conn: final(r)@, ..old(self)@ }),
    {
        &mut self.conn
    }
}

/// A named group of subscribers.
pub struct Channel {
    name: String,
    password: String,
    members: Vec<String>,
    msg_queue: Vec<Package>,
}

impl View for Channel {
    type V = ChannelView;

    closed spec fn view(&self) -> ChannelView {
        ChannelView {
            name: self.name@,
            password: self.password@,
            members: self.members.deep_view(),
            queue: self.msg_queue.deep_view(),
        }
    }
}

impl DeepView for Channel {
    type V = ChannelView;

    open spec fn deep_view(&self) -> ChannelView {
        self@
    }
}

impl Default for Channel {
    /// The global channel as it is when the server starts.
    fn default() -> (r: Channel)
        ensures
            r@ == initial().channels[0],
    {
        let members: Vec<String> = Vec::new();
        let msg_queue: Vec<Package> = Vec::new();
        assert(members.deep_view() == Seq::<Seq<char>>::empty());
        assert(msg_queue.deep_view() == Seq::<Frame>::empty());
        Channel { name: String::new(), password: String::new(), members, msg_queue }
    }
}

impl Channel {
    /// A channel with the founder as its only member and no message waiting.
    pub fn new(name: String, password: String, founder: String) -> (r: Channel)
        ensures
            r@ == (ChannelView {
                name: name@,
                password: password@,
                members: seq![founder@],
                queue: seq![],
            }),
    {
        let mut members: Vec<String> = Vec::new();
        members.push(founder);
        let msg_queue: Vec<Package> = Vec::new();
        assert(members.deep_view() == seq![founder@]);
        assert(msg_queue.deep_view() == Seq::<Frame>::empty());
        Channel { name, password, members, msg_queue }
    }

    /// Queues a message of `from` for the next fan-out.
    pub fn append_msg(&mut self, from: String, msg: String)
        ensures
            final(self)@ == (ChannelView {
                queue: old(self)@.queue.push(msg_frame(old(self)@.name, from@, msg@)),
                ..old(self)@
            }),
    {
        let ghost before = self.msg_queue.deep_view();
        let pkg = Response::Msg(self.name.clone(), from, msg).package();
        self.msg_queue.push(pkg);
        assert(self.msg_queue.deep_view() == before.push(pkg@));
    }

    /// The name of the channel.
    pub fn name(&self) -> (r: &String)
        ensures
            r@ == self@.name,
    {
        &self.name
    }

    /// The password of the channel; the empty one leaves it open.
    pub fn password(&self) -> (r: &String)
        ensures
            r@ == self@.password,
    {
        &self.password
    }

    /// The names of the members, in the order in which they joined.
    pub fn members(&self) -> (r: &Vec<String>)
        ensures
            r.deep_view() == self@.members,
    {
        &self.members
    }

    /// The messages that wait for the next fan-out, oldest first.
    pub fn queue(&self) -> (r: &Vec<Package>)
        ensures
            r.deep_view() == self@.queue,
    {
        &self.msg_queue
    }

    /// Takes `name` off the list of members.
    pub fn remove_member(&mut self, name: &str)
        ensures
            final(self)@ == (ChannelView {
                members: without(old(self)@.members, name@),
                ..old(self)@
            }),
    {
        drop_name(&mut self.members, name);
    }

    /// Whether `name` is a member.
    pub fn has_member(&self, name: &str) -> (r: bool)
        ensures
            r == self@.members.contains(name@),
    {
        holds(&self.members, name)
    }
}

/// The chat state and the transitions of a tick.
pub struct Server {
    active_clients: Vec<Client>,
    passive_clients: Vec<Client>,
    channels: Vec<Channel>,
}

impl View for Server {
    type V = ServerView;

    closed spec fn view(&self) -> ServerView {
        ServerView {
            active: self.active_clients.deep_view(),
            passive: self.passive_clients.deep_view(),
            channels: self.channels.deep_view(),
        }
    }
}

/// The requests of a list, each with the name of the client that made it.
pub open spec fn pendings(v: Seq<(String, Request)>) -> Seq<Pending> {
    Seq::new(v.len(), |i: int| Pending { client: v[i].0@, request: v[i].1@ })
}

/// Whether a result carries the given content.
pub open spec fn response_is(
    r: Result<Response, Response>,
    m: Result<ResponseView, ResponseView>,
) -> bool {
    match r {
        Ok(v) => m == Ok::<ResponseView, ResponseView>(v@),
        Err(e) => m == Err::<ResponseView, ResponseView>(e@),
    }
}

impl Server {
    /// The banner that `About` is answered with.
    pub const ABOUT: &'static str = "rs_chat server v0.1.0 by blindner";

    /// The feature tags that `Features` is answered with.
    pub const FEATURES: [&'static str; 4] = ["basic", "direct", "channels", "offenses"];

    /// What holds of a server at every moment.
    pub open spec fn wf(&self) -> bool {
        well_formed(self@)
    }

    /// A server with nobody on it and the global channel open.
    pub fn new() -> (r: Server)
        ensures
            r@ == initial(),
            r.wf(),
    {
        let active_clients: Vec<Client> = Vec::new();
        let passive_clients: Vec<Client> = Vec::new();
        let mut channels: Vec<Channel> = Vec::new();
        channels.push(Channel::default());
        assert(active_clients.deep_view() == Seq::<ClientView>::empty());
        assert(passive_clients.deep_view() == Seq::<ClientView>::empty());
        assert(channels.deep_view() == initial().channels);
        let r = Server { active_clients, passive_clients, channels };
        assert(channel_names(r@.channels) == seq![Seq::<char>::empty()]);
        assert(client_names(r@.active) == Seq::<Seq<char>>::empty());
        assert(r@.channels[0].members.no_duplicates());
        r
    }

    /// The number of active clients.
    pub fn active_count(&self) -> (r: usize)
        ensures
            r == self@.active.len(),
    {
        self.active_clients.len()
    }

    /// The number of passive listeners.
    pub fn passive_count(&self) -> (r: usize)
        ensures
            r == self@.passive.len(),
    {
        self.passive_clients.len()
    }

    /// The number of channels.
    pub fn channel_count(&self) -> (r: usize)
        ensures
            r == self@.channels.len(),
    {
        self.channels.len()
    }

    /// The active client at `i`.
    pub fn active_client(&self, i: usize) -> (r: &Client)
        requires
            i < self@.active.len(),
        ensures
            r@ == self@.active[i as int],
    {
        &self.active_clients[i]
    }

    /// The passive listener at `i`.
    pub fn passive_client(&self, i: usize) -> (r: &Client)
        requires
            i < self@.passive.len(),
        ensures
            r@ == self@.passive[i as int],
    {
        &self.passive_clients[i]
    }

    /// The channel at `i`.
    pub fn channel(&self, i: usize) -> (r: &Channel)
        requires
            i < self@.channels.len(),
        ensures
            r@ == self@.channels[i as int],
    {
        &self.channels[i]
    }

    /// The connection of the active client at `i`.
    fn active_conn_at(&mut self, i: usize) -> (r: &mut Connection)
        requires
            i < old(self)@.active.len(),
        ensures
            r@ == old(self)@.active[i as int].conn,
            final(self)@.active == old(self)@.active.update(
                i as int,
                reconnected(old(self)@.active[i as int], final(r)@),
            ),
            final(self)@.passive == old(self)@.passive,
            final(self)@.channels == old(self)@.channels,
    {
        &mut self.active_clients[i].conn
    }

    /// The connection of the passive listener at `i`.
    fn passive_conn_at(&mut self, i: usize) -> (r: &mut Connection)
        requires
            i < old(self)@.passive.len(),
        ensures
            r@ == old(self)@.passive[i as int].conn,
            final(self)@.passive == old(self)@.passive.update(
                i as int,
                reconnected(old(self)@.passive[i as int], final(r)@),
            ),
            final(self)@.active == old(self)@.active,
            final(self)@.channels == old(self)@.channels,
    {
        &mut self.passive_clients[i].conn
    }

    /// The connection of the active client at `i`, for its owner to read
    /// from and write to.
    pub fn active_conn(&mut self, i: usize) -> (r: &mut Connection)
        requires
            i < old(self)@.active.len(),
        ensures
            r@ == old(self)@.active[i as int].conn,
            final(self)@ == with_client(
                old(self)@,
                i as int,
                reconnected(old(self)@.active[i as int], final(r)@),
            ),
            old(self).wf() ==> final(self).wf(),
    {
        proof {
            let s = self@;
            assert forall|conn: ConnectionView|
                well_formed(s) implies well_formed(
                with_client(s, i as int, #[trigger] reconnected(s.active[i as int], conn)),
            ) by {
                lemma_names_after_update(s.active, i as int, reconnected(s.active[i as int], conn));
            }
        }
        self.active_conn_at(i)
    }

    /// The connection of the passive listener at `i`, for its owner to write to.
    pub fn passive_conn(&mut self, i: usize) -> (r: &mut Connection)
        requires
            i < old(self)@.passive.len(),
        ensures
            r@ == old(self)@.passive[i as int].conn,
            final(self)@ == with_listener(
                old(self)@,
                i as int,
                reconnected(old(self)@.passive[i as int], final(r)@),
            ),
            old(self).wf() ==> final(self).wf(),
    {
        proof {
            let s = self@;
            assert forall|conn: ConnectionView|
                well_formed(s) implies well_formed(
                with_listener(s, i as int, #[trigger] reconnected(s.passive[i as int], conn)),
            ) by {}
        }
        self.passive_conn_at(i)
    }

    /// The index of the active client called `name`, if there is one.
    pub fn active_index(&self, name: &str) -> (r: Option<usize>)
        ensures
            match r {
                Some(i) => i == client_index(self@, name@) && is_active(self@, name@),
                None => !is_active(self@, name@),
            },
    {
        let i = self.find_client(name);
        if i < self.active_clients.len() {
            Some(i)
        } else {
            None
        }
    }

    /// The index of the channel called `name`, if there is one.
    pub fn channel_position(&self, name: &str) -> (r: Option<usize>)
        ensures
            match r {
                Some(i) => i == channel_index(self@, name@) && i < self@.channels.len(),
                None => channel_index(self@, name@) >= self@.channels.len(),
            },
    {
        let i = self.find_channel(name);
        if i < self.channels.len() {
            Some(i)
        } else {
            None
        }
    }

    /// Index of the active client called `name`, or the number of active
    /// clients if there is none.
    fn find_client(&self, name: &str) -> (r: usize)
        ensures
            r == client_index(self@, name@),
            r <= self.active_clients.len(),
    {
        let ghost keys = client_names(self@.active);
        let mut i: usize = 0;
        while i < self.active_clients.len()
            invariant
                i <= self.active_clients.len(),
                keys == client_names(self@.active),
                keys.len() == self.active_clients.len(),
                forall|j: int| 0 <= j < i ==> keys[j] != name@,
            decreases self.active_clients.len() - i,
        {
            let hit = match &self.active_clients[i].name {
                Some(n) => same_text(n.as_str(), name),
                None => same_text("", name),
            };
            proof {
                reveal_strlit("");
                assert(""@ == Seq::<char>::empty());
                let c = self.active_clients[i as int];
                assert(keys[i as int] == name_of(c@));
                assert(hit == (name_of(c@) == name@));
            }
            if hit {
                proof {
                    lemma_position_at(keys, name@, i as int);
                }
                return i;
            }
            i += 1;
        }
        proof {
            lemma_position_at(keys, name@, i as int);
        }
        i
    }

    /// Index of the channel called `name`, or the number of channels if there is none.
    fn find_channel(&self, name: &str) -> (r: usize)
        ensures
            r == channel_index(self@, name@),
            r <= self.channels.len(),
    {
        let ghost keys = channel_names(self@.channels);
        let mut i: usize = 0;
        while i < self.channels.len()
            invariant
                i <= self.channels.len(),
                keys == channel_names(self@.channels),
                keys.len() == self.channels.len(),
                forall|j: int| 0 <= j < i ==> keys[j] != name@,
            decreases self.channels.len() - i,
        {
            assert(keys[i as int] == self.channels[i as int]@.name);
            if same_text(self.channels[i].name.as_str(), name) {
                proof {
                    lemma_position_at(keys, name@, i as int);
                }
                return i;
            }
            i += 1;
        }
        proof {
            lemma_position_at(keys, name@, i as int);
        }
        i
    }

    /// Takes in one client that comes from the admission worker. Gives the
    /// client back if it is turned away.
    fn take_in(&mut self, c: Client) -> (r: Option<Client>)
        requires
            old(self).wf(),
        ensures
            final(self).wf(),
            final(self)@ == admitted(old(self)@, c@),
            match r {
                Some(x) => turned_away(old(self)@, c@) == Some(x@),
                None => turned_away(old(self)@, c@) is None,
            },
    {
        proof {
            lemma_admitted_well_formed(self@, c@);
        }
        let mut c = c;
        let ghost before = self@;
        let ghost cv = c@;
        let name = match &c.name {
            None => {
                c.conn.send_package(&Response::Ack.package());
                let ghost listeners = self.passive_clients.deep_view();
                self.passive_clients.push(c);
                assert(self.passive_clients.deep_view() == listeners.push(told(cv, ack_frame())));
                return None;
            },
            Some(n) => n.clone(),
        };
        let at = self.find_client(name.as_str());
        if at < self.active_clients.len() {
            c.conn.send_package(&Response::err("name already used").package());
            return Some(c);
        }
        c.conn.send_package(&Response::Ack.package());
        let ghost clients = self.active_clients.deep_view();
        self.active_clients.push(c);
        assert(self.active_clients.deep_view() == clients.push(told(cv, ack_frame())));
        if !self.channels[0].has_member(name.as_str()) {
            let ghost members = self.channels[0].members.deep_view();
            self.channels[0].members.push(name);
            assert(self.channels[0].members.deep_view() == members.push(name@));
        }
        assert(self@.channels == before.channels.update(0, self.channels[0]@));
        None
    }

    /// Phase one of a tick: takes in the clients that come from the admission
    /// worker, in order, and gives back those that are turned away.
    pub fn collect_new_clients(&mut self, incoming: Vec<Client>) -> (rejected: Vec<Client>)
        requires
            old(self).wf(),
        ensures
            final(self).wf(),
            final(self)@ == admitted_all(old(self)@, incoming.deep_view()),
            rejected.deep_view() == turned_away_all(old(self)@, incoming.deep_view()),
    {
        let ghost start = self@;
        let ghost all = incoming.deep_view();
        let mut rejected: Vec<Client> = Vec::new();
        assert(all.take(0) == Seq::<ClientView>::empty());
        assert(rejected.deep_view() == Seq::<ClientView>::empty());
        for c in it: incoming
            invariant
                it.seq().len() == all.len(),
                forall|j: int| 0 <= j < all.len() ==> it.seq()[j]@ == all[j],
                self.wf(),
                self@ == admitted_all(start, all.take(it.index() as int)),
                rejected.deep_view() == turned_away_all(start, all.take(it.index() as int)),
        {
            proof {
                let next = all.take(it.index() + 1);
                assert(next.drop_last() == all.take(it.index() as int));
                assert(next.last() == c@);
            }
            let ghost before = rejected.deep_view();
            match self.take_in(c) {
                Some(back) => {
                    rejected.push(back);
                    assert(rejected.deep_view() == before.push(back@));
                },
                None => {},
            }
        }
        assert(all.take(all.len() as int) == all);
        rejected
    }

    /// Phase two of a tick: reads the frames that wait on the connections of
    /// the active clients, client by client, and gives the requests among
    /// them, each with the name of the client that made it.
    pub fn collect_requests(&mut self) -> (r: Vec<(String, Request)>)
        requires
            old(self).wf(),
        ensures
            final(self).wf(),
            final(self)@ == (ServerView { active: drained_all(old(self)@.active), ..old(self)@ }),
            pendings(r@) == collected(old(self)@.active, old(self)@.active.len() as int),
    {
        let ghost start = self@;
        proof {
            lemma_drained_all_well_formed(start);
        }
        let mut r: Vec<(String, Request)> = Vec::new();
        let n: usize = self.active_clients.len();
        let mut i: usize = 0;
        assert(pendings(r@) == Seq::<Pending>::empty());
        while i < n
            invariant
                i <= n,
                n == start.active.len(),
                self@.passive == start.passive,
                self@.channels == start.channels,
                self@.active.len() == n,
                forall|j: int| 0 <= j < i ==> self@.active[j] == drained(start.active[j]).0,
                forall|j: int| i <= j < n ==> self@.active[j] == start.active[j],
                pendings(r@) == collected(start.active, i as int),
            decreases n - i,
        {
            let ghost before = self@;
            let name = match &self.active_clients[i].name {
                Some(n) => n.clone(),
                None => String::new(),
            };
            assert(name@ == name_of(start.active[i as int]));
            let reqs = self.active_clients[i].collect_requests();
            assert(self@.active == before.active.update(i as int, self.active_clients[i as int]@));
            let ghost got = reqs.deep_view();
            let ghost base = pendings(r@);
            for req in it: reqs
                invariant
                    it.seq().len() == got.len(),
                    forall|j: int| 0 <= j < got.len() ==> it.seq()[j]@ == got[j],
                    pendings(r@) == base + marked(name@, got.take(it.index() as int)),
            {
                let ghost so_far = pendings(r@);
                r.push((name.clone(), req));
                assert(pendings(r@) == so_far.push(Pending { client: name@, request: req@ }));
                assert(marked(name@, got.take(it.index() + 1)) == marked(
                    name@,
                    got.take(it.index() as int),
                ).push(Pending { client: name@, request: req@ }));
            }
            assert(got.take(got.len() as int) == got);
            i += 1;
        }
        assert(self@.active == drained_all(start.active));
        r
    }

    /// Handles one request of `client` and gives the response to it.
    ///
    /// The result is `Err` where a channel or a user that the request needs
    /// is not there, or the client is not a member of the channel.
    pub fn respond_to(&mut self, client: &String, req: Request) -> (r: Result<Response, Response>)
        requires
            old(self).wf(),
        ensures
            final(self).wf(),
            final(self)@ == responded(old(self)@, client@, req@).0,
            response_is(r, responded(old(self)@, client@, req@).1),
    {
        proof {
            lemma_responded_well_formed(self@, client@, req@);
            lemma_position_of(client_names(self@.active), client@);
        }
        let caller: &str = client.as_str();
        match req {
            Request::Login(_) | Request::Listen => Ok(Response::err("already logged in")),
            Request::Ping => Ok(Response::Ack),
            Request::Post(channel, msg) => {
                match self.get_channel(caller, channel.as_str()) {
                    Err(e) => Err(e),
                    Ok(ci) => {
                        let ghost before = self@;
                        self.channels[ci].append_msg(client.clone(), msg);
                        assert(self@.channels == before.channels.update(
                            ci as int,
                            self.channels[ci as int]@,
                        ));
                        Ok(Response::Ack)
                    },
                }
            },
            Request::Send(to, msg) => {
                let me = self.find_client(caller);
                if me >= self.active_clients.len() {
                    return Err(Response::err("user doesn't exist"));
                }
                if self.active_clients[me].blocked.contains(to.as_str()) {
                    return Ok(Response::err("user was blocked"));
                }
                let you = self.find_client(to.as_str());
                if you >= self.active_clients.len() {
                    return Err(Response::err("user doesn't exist"));
                }
                if self.active_clients[you].blocked.contains(caller) {
                    return Ok(Response::err("you were blocked by user"));
                }
                let ghost before = self@;
                let pkg = Response::msg(DIRECT_CHANNEL_NAME, caller, msg.as_str()).package();
                self.active_clients[you].conn.send_package(&pkg);
                assert(self@.active == before.active.update(
                    you as int,
                    self.active_clients[you as int]@,
                ));
                Ok(Response::Ack)
            },
            Request::Names(channel) => {
                match self.get_channel(caller, channel.as_str()) {
                    Err(e) => Err(e),
                    Ok(ci) => Ok(Response::Info(clone_strings(&self.channels[ci].members))),
                }
            },
            Request::About => {
                let mut data: Vec<String> = Vec::new();
                data.push(String::from_str(Self::ABOUT));
                assert(data.deep_view() == seq![about_text()]);
                Ok(Response::Info(data))
            },
            Request::Features => {
                let mut data: Vec<String> = Vec::new();
                data.push(String::from_str("basic"));
                data.push(String::from_str("direct"));
                data.push(String::from_str("channels"));
                data.push(String::from_str("offenses"));
                assert(data.deep_view() == feature_tags());
                Ok(Response::Info(data))
            },
            Request::NewChannel(channel, passwd) => {
                let ci = self.find_channel(channel.as_str());
                if ci < self.channels.len() || same_text(channel.as_str(), DIRECT_CHANNEL_NAME) {
                    return Ok(Response::err("channel exists already"));
                }
                let ghost before = self@;
                let created = Channel::new(channel, passwd, client.clone());
                self.channels.push(created);
                assert(self@.channels == before.channels.push(created@));
                Ok(Response::Ack)
            },
            Request::ListChannels => {
                let mut data: Vec<String> = Vec::new();
                let mut i: usize = 0;
                assert(data.deep_view() == channel_names(self@.channels).take(0));
                while i < self.channels.len()
                    invariant
                        i <= self.channels.len(),
                        data.deep_view() == channel_names(self@.channels).take(i as int),
                    decreases self.channels.len() - i,
                {
                    let ghost before = data.deep_view();
                    let n = self.channels[i].name.clone();
                    data.push(n);
                    assert(data.deep_view() == before.push(n@));
                    i += 1;
                    assert(data.deep_view() == channel_names(self@.channels).take(i as int));
                }
                assert(channel_names(self@.channels).take(i as int) == channel_names(
                    self@.channels,
                ));
                Ok(Response::Info(data))
            },
            Request::Subscribe(channel, passwd) => {
                let ci = self.find_channel(channel.as_str());
                if ci >= self.channels.len() {
                    return Err(Response::err("channel doesn't exist"));
                }
                if !same_text(self.channels[ci].password.as_str(), passwd.as_str()) {
                    return Ok(Response::err("wrong password"));
                }
                if self.channels[ci].has_member(caller) {
                    return Ok(Response::err("already subscribed"));
                }
                let ghost before = self@;
                let ghost members = self.channels[ci as int].members.deep_view();
                self.channels[ci].members.push(client.clone());
                assert(self.channels[ci as int].members.deep_view() == members.push(client@));
                assert(self@.channels == before.channels.update(
                    ci as int,
                    self.channels[ci as int]@,
                ));
                Ok(Response::Ack)
            },
            Request::Unsubscribe(channel) => {
                match self.get_channel(caller, channel.as_str()) {
                    Err(e) => Err(e),
                    Ok(ci) => {
                        let ghost before = self@;
                        self.channels[ci].remove_member(caller);
                        assert(self@.channels == before.channels.update(
                            ci as int,
                            self.channels[ci as int]@,
                        ));
                        Ok(Response::Ack)
                    },
                }
            },
            Request::Block(name) => {
                let you = self.find_client(name.as_str());
                if you >= self.active_clients.len() {
                    return Err(Response::err("user doesn't exist"));
                }
                let me = self.find_client(caller);
                if me >= self.active_clients.len() {
                    return Err(Response::err("user doesn't exist"));
                }
                let ghost before = self@;
                let fresh = self.active_clients[me].blocked.insert(name);
                if fresh {
                    assert(self@.active == before.active.update(
                        me as int,
                        self.active_clients[me as int]@,
                    ));
                    Ok(Response::Ack)
                } else {
                    assert(self.active_clients[me as int].blocked@ == before.active[me as int].blocked);
                    assert(self.active_clients[me as int]@ == before.active[me as int]);
                    assert(self@.active == before.active);
                    Ok(Response::err("user already blocked"))
                }
            },
            Request::Unblock(name) => {
                let me = self.find_client(caller);
                if me >= self.active_clients.len() {
                    return Err(Response::err("user doesn't exist"));
                }
                let ghost before = self@;
                let was = self.active_clients[me].blocked.remove(name.as_str());
                if was {
                    assert(self@.active == before.active.update(
                        me as int,
                        self.active_clients[me as int]@,
                    ));
                    Ok(Response::Ack)
                } else {
                    assert(self.active_clients[me as int].blocked@ == before.active[me as int].blocked);
                    assert(self.active_clients[me as int]@ == before.active[me as int]);
                    assert(self@.active == before.active);
                    Ok(Response::err("user wasn't blocked"))
                }
            },
            Request::Offenses => {
                let me = self.find_client(caller);
                if me >= self.active_clients.len() {
                    return Err(Response::err("user doesn't exist"));
                }
                let mut data: Vec<String> = Vec::new();
                data.push(decimal_string(self.active_clients[me].offenses()));
                data.push(decimal_string(MAX_OFFENSES));
                assert(data.deep_view() == seq![
                    decimal(self@.active[me as int].offenses),
                    decimal(MAX_OFFENSES as nat),
                ]);
                Ok(Response::Info(data))
            },
            Request::Pardon(name) => {
                let you = self.find_client(name.as_str());
                if you >= self.active_clients.len() {
                    return Err(Response::err("user doesn't exist"));
                }
                let count = self.active_clients[you].offenses();
                if count > 0 {
                    let ghost before = self@;
                    self.active_clients[you].offenses = count - 1;
                    assert(self@.active == before.active.update(
                        you as int,
                        self.active_clients[you as int]@,
                    ));
                    Ok(Response::Ack)
                } else {
                    Ok(Response::err("user has no offenses"))
                }
            },
        }
    }

    /// Handles one request and answers it: the response goes to the client
    /// if it is still active, and a failure costs the client one offense.
    fn dispatch_one(&mut self, client: String, req: Request)
        requires
            old(self).wf(),
        ensures
            final(self).wf(),
            final(self)@ == dispatched(old(self)@, Pending { client: client@, request: req@ }),
    {
        proof {
            lemma_dispatched_well_formed(self@, Pending { client: client@, request: req@ });
        }
        let resp = match self.respond_to(&client, req) {
            Ok(resp) => resp,
            Err(resp) => resp,
        };
        let me = self.find_client(client.as_str());
        if me < self.active_clients.len() {
            let ghost before = self@;
            if resp.is_bad() {
                self.active_clients[me].offend();
            }
            self.active_clients[me].conn.send_package(&resp.package());
            assert(self@.active == before.active.update(
                me as int,
                self.active_clients[me as int]@,
            ));
        }
    }

    /// Phase three of a tick: handles the collected requests in order.
    pub fn dispatch(&mut self, requests: Vec<(String, Request)>)
        requires
            old(self).wf(),
        ensures
            final(self).wf(),
            final(self)@ == dispatched_all(old(self)@, pendings(requests@)),
    {
        let ghost start = self@;
        let ghost all = pendings(requests@);
        assert(all.take(0) == Seq::<Pending>::empty());
        for pair in it: requests
            invariant
                it.seq().len() == all.len(),
                forall|j: int|
                    0 <= j < all.len() ==> all[j] == (Pending {
                        client: it.seq()[j].0@,
                        request: it.seq()[j].1@,
                    }),
                self.wf(),
                self@ == dispatched_all(start, all.take(it.index() as int)),
        {
            proof {
                let next = all.take(it.index() + 1);
                assert(next.drop_last() == all.take(it.index() as int));
                assert(next.last() == all[it.index() as int]);
            }
            let (client, req) = pair;
            self.dispatch_one(client, req);
        }
        assert(all.take(all.len() as int) == all);
    }

    /// Phase four of a tick: sends every active client the waiting messages
    /// of the channels it is a member of, channel by channel, sends every
    /// passive listener those of the global channel, and empties the queues.
    pub fn send_queues(&mut self)
        requires
            old(self).wf(),
        ensures
            final(self).wf(),
            final(self)@ == fanned_out(old(self)@),
    {
        let ghost start = self@;
        proof {
            lemma_fanned_out_well_formed(start);
        }
        let n: usize = self.active_clients.len();
        let m: usize = self.channels.len();
        let mut i: usize = 0;
        while i < n
            invariant
                i <= n,
                n == start.active.len(),
                m == start.channels.len(),
                self@.passive == start.passive,
                self@.channels == start.channels,
                self@.active.len() == n,
                forall|j: int| 0 <= j < i ==> self@.active[j] == fanned_out(start).active[j],
                forall|j: int| i <= j < n ==> self@.active[j] == start.active[j],
            decreases n - i,
        {
            let ghost before = self@;
            let ghost me = start.active[i as int];
            let name = match &self.active_clients[i].name {
                Some(n) => n.clone(),
                None => String::new(),
            };
            assert(name@ == name_of(me));
            let mut ci: usize = 0;
            assert(sent_all(me.conn, deliveries(start.channels, name@, 0)) == me.conn);
            while ci < m
                invariant
                    ci <= m,
                    i < n,
                    n == self.active_clients.len(),
                    m == self.channels.len(),
                    m == start.channels.len(),
                    self@.passive == before.passive,
                    self@.channels == start.channels,
                    self@.active == before.active.update(
                        i as int,
                        ClientView {
                            conn: sent_all(
                                me.conn,
                                deliveries(start.channels, name@, ci as int),
                            ),
                            ..me
                        },
                    ),
                    before.active[i as int] == me,
                    before.active.len() == n,
                    name@ == name_of(me),
                decreases m - ci,
            {
                let ghost mid = self@;
                let ghost so_far = deliveries(start.channels, name@, ci as int);
                let ghost chv = start.channels[ci as int];
                assert(self.channels[ci as int]@ == chv);
                assert(deliveries(start.channels, name@, ci + 1) == if chv.members.contains(
                    name@,
                ) {
                    so_far + chv.queue
                } else {
                    so_far
                });
                assert(self@.active[i as int] == (ClientView {
                    conn: sent_all(me.conn, so_far),
                    ..me
                }));
                assert(self.active_clients[i as int]@ == self@.active[i as int]);
                if self.channels[ci].has_member(name.as_str()) {
                    self.active_clients[i].conn.send_all(&self.channels[ci].msg_queue);
                    assert(self.active_clients[i as int]@.conn == sent_all(
                        sent_all(me.conn, so_far),
                        chv.queue,
                    ));
                    assert(sent_all(sent_all(me.conn, so_far), start.channels[ci as int].queue)
                        == sent_all(me.conn, so_far + start.channels[ci as int].queue)) by {
                        assert(me.conn.outgoing + so_far + start.channels[ci as int].queue
                            == me.conn.outgoing + (so_far + start.channels[ci as int].queue));
                    }
                    assert(self@.active == mid.active.update(
                        i as int,
                        self.active_clients[i as int]@,
                    ));
                }
                ci += 1;
            }
            i += 1;
        }
        let k: usize = self.passive_clients.len();
        let mut j: usize = 0;
        while j < k
            invariant
                j <= k,
                k == start.passive.len(),
                self.channels.len() >= 1,
                self@.active == fanned_out(start).active,
                self@.channels == start.channels,
                self@.passive.len() == k,
                forall|x: int| 0 <= x < j ==> self@.passive[x] == fanned_out(start).passive[x],
                forall|x: int| j <= x < k ==> self@.passive[x] == start.passive[x],
            decreases k - j,
        {
            let ghost before = self@;
            self.passive_clients[j].conn.send_all(&self.channels[0].msg_queue);
            assert(self@.passive == before.passive.update(
                j as int,
                self.passive_clients[j as int]@,
            ));
            j += 1;
        }
        let mut ci: usize = 0;
        while ci < m
            invariant
                ci <= m,
                m == start.channels.len(),
                self@.active == fanned_out(start).active,
                self@.passive == fanned_out(start).passive,
                self@.channels.len() == m,
                forall|x: int| 0 <= x < ci ==> self@.channels[x] == fanned_out(start).channels[x],
                forall|x: int| ci <= x < m ==> self@.channels[x] == start.channels[x],
            decreases m - ci,
        {
            let ghost before = self@;
            self.channels[ci].msg_queue.clear();
            assert(self.channels[ci as int].msg_queue.deep_view() == Seq::<Frame>::empty());
            assert(self@.channels == before.channels.update(ci as int, self.channels[ci as int]@));
            ci += 1;
        }
        assert(self@.channels == fanned_out(start).channels);
    }

    /// Phase five of a tick: drops the active clients whose connection is
    /// dead or whose offenses have reached the limit and the passive listeners
    /// whose connection is dead, takes the members that are no longer active
    /// off every channel, and closes every channel but the global one that
    /// has no member left. Gives back the clients that were dropped.
    pub fn prune(&mut self) -> (gone: Vec<Client>)
        requires
            old(self).wf(),
        ensures
            final(self).wf(),
            final(self)@ == pruned(old(self)@),
            gone.deep_view() == removed(old(self)@),
            (forall|i: int|
                0 <= i < old(self)@.channels.len() ==> (#[trigger] old(
                    self,
                )@.channels[i]).queue.len() == 0) ==> settled(final(self)@),
    {
        let ghost start = self@;
        proof {
            lemma_pruned_settled(start);
            reveal(Seq::filter);
        }
        let mut gone: Vec<Client> = Vec::new();
        let mut active: Vec<Client> = Vec::new();
        std::mem::swap(&mut active, &mut self.active_clients);
        assert(self.active_clients.deep_view() == Seq::<ClientView>::empty());
        assert(gone.deep_view() == Seq::<ClientView>::empty());
        assert(start.active.take(0).filter(stays()) == Seq::<ClientView>::empty());
        assert(start.active.take(0).filter(goes()) == Seq::<ClientView>::empty());
        for c in it: active
            invariant
                it.seq().len() == start.active.len(),
                forall|j: int| 0 <= j < start.active.len() ==> it.seq()[j]@ == start.active[j],
                self.passive_clients.deep_view() == start.passive,
                self.channels.deep_view() == start.channels,
                self.active_clients.deep_view() == start.active.take(it.index() as int).filter(
                    stays(),
                ),
                gone.deep_view() == start.active.take(it.index() as int).filter(goes()),
        {
            proof {
                let done = start.active.take(it.index() as int);
                assert(start.active.take(it.index() + 1) == done.push(c@));
                done.lemma_filter_push(c@, stays());
                done.lemma_filter_push(c@, goes());
            }
            if c.should_remain() {
                let ghost before = self.active_clients.deep_view();
                self.active_clients.push(c);
                assert(self.active_clients.deep_view() == before.push(c@));
            } else {
                let ghost before = gone.deep_view();
                gone.push(c);
                assert(gone.deep_view() == before.push(c@));
            }
        }
        assert(start.active.take(start.active.len() as int) == start.active);
        let ghost gone_active = gone.deep_view();
        let mut passive: Vec<Client> = Vec::new();
        std::mem::swap(&mut passive, &mut self.passive_clients);
        assert(self.passive_clients.deep_view() == Seq::<ClientView>::empty());
        assert(start.passive.take(0).filter(hears()) == Seq::<ClientView>::empty());
        assert(start.passive.take(0).filter(is_deaf()) == Seq::<ClientView>::empty());
        assert(gone.deep_view() == gone_active + start.passive.take(0).filter(is_deaf()));
        for c in it: passive
            invariant
                it.seq().len() == start.passive.len(),
                forall|j: int| 0 <= j < start.passive.len() ==> it.seq()[j]@ == start.passive[j],
                self.active_clients.deep_view() == pruned(start).active,
                self.channels.deep_view() == start.channels,
                self.passive_clients.deep_view() == start.passive.take(it.index() as int).filter(
                    hears(),
                ),
                gone.deep_view() == gone_active + start.passive.take(it.index() as int).filter(
                    is_deaf(),
                ),
        {
            proof {
                let done = start.passive.take(it.index() as int);
                assert(start.passive.take(it.index() + 1) == done.push(c@));
                done.lemma_filter_push(c@, hears());
                done.lemma_filter_push(c@, is_deaf());
            }
            if c.conn.alive() {
                let ghost before = self.passive_clients.deep_view();
                self.passive_clients.push(c);
                assert(self.passive_clients.deep_view() == before.push(c@));
            } else {
                let ghost before = gone.deep_view();
                gone.push(c);
                assert(gone.deep_view() == before.push(c@));
            }
        }
        assert(start.passive.take(start.passive.len() as int) == start.passive);
        let ghost names = client_names(pruned(start).active);
        let mut channels: Vec<Channel> = Vec::new();
        std::mem::swap(&mut channels, &mut self.channels);
        assert(self.channels.deep_view() == Seq::<ChannelView>::empty());
        for ch in it: channels
            invariant
                it.seq().len() == start.channels.len(),
                forall|j: int| 0 <= j < start.channels.len() ==> it.seq()[j]@ == start.channels[j],
                self.active_clients.deep_view() == pruned(start).active,
                self.passive_clients.deep_view() == pruned(start).passive,
                names == client_names(pruned(start).active),
                self.channels.deep_view() == surviving(start.channels, names, it.index() as int),
        {
            let mut ch = ch;
            let ghost cv = ch@;
            self.trim(&mut ch);
            assert(ch@ == trimmed(cv, names));
            assert(ch@.name.len() == 0 <==> ch@.name =~= Seq::<char>::empty());
            assert(ch.members.len() == ch@.members.len());
            if ch.name.as_str().is_empty() || ch.members.len() > 0 {
                let ghost before = self.channels.deep_view();
                self.channels.push(ch);
                assert(self.channels.deep_view() == before.push(ch@));
            }
        }
        gone
    }

    /// Takes the members that are not active clients off a channel.
    fn trim(&self, ch: &mut Channel)
        ensures
            final(ch)@ == trimmed(old(ch)@, client_names(self@.active)),
    {
        let ghost names = client_names(self@.active);
        let ghost all = ch.members.deep_view();
        let ghost pred = named_in(names);
        let mut stay: Vec<String> = Vec::new();
        let mut i: usize = 0;
        proof {
            reveal(Seq::filter);
            assert(all.take(0).filter(pred) == Seq::<Seq<char>>::empty());
            assert(stay.deep_view() == Seq::<Seq<char>>::empty());
        }
        while i < ch.members.len()
            invariant
                i <= ch.members.len(),
                all == ch.members.deep_view(),
                names == client_names(self@.active),
                pred == named_in(names),
                stay.deep_view() == all.take(i as int).filter(pred),
            decreases ch.members.len() - i,
        {
            proof {
                all.take(i as int).lemma_filter_push(all[i as int], pred);
                assert(all.take(i as int).push(all[i as int]) == all.take(i + 1));
                lemma_position_of(names, all[i as int]);
            }
            if self.find_client(ch.members[i].as_str()) < self.active_clients.len() {
                let ghost before = stay.deep_view();
                let m = ch.members[i].clone();
                stay.push(m);
                assert(stay.deep_view() == before.push(all[i as int]));
            }
            i += 1;
        }
        assert(all.take(i as int) == all);
        ch.members = stay;
    }

    /// One tick: admits the clients that come from the admission worker,
    /// reads and handles the waiting requests, fans the messages out and
    /// prunes. Gives back the clients that have left the server: those turned
    /// away at admission, then those that pruning dropped.
    pub fn tick(&mut self, incoming: Vec<Client>) -> (gone: Vec<Client>)
        requires
            old(self).wf(),
        ensures
            final(self).wf(),
            settled(final(self)@),
            final(self)@ == ticked(old(self)@, incoming.deep_view()),
            gone.deep_view() == departed(old(self)@, incoming.deep_view()),
    {
        let mut gone = self.collect_new_clients(incoming);
        let requests = self.collect_requests();
        self.dispatch(requests);
        self.send_queues();
        proof {
            lemma_fanned_out_well_formed(answered(admitted_all(old(self)@, incoming.deep_view())));
        }
        let mut dropped = self.prune();
        let ghost first = gone.deep_view();
        let ghost second = dropped.deep_view();
        gone.append(&mut dropped);
        assert(gone.deep_view() == first + second);
        gone
    }

    /// The channel that `client` may use under the name `channel`.
    fn get_channel(&self, client: &str, channel: &str) -> (r: Result<usize, Response>)
        ensures
            match r {
                Ok(ci) => member_channel(self@, client@, channel@) == Ok::<int, ResponseView>(
                    ci as int,
                ) && ci < self.channels.len(),
                Err(e) => member_channel(self@, client@, channel@) == Err::<int, ResponseView>(e@),
            },
    {
        let ci = self.find_channel(channel);
        if ci >= self.channels.len() {
            return Err(Response::err("channel doesn't exist"));
        }
        if !self.channels[ci].has_member(client) {
            return Err(Response::err("not subscribed to channel"));
        }
        Ok(ci)
    }
}

} // verus!
