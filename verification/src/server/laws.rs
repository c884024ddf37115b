//! What holds of the server's transitions: they keep the state well formed,
//! a tick leaves it settled, and messages reach those they are meant for.

use vstd::prelude::*;
use crate::connection::{polled, sent};
use crate::package::ETX;
use crate::requests::{parsed, rejection, RequestView};
use crate::response::{response_frame, ResponseView};
use crate::text::{differs_from, lemma_find};
use crate::server::model::{
    admitted, admitted_all, answered, bumped, channel_index, channel_names, client_index,
    client_names, collected, deliveries, dispatched, dispatched_all, drained, drained_all,
    fanned_out, global_name, hears, is_active, kept, member_channel, msg_frame, name_of, named_in,
    newly_sent, position_of, posted_to, pruned, responded, settled, stays, surviving, ticked,
    trimmed, well_formed, ChannelView, ClientView, MAX_OFFENSES, Pending, ServerView,
};

verus! {

/// `position_of` stays within `0..=keys.len()`, nothing before it is `key`,
/// and it is `keys.len()` exactly when `key` does not occur.
pub proof fn lemma_position_of(keys: Seq<Seq<char>>, key: Seq<char>)
    ensures
        0 <= position_of(keys, key) <= keys.len(),
        forall|i: int| 0 <= i < position_of(keys, key) ==> keys[i] != key,
        position_of(keys, key) < keys.len() ==> keys[position_of(keys, key)] == key,
        position_of(keys, key) == keys.len() <==> !keys.contains(key),
    decreases keys.len(),
{
    if keys.len() == 0 {
    } else if keys[0] == key {
        assert(keys.contains(key));
    } else {
        let t = keys.drop_first();
        lemma_position_of(t, key);
        assert forall|i: int| 0 <= i < position_of(keys, key) implies keys[i] != key by {
            if i > 0 {
                assert(keys[i] == t[i - 1]);
            }
        }
        if position_of(t, key) < t.len() {
            assert(keys[position_of(keys, key)] == t[position_of(t, key)]);
            assert(keys.contains(key));
        } else {
            assert forall|i: int| 0 <= i < keys.len() implies keys[i] != key by {
                if i > 0 {
                    assert(keys[i] == t[i - 1]);
                }
            }
        }
    }
}

/// A position that holds `key` and has no `key` before it is the one `position_of` gives.
pub proof fn lemma_position_at(keys: Seq<Seq<char>>, key: Seq<char>, k: int)
    requires
        0 <= k <= keys.len(),
        forall|i: int| 0 <= i < k ==> keys[i] != key,
        k < keys.len() ==> keys[k] == key,
    ensures
        position_of(keys, key) == k,
{
    lemma_position_of(keys, key);
    let f = position_of(keys, key);
    if f < k {
        assert(keys[f] == key);
    } else if f > k {
        assert(keys[k] == key);
    }
}

/// Admitting a client keeps the state well formed.
pub proof fn lemma_admitted_well_formed(s: ServerView, c: ClientView)
    requires
        well_formed(s),
        c.offenses <= MAX_OFFENSES,
    ensures
        well_formed(admitted(s, c)),
{
    let t = admitted(s, c);
    match c.name {
        None => {},
        Some(name) => {
            lemma_position_of(client_names(s.active), name);
            if !is_active(s, name) {
                let names = client_names(s.active);
                assert(client_names(t.active) =~= names.push(name));
                assert(!names.contains(name));
                lemma_channel_names_after_update(s.channels, 0, t.channels[0]);
                let members = s.channels[0].members;
                if !members.contains(name) {
                    assert(members.push(name).no_duplicates());
                }
                assert forall|i: int| 0 <= i < t.channels.len() implies (
                #[trigger] t.channels[i]).members.no_duplicates() by {
                    if i > 0 {
                        assert(t.channels[i] == s.channels[i]);
                    }
                }
            }
        },
    }
}

/// Reading the waiting frames of a client changes neither its name nor the
/// peers it blocks, and leaves its offenses within the limit.
pub proof fn lemma_drained_keeps(c: ClientView)
    ensures
        drained(c).0.name == c.name,
        drained(c).0.blocked == c.blocked,
        drained(c).0.conn.token == c.conn.token,
        c.offenses <= MAX_OFFENSES ==> drained(c).0.offenses <= MAX_OFFENSES,
    decreases c.conn.pending.len(),
{
    let (conn, got) = polled(c.conn);
    match got {
        None => {},
        Some(f) => {
            lemma_find(c.conn.pending, ETX);
            match parsed(f) {
                Ok(req) => {
                    lemma_drained_keeps(ClientView { conn, ..c });
                },
                Err(e) => {
                    lemma_drained_keeps(
                        ClientView {
                            conn: sent(conn, response_frame(rejection(e))),
                            offenses: bumped(c.offenses),
                            ..c
                        },
                    );
                },
            }
        },
    }
}

/// Reading the waiting frames of all active clients keeps the state well formed.
pub proof fn lemma_drained_all_well_formed(s: ServerView)
    requires
        well_formed(s),
    ensures
        well_formed(ServerView { active: drained_all(s.active), ..s }),
{
    let t = ServerView { active: drained_all(s.active), ..s };
    assert forall|i: int| 0 <= i < s.active.len() implies name_of(t.active[i]) == name_of(
        s.active[i],
    ) && (#[trigger] t.active[i]).name is Some && t.active[i].offenses <= MAX_OFFENSES by {
        lemma_drained_keeps(s.active[i]);
    }
    assert(client_names(t.active) =~= client_names(s.active));
}

/// Filtering keeps exactly the elements that pass the test, and makes no duplicates.
pub proof fn lemma_filter_distinct<A>(s: Seq<A>, pred: spec_fn(A) -> bool)
    ensures
        forall|x: A| #[trigger] s.filter(pred).contains(x) <==> s.contains(x) && pred(x),
        s.no_duplicates() ==> s.filter(pred).no_duplicates(),
    decreases s.len(),
{
    reveal(Seq::filter);
    if s.len() == 0 {
    } else {
        let front = s.drop_last();
        let last = s.last();
        lemma_filter_distinct(front, pred);
        let ff = front.filter(pred);
        assert(s.filter(pred) == if pred(last) {
            ff.push(last)
        } else {
            ff
        });
        assert forall|x: A| #[trigger] s.filter(pred).contains(x) <==> s.contains(x) && pred(
            x,
        ) by {
            if s.filter(pred).contains(x) {
                let i = choose|i: int| 0 <= i < s.filter(pred).len() && s.filter(pred)[i] == x;
                if pred(last) && i == ff.len() {
                    assert(x == last);
                    assert(s[s.len() - 1] == x);
                } else {
                    assert(ff[i] == x);
                    assert(ff.contains(x));
                    let j = choose|j: int| 0 <= j < front.len() && front[j] == x;
                    assert(s[j] == x);
                }
            }
            if s.contains(x) && pred(x) {
                let j = choose|j: int| 0 <= j < s.len() && s[j] == x;
                if j < front.len() {
                    assert(front[j] == x);
                    assert(front.contains(x));
                    assert(ff.contains(x));
                    let i = choose|i: int| 0 <= i < ff.len() && ff[i] == x;
                    assert(s.filter(pred)[i] == x);
                } else {
                    assert(x == last);
                    assert(s.filter(pred)[ff.len() as int] == x);
                }
            }
        }
        if s.no_duplicates() {
            assert(front.no_duplicates());
            if pred(last) {
                assert(!ff.contains(last)) by {
                    if front.contains(last) {
                        let j = choose|j: int| 0 <= j < front.len() && front[j] == last;
                        assert(s[j] == s[s.len() - 1]);
                    }
                }
                assert(ff.push(last).no_duplicates());
            }
        }
    }
}

/// Replacing a client by one of the same name leaves the list of names as it is.
pub proof fn lemma_names_after_update(active: Seq<ClientView>, i: int, c: ClientView)
    requires
        0 <= i < active.len(),
        name_of(c) == name_of(active[i]),
    ensures
        client_names(active.update(i, c)) == client_names(active),
{
    assert(client_names(active.update(i, c)) =~= client_names(active));
}

/// Replacing a channel by one of the same name leaves the list of names as it is.
pub proof fn lemma_channel_names_after_update(channels: Seq<ChannelView>, i: int, ch: ChannelView)
    requires
        0 <= i < channels.len(),
        ch.name == channels[i].name,
    ensures
        channel_names(channels.update(i, ch)) == channel_names(channels),
{
    assert(channel_names(channels.update(i, ch)) =~= channel_names(channels));
}

/// Handling a request keeps the state well formed.
pub proof fn lemma_responded_well_formed(s: ServerView, caller: Seq<char>, req: RequestView)
    requires
        well_formed(s),
    ensures
        well_formed(responded(s, caller, req).0),
{
    let t = responded(s, caller, req).0;
    let me = client_index(s, caller);
    lemma_position_of(client_names(s.active), caller);
    match req {
        RequestView::Post(channel, msg) => {
            lemma_position_of(channel_names(s.channels), channel);
            if member_channel(s, caller, channel) is Ok {
                let ci = channel_index(s, channel);
                lemma_channel_names_after_update(s.channels, ci, t.channels[ci]);
            }
        },
        RequestView::Send(to, msg) => {
            let you = client_index(s, to);
            lemma_position_of(client_names(s.active), to);
            if t != s {
                lemma_names_after_update(s.active, you, t.active[you]);
            }
        },
        RequestView::NewChannel(channel, password) => {
            lemma_position_of(channel_names(s.channels), channel);
            if t != s {
                let names = channel_names(s.channels);
                assert(channel_names(t.channels) =~= names.push(channel));
                assert(!names.contains(channel));
                assert(seq![caller].no_duplicates());
                assert(t.channels[0] == s.channels[0]);
            }
        },
        RequestView::Subscribe(channel, password) => {
            lemma_position_of(channel_names(s.channels), channel);
            if t != s {
                let ci = channel_index(s, channel);
                lemma_channel_names_after_update(s.channels, ci, t.channels[ci]);
                assert(s.channels[ci].members.no_duplicates());
                assert(s.channels[ci].members.push(caller).no_duplicates());
            }
        },
        RequestView::Unsubscribe(channel) => {
            lemma_position_of(channel_names(s.channels), channel);
            if member_channel(s, caller, channel) is Ok {
                let ci = channel_index(s, channel);
                lemma_channel_names_after_update(s.channels, ci, t.channels[ci]);
                lemma_filter_distinct(s.channels[ci].members, differs_from(caller));
                assert(s.channels[ci].members.no_duplicates());
            }
        },
        RequestView::Block(name) => {
            if t != s {
                lemma_names_after_update(s.active, me, t.active[me]);
            }
        },
        RequestView::Unblock(name) => {
            if t != s {
                lemma_names_after_update(s.active, me, t.active[me]);
            }
        },
        RequestView::Pardon(name) => {
            let you = client_index(s, name);
            lemma_position_of(client_names(s.active), name);
            if t != s {
                lemma_names_after_update(s.active, you, t.active[you]);
            }
        },
        _ => {},
    }
}

/// A direct message is only delivered if neither side blocks the other: when
/// `Send` is acknowledged, the caller does not block the recipient and the
/// recipient does not block the caller.
pub proof fn lemma_send_respects_blocks(
    s: ServerView,
    caller: Seq<char>,
    to: Seq<char>,
    msg: Seq<char>,
)
    requires
        responded(s, caller, RequestView::Send(to, msg)).1 == Ok::<ResponseView, ResponseView>(
            ResponseView::Ack,
        ),
    ensures
        is_active(s, caller),
        is_active(s, to),
        !s.active[client_index(s, caller)].blocked.contains(to),
        !s.active[client_index(s, to)].blocked.contains(caller),
{
}

/// Handling a request and answering it keeps the state well formed.
pub proof fn lemma_dispatched_well_formed(s: ServerView, p: Pending)
    requires
        well_formed(s),
    ensures
        well_formed(dispatched(s, p)),
{
    lemma_responded_well_formed(s, p.client, p.request);
    let s1 = responded(s, p.client, p.request).0;
    let me = client_index(s1, p.client);
    lemma_position_of(client_names(s1.active), p.client);
    if me < s1.active.len() {
        lemma_names_after_update(s1.active, me, dispatched(s, p).active[me]);
    }
}

/// Handling requests in order keeps the state well formed.
pub proof fn lemma_dispatched_all_well_formed(s: ServerView, ps: Seq<Pending>)
    requires
        well_formed(s),
    ensures
        well_formed(dispatched_all(s, ps)),
    decreases ps.len(),
{
    if ps.len() > 0 {
        lemma_dispatched_all_well_formed(s, ps.drop_last());
        lemma_dispatched_well_formed(dispatched_all(s, ps.drop_last()), ps.last());
    }
}

/// Fan-out keeps the state well formed and leaves no message waiting.
pub proof fn lemma_fanned_out_well_formed(s: ServerView)
    requires
        well_formed(s),
    ensures
        well_formed(fanned_out(s)),
        forall|i: int|
            0 <= i < fanned_out(s).channels.len() ==> (#[trigger] fanned_out(
                s,
            ).channels[i]).queue.len() == 0,
{
    let t = fanned_out(s);
    assert(client_names(t.active) =~= client_names(s.active));
    assert(channel_names(t.channels) =~= channel_names(s.channels));
}

/// The clients that pass a test have distinct names if all the clients have.
pub proof fn lemma_filtered_names(active: Seq<ClientView>, pred: spec_fn(ClientView) -> bool)
    requires
        client_names(active).no_duplicates(),
    ensures
        client_names(active.filter(pred)).no_duplicates(),
        forall|i: int|
            0 <= i < active.filter(pred).len() ==> pred(#[trigger] active.filter(pred)[i])
                && active.contains(active.filter(pred)[i]),
    decreases active.len(),
{
    reveal(Seq::filter);
    if active.len() > 0 {
        let front = active.drop_last();
        let last = active.last();
        let ff = front.filter(pred);
        assert(client_names(front) =~= client_names(active).drop_last());
        lemma_filtered_names(front, pred);
        assert(active.filter(pred) == if pred(last) {
            ff.push(last)
        } else {
            ff
        });
        assert forall|i: int| 0 <= i < ff.len() implies active.contains(#[trigger] ff[i])
            && name_of(ff[i]) != name_of(last) by {
            assert(front.contains(ff[i]));
            let j = choose|j: int| 0 <= j < front.len() && front[j] == ff[i];
            assert(active[j] == ff[i]);
            assert(client_names(active)[j] == name_of(ff[i]));
            assert(client_names(active)[active.len() - 1] == name_of(last));
        }
        if pred(last) {
            assert(active[active.len() - 1] == last);
            assert(client_names(ff.push(last)) =~= client_names(ff).push(name_of(last)));
            assert forall|i: int| 0 <= i < ff.len() implies client_names(ff)[i] != name_of(
                last,
            ) by {
                assert(name_of(ff[i]) != name_of(last));
            }
        }
    }
}

/// What holds of the channels that survive pruning.
pub proof fn lemma_surviving(channels: Seq<ChannelView>, names: Seq<Seq<char>>, n: int)
    requires
        0 <= n <= channels.len(),
        channel_names(channels).no_duplicates(),
        forall|i: int| 0 <= i < channels.len() ==> (#[trigger] channels[i]).members.no_duplicates(),
    ensures
        forall|i: int|
            0 <= i < surviving(channels, names, n).len() ==> {
                let ch = #[trigger] surviving(channels, names, n)[i];
                &&& ch.members.no_duplicates()
                &&& kept(ch)
                &&& forall|k: int| 0 <= k < ch.members.len() ==> names.contains(ch.members[k])
                &&& exists|j: int| 0 <= j < n && ch == trimmed(#[trigger] channels[j], names)
            },
        channel_names(surviving(channels, names, n)).no_duplicates(),
        n >= 1 && kept(trimmed(channels[0], names)) ==> surviving(channels, names, n).len() >= 1
            && surviving(channels, names, n)[0] == trimmed(channels[0], names),
    decreases n,
{
    if n > 0 {
        lemma_surviving(channels, names, n - 1);
        let before = surviving(channels, names, n - 1);
        let t = trimmed(channels[n - 1], names);
        let out = surviving(channels, names, n);
        lemma_filter_distinct(channels[n - 1].members, named_in(names));
        assert forall|k: int| 0 <= k < t.members.len() implies names.contains(t.members[k]) by {
            assert(t.members.contains(t.members[k]));
        }
        assert forall|i: int| 0 <= i < before.len() implies (#[trigger] before[i]).name
            != t.name by {
            let j = choose|j: int| 0 <= j < n - 1 && before[i] == trimmed(
                #[trigger] channels[j],
                names,
            );
            assert(channel_names(channels)[j] == channels[j].name);
            assert(channel_names(channels)[n - 1] == channels[n - 1].name);
        }
        if kept(t) {
            assert(out == before.push(t));
            assert(channel_names(out) =~= channel_names(before).push(t.name));
            assert forall|i: int| 0 <= i < out.len() implies {
                let ch = #[trigger] out[i];
                &&& ch.members.no_duplicates()
                &&& kept(ch)
                &&& forall|k: int| 0 <= k < ch.members.len() ==> names.contains(ch.members[k])
                &&& exists|j: int| 0 <= j < n && ch == trimmed(#[trigger] channels[j], names)
            } by {
                if i < before.len() {
                    assert(out[i] == before[i]);
                    let j = choose|j: int| 0 <= j < n - 1 && before[i] == trimmed(
                        #[trigger] channels[j],
                        names,
                    );
                    assert(0 <= j < n && out[i] == trimmed(channels[j], names));
                } else {
                    assert(out[i] == trimmed(channels[n - 1], names));
                }
            }
            assert forall|i: int| 0 <= i < before.len() implies channel_names(before)[i]
                != t.name by {
                assert(before[i].name != t.name);
            }
        } else {
            assert(out == before);
            assert forall|i: int| 0 <= i < out.len() implies {
                let ch = #[trigger] out[i];
                &&& ch.members.no_duplicates()
                &&& kept(ch)
                &&& forall|k: int| 0 <= k < ch.members.len() ==> names.contains(ch.members[k])
                &&& exists|j: int| 0 <= j < n && ch == trimmed(#[trigger] channels[j], names)
            } by {
                let j = choose|j: int| 0 <= j < n - 1 && before[i] == trimmed(
                    #[trigger] channels[j],
                    names,
                );
                assert(0 <= j < n && out[i] == trimmed(channels[j], names));
            }
        }
    }
}

/// Pruning keeps the state well formed. If no message waits, the state is
/// settled afterwards: every member of a channel is an active client, every
/// channel but the global one has a member, every active client has fewer
/// than `MAX_OFFENSES` offenses, and every connection is alive.
pub proof fn lemma_pruned_settled(s: ServerView)
    requires
        well_formed(s),
    ensures
        well_formed(pruned(s)),
        (forall|i: int| 0 <= i < s.channels.len() ==> (#[trigger] s.channels[i]).queue.len() == 0)
            ==> settled(pruned(s)),
{
    let t = pruned(s);
    let names = client_names(t.active);
    lemma_filtered_names(s.active, stays());
    lemma_filter_distinct(s.active, stays());
    lemma_filter_distinct(s.passive, hears());
    lemma_surviving(s.channels, names, s.channels.len() as int);
    assert forall|i: int| 0 <= i < t.active.len() implies (#[trigger] t.active[i]).name is Some
        && t.active[i].offenses < MAX_OFFENSES && t.active[i].conn.alive by {
        assert(s.active.contains(t.active[i]));
    }
    assert forall|i: int| 0 <= i < t.passive.len() implies (#[trigger] t.passive[i]).name is None
        && t.passive[i].conn.alive by {
        assert(t.passive.contains(t.passive[i]));
        assert(s.passive.contains(t.passive[i]));
    }
    assert(kept(trimmed(s.channels[0], names)));
    assert(t.channels[0].name == global_name());
    assert forall|i: int| 0 <= i < t.channels.len() implies (
    #[trigger] t.channels[i]).members.no_duplicates() by {}
    assert forall|i: int, j: int|
        0 <= i < t.channels.len() && 0 <= j < t.channels[i].members.len() implies is_active(
        t,
        #[trigger] t.channels[i].members[j],
    ) by {
        let ch = t.channels[i];
        assert(names.contains(ch.members[j]));
        lemma_position_of(names, ch.members[j]);
    }
    assert forall|i: int| 1 <= i < t.channels.len() implies (
    #[trigger] t.channels[i]).members.len() > 0 by {
        assert(kept(t.channels[i]));
        assert(channel_names(t.channels)[i] == t.channels[i].name);
        assert(channel_names(t.channels)[0] == t.channels[0].name);
    }
    if forall|i: int| 0 <= i < s.channels.len() ==> (#[trigger] s.channels[i]).queue.len() == 0 {
        assert forall|i: int| 0 <= i < t.channels.len() implies (
        #[trigger] t.channels[i]).queue.len() == 0 by {
            let ch = t.channels[i];
            let j = choose|j: int|
                0 <= j < s.channels.len() && ch == trimmed(#[trigger] s.channels[j], names);
            assert(s.channels[j].queue.len() == 0);
        }
    }
}

/// Admitting clients in order keeps the state well formed.
pub proof fn lemma_admitted_all_well_formed(s: ServerView, cs: Seq<ClientView>)
    requires
        well_formed(s),
        forall|i: int| 0 <= i < cs.len() ==> (#[trigger] cs[i]).offenses <= MAX_OFFENSES,
    ensures
        well_formed(admitted_all(s, cs)),
    decreases cs.len(),
{
    if cs.len() > 0 {
        lemma_admitted_all_well_formed(s, cs.drop_last());
        lemma_admitted_well_formed(admitted_all(s, cs.drop_last()), cs.last());
    }
}

/// At the end of a tick the state is well formed and settled: the members of
/// every channel are active clients, every channel but the global one has a
/// member, and every active client has fewer than `MAX_OFFENSES` offenses.
pub proof fn lemma_tick_settles(s: ServerView, incoming: Seq<ClientView>)
    requires
        well_formed(s),
        forall|i: int| 0 <= i < incoming.len() ==> (#[trigger] incoming[i]).offenses <= MAX_OFFENSES,
    ensures
        well_formed(ticked(s, incoming)),
        settled(ticked(s, incoming)),
{
    let s1 = admitted_all(s, incoming);
    lemma_admitted_all_well_formed(s, incoming);
    lemma_drained_all_well_formed(s1);
    lemma_dispatched_all_well_formed(
        ServerView { active: drained_all(s1.active), ..s1 },
        collected(s1.active, s1.active.len() as int),
    );
    lemma_fanned_out_well_formed(answered(s1));
    lemma_pruned_settled(fanned_out(answered(s1)));
}

/// Two active clients never share a name.
pub proof fn lemma_names_are_distinct(s: ServerView, i: int, j: int)
    requires
        well_formed(s),
        0 <= i < s.active.len(),
        0 <= j < s.active.len(),
        i != j,
    ensures
        s.active[i].name is Some,
        s.active[j].name is Some,
        s.active[i].name != s.active[j].name,
{
    assert(client_names(s.active)[i] == name_of(s.active[i]));
    assert(client_names(s.active)[j] == name_of(s.active[j]));
}

/// The messages that wait for a client hold the queue of every one of the
/// first `n` channels that lists the client.
pub proof fn lemma_deliveries_hold(
    channels: Seq<ChannelView>,
    name: Seq<char>,
    n: int,
    ci: int,
    k: int,
)
    requires
        0 <= ci < n <= channels.len(),
        channels[ci].members.contains(name),
        0 <= k < channels[ci].queue.len(),
    ensures
        deliveries(channels, name, n).contains(channels[ci].queue[k]),
    decreases n,
{
    let before = deliveries(channels, name, n - 1);
    let ch = channels[n - 1];
    if ci == n - 1 {
        let d = before + ch.queue;
        assert(d[before.len() + k] == ch.queue[k]);
    } else {
        lemma_deliveries_hold(channels, name, n - 1, ci, k);
        let i = choose|i: int| 0 <= i < before.len() && before[i] == channels[ci].queue[k];
        if ch.members.contains(name) {
            assert((before + ch.queue)[i] == before[i]);
        }
    }
}

/// A message that waits in a channel is delivered at fan-out to every active
/// member of the channel whose connection is alive, and, if the channel is
/// the global one, to every passive listener whose connection is alive.
pub proof fn lemma_fan_out_delivers(s: ServerView, ci: int, k: int)
    requires
        0 <= ci < s.channels.len(),
        0 <= k < s.channels[ci].queue.len(),
    ensures
        forall|i: int|
            0 <= i < s.active.len() && s.active[i].conn.alive && s.channels[ci].members.contains(
                name_of(s.active[i]),
            ) ==> newly_sent(s.active[i].conn, #[trigger] fanned_out(s).active[i].conn).contains(
                s.channels[ci].queue[k],
            ),
        ci == 0 ==> forall|j: int|
            0 <= j < s.passive.len() && s.passive[j].conn.alive ==> newly_sent(
                s.passive[j].conn,
                #[trigger] fanned_out(s).passive[j].conn,
            ).contains(s.channels[ci].queue[k]),
{
    let t = fanned_out(s);
    assert forall|i: int|
        0 <= i < s.active.len() && s.active[i].conn.alive && s.channels[ci].members.contains(
            name_of(s.active[i]),
        ) implies newly_sent(s.active[i].conn, #[trigger] t.active[i].conn).contains(
        s.channels[ci].queue[k],
    ) by {
        let d = deliveries(s.channels, name_of(s.active[i]), s.channels.len() as int);
        lemma_deliveries_hold(s.channels, name_of(s.active[i]), s.channels.len() as int, ci, k);
        assert(newly_sent(s.active[i].conn, t.active[i].conn) =~= d);
    }
    if ci == 0 {
        assert forall|j: int| 0 <= j < s.passive.len() && s.passive[j].conn.alive implies newly_sent(
            s.passive[j].conn,
            #[trigger] t.passive[j].conn,
        ).contains(s.channels[ci].queue[k]) by {
            let q = s.channels[0].queue;
            assert(newly_sent(s.passive[j].conn, t.passive[j].conn) =~= q);
            assert(q[k] == s.channels[ci].queue[k]);
        }
    }
}

/// Handling a request takes no waiting message away and moves no channel:
/// a message that waits in a channel waits there afterwards, at the same place.
pub proof fn lemma_dispatch_keeps_messages(s: ServerView, p: Pending, ci: int, k: int)
    requires
        0 <= ci < s.channels.len(),
        0 <= k < s.channels[ci].queue.len(),
    ensures
        ci < dispatched(s, p).channels.len(),
        dispatched(s, p).channels[ci].name == s.channels[ci].name,
        k < dispatched(s, p).channels[ci].queue.len(),
        dispatched(s, p).channels[ci].queue[k] == s.channels[ci].queue[k],
{
    let s1 = responded(s, p.client, p.request).0;
    assert(ci < s1.channels.len() && s1.channels[ci].name == s.channels[ci].name && k
        < s1.channels[ci].queue.len() && s1.channels[ci].queue[k] == s.channels[ci].queue[k]) by {
        match p.request {
            RequestView::Post(channel, msg) => {
                lemma_position_of(channel_names(s.channels), channel);
            },
            RequestView::Subscribe(channel, password) => {
                lemma_position_of(channel_names(s.channels), channel);
            },
            RequestView::Unsubscribe(channel) => {
                lemma_position_of(channel_names(s.channels), channel);
            },
            _ => {},
        }
    }
}

/// Handling requests in order takes no waiting message away.
pub proof fn lemma_dispatch_all_keeps_messages(s: ServerView, ps: Seq<Pending>, ci: int, k: int)
    requires
        0 <= ci < s.channels.len(),
        0 <= k < s.channels[ci].queue.len(),
    ensures
        ci < dispatched_all(s, ps).channels.len(),
        dispatched_all(s, ps).channels[ci].name == s.channels[ci].name,
        k < dispatched_all(s, ps).channels[ci].queue.len(),
        dispatched_all(s, ps).channels[ci].queue[k] == s.channels[ci].queue[k],
    decreases ps.len(),
{
    if ps.len() > 0 {
        lemma_dispatch_all_keeps_messages(s, ps.drop_last(), ci, k);
        lemma_dispatch_keeps_messages(dispatched_all(s, ps.drop_last()), ps.last(), ci, k);
    }
}

/// A message that is posted and acknowledged is delivered in the next
/// fan-out to every active member of the channel whose connection is alive,
/// and to the passive listeners whose connection is alive exactly if the
/// channel is the global one.
pub proof fn lemma_post_is_delivered(
    s: ServerView,
    caller: Seq<char>,
    channel: Seq<char>,
    body: Seq<char>,
)
    requires
        well_formed(s),
        responded(s, caller, RequestView::Post(channel, body)).1 == Ok::<
            ResponseView,
            ResponseView,
        >(ResponseView::Ack),
    ensures
        ({
            let s1 = responded(s, caller, RequestView::Post(channel, body)).0;
            let t = fanned_out(s1);
            let f = msg_frame(channel, caller, body);
            let ci = channel_index(s, channel);
            &&& 0 <= ci < s1.channels.len()
            &&& s1.channels[ci].name == channel
            &&& forall|i: int|
                0 <= i < s1.active.len() && s1.active[i].conn.alive
                    && s1.channels[ci].members.contains(name_of(s1.active[i])) ==> newly_sent(
                    s1.active[i].conn,
                    #[trigger] t.active[i].conn,
                ).contains(f)
            &&& forall|j: int|
                0 <= j < s1.passive.len() && s1.passive[j].conn.alive ==> (newly_sent(
                    s1.passive[j].conn,
                    #[trigger] t.passive[j].conn,
                ).contains(f) <==> channel == global_name())
        }),
{
    let s1 = responded(s, caller, RequestView::Post(channel, body)).0;
    let t = fanned_out(s1);
    let f = msg_frame(channel, caller, body);
    let names = channel_names(s.channels);
    let ci = channel_index(s, channel);
    lemma_position_of(names, channel);
    lemma_responded_well_formed(s, caller, RequestView::Post(channel, body));
    assert(names[ci] == s.channels[ci].name);
    let queue = s1.channels[ci].queue;
    let last = queue.len() - 1;
    assert(queue[last] == f);
    assert forall|i: int|
        0 <= i < s1.active.len() && s1.active[i].conn.alive && s1.channels[ci].members.contains(
            name_of(s1.active[i]),
        ) implies newly_sent(s1.active[i].conn, #[trigger] t.active[i].conn).contains(f) by {
        let d = deliveries(s1.channels, name_of(s1.active[i]), s1.channels.len() as int);
        lemma_deliveries_hold(
            s1.channels,
            name_of(s1.active[i]),
            s1.channels.len() as int,
            ci,
            last,
        );
        assert(newly_sent(s1.active[i].conn, t.active[i].conn) =~= d);
    }
    assert forall|j: int| 0 <= j < s1.passive.len() && s1.passive[j].conn.alive implies (newly_sent(
        s1.passive[j].conn,
        #[trigger] t.passive[j].conn,
    ).contains(f) <==> channel == global_name()) by {
        let q = s1.channels[0].queue;
        assert(newly_sent(s1.passive[j].conn, t.passive[j].conn) =~= q);
        if channel == global_name() {
            assert(names[0] == global_name());
            assert(ci == 0);
            assert(q[last] == f);
        } else {
            if q.contains(f) {
                let k = choose|k: int| 0 <= k < q.len() && q[k] == f;
                assert(posted_to(s1.channels[0].queue[k], s1.channels[0].name));
                assert(f.args[0] == channel);
            }
        }
    }
}

} // verus!
