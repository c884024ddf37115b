//! One endpoint of the framed transport, without the socket.
//!
//! A `Connection` holds what was received and not yet consumed, the packages
//! queued for sending, and the liveness flag. Whoever owns the socket hands in
//! the outcome of each read, takes the queued packages out and writes them,
//! and closes the connection when a write fails.

use vstd::prelude::*;
use vstd::string::*;
use crate::package::{
    clean, decode, encode, lemma_decode_encode_clean, lemma_encoded_ends_at_etx, Frame, Package,
    ETX,
};
use crate::text::{chars_of, find, lemma_find, lemma_find_at, position, string_of};

verus! {

/// Size of the buffer that one read fills at most.
pub const BUF_SIZE: usize = 256;

/// The text that lossy UTF-8 decoding makes of `bytes`: valid sequences are
/// decoded, every invalid one becomes the replacement character.
pub uninterp spec fn utf8_lossy(bytes: Seq<u8>) -> Seq<char>;

/// `String::from_utf8_lossy` decodes the bytes as UTF-8 and puts U+FFFD in
/// place of each invalid sequence. The result depends on the bytes alone.
#[verifier::external_body]
fn decode_lossy(bytes: &[u8]) -> (r: String)
    ensures
        r@ == utf8_lossy(bytes@),
{
    String::from_utf8_lossy(bytes).into_owned()
}

/// What one read on the socket gave.
#[derive(Debug, PartialEq, Eq)]
pub enum ReadOutcome {
    /// The read returned these bytes; none at all means the peer closed.
    Bytes(Vec<u8>),
    /// Nothing is there to read at the moment.
    WouldBlock,
    /// The read failed for another reason.
    Failed,
}

/// The mathematical content of a `Connection`.
pub struct ConnectionView {
    /// The number by which the owner of the socket knows the connection.
    pub token: u64,
    /// Text received and not yet consumed.
    pub pending: Seq<char>,
    /// Frames queued for sending, oldest first.
    pub outgoing: Seq<Frame>,
    /// Whether the connection is still usable.
    pub alive: bool,
}

/// One endpoint of the transport.
#[derive(Debug)]
pub struct Connection {
    token: u64,
    pkg_part: String,
    outgoing: Vec<Package>,
    alive: bool,
}

/// The state after `text` has been received.
pub open spec fn received(c: ConnectionView, text: Seq<char>) -> ConnectionView {
    ConnectionView { pending: c.pending + text, ..c }
}

/// The state after `f` has been handed over for sending: a live connection
/// queues it, a dead one ignores it.
pub open spec fn sent(c: ConnectionView, f: Frame) -> ConnectionView {
    if c.alive {
        ConnectionView { outgoing: c.outgoing.push(f), ..c }
    } else {
        c
    }
}

/// The state after all of `fs` have been handed over for sending, in order.
pub open spec fn sent_all(c: ConnectionView, fs: Seq<Frame>) -> ConnectionView {
    if c.alive {
        ConnectionView { outgoing: c.outgoing + fs, ..c }
    } else {
        c
    }
}

/// The state after the connection has been closed.
pub open spec fn closed(c: ConnectionView) -> ConnectionView {
    ConnectionView { alive: false, ..c }
}

/// The state after one read, and whether to read again at once.
///
/// An empty read and a failed read close the connection. A read that filled
/// the whole buffer is followed by another.
pub open spec fn absorbed(c: ConnectionView, read: ReadOutcome) -> (ConnectionView, bool) {
    if !c.alive {
        (c, false)
    } else {
        match read {
            ReadOutcome::Bytes(bytes) => if bytes@.len() == 0 {
                (closed(c), false)
            } else {
                (received(c, utf8_lossy(bytes@)), bytes@.len() == BUF_SIZE)
            },
            ReadOutcome::WouldBlock => (c, false),
            ReadOutcome::Failed => (closed(c), false),
        }
    }
}

/// The state after one poll, and the frame it gave.
///
/// A dead connection gives nothing. Otherwise the text up to and including
/// the first ETX is taken off the pending text and decoded; if it does not
/// decode it is discarded. Without an ETX nothing changes.
pub open spec fn polled(c: ConnectionView) -> (ConnectionView, Option<Frame>) {
    let k = find(c.pending, ETX);
    if c.alive && 0 <= k < c.pending.len() {
        (ConnectionView { pending: c.pending.skip(k + 1), ..c }, decode(c.pending.take(k + 1)))
    } else {
        (c, None)
    }
}

/// Whether an optional package carries the given optional frame.
pub open spec fn package_is(p: Option<Package>, f: Option<Frame>) -> bool {
    match p {
        Some(pkg) => f == Some(pkg@),
        None => f is None,
    }
}

impl View for Connection {
    type V = ConnectionView;

    closed spec fn view(&self) -> ConnectionView {
        ConnectionView {
            token: self.token,
            pending: self.pkg_part@,
            outgoing: self.outgoing.deep_view(),
            alive: self.alive,
        }
    }
}

impl DeepView for Connection {
    type V = ConnectionView;

    open spec fn deep_view(&self) -> ConnectionView {
        self@
    }
}

impl Connection {
    /// A live connection that has received and sent nothing. The owner of
    /// the socket picks the token and finds the connection again by it.
    pub fn new(token: u64) -> (r: Connection)
        ensures
            r@ == (ConnectionView { token, pending: seq![], outgoing: seq![], alive: true }),
    {
        let outgoing: Vec<Package> = Vec::new();
        assert(outgoing.deep_view() == Seq::<Frame>::empty());
        Connection { token, pkg_part: String::new(), outgoing, alive: true }
    }

    /// The number by which the owner of the socket knows the connection.
    pub fn token(&self) -> (r: u64)
        ensures
            r == self@.token,
    {
        self.token
    }

    /// Whether the connection is still usable.
    pub fn alive(&self) -> (r: bool)
        ensures
            r == self@.alive,
    {
        self.alive
    }

    /// Closes the connection. A closed connection stays closed.
    pub fn close(&mut self)
        ensures
            final(self)@ == closed(old(self)@),
    {
        self.alive = false;
    }

    /// Hands a package over for sending.
    pub fn send_package(&mut self, pkg: &Package)
        ensures
            final(self)@ == sent(old(self)@, pkg@),
    {
        if !self.alive {
            return ;
        }
        let ghost before = self.outgoing.deep_view();
        let copy = pkg.clone();
        self.outgoing.push(copy);
        assert(self.outgoing.deep_view() == before.push(pkg@));
    }

    /// Hands the packages over for sending, in order.
    pub fn send_all(&mut self, pkgs: &Vec<Package>)
        ensures
            final(self)@ == sent_all(old(self)@, pkgs.deep_view()),
    {
        let ghost start = self@;
        let ghost all = pkgs.deep_view();
        let mut i: usize = 0;
        assert(sent_all(start, all.take(0)) == start);
        while i < pkgs.len()
            invariant
                i <= pkgs.len(),
                all == pkgs.deep_view(),
                self@ == sent_all(start, all.take(i as int)),
            decreases pkgs.len() - i,
        {
            self.send_package(&pkgs[i]);
            assert(all.take(i + 1) == all.take(i as int).push(all[i as int]));
            assert(start.outgoing + all.take(i as int).push(all[i as int]) == (start.outgoing
                + all.take(i as int)).push(all[i as int]));
            i += 1;
        }
        assert(all.take(i as int) == all);
    }

    /// Takes the packages that wait for sending, oldest first.
    pub fn take_outgoing(&mut self) -> (r: Vec<Package>)
        ensures
            r.deep_view() == old(self)@.outgoing,
            final(self)@ == (ConnectionView { outgoing: seq![], ..old(self)@ }),
    {
        let mut r: Vec<Package> = Vec::new();
        std::mem::swap(&mut r, &mut self.outgoing);
        assert(self.outgoing.deep_view() == Seq::<Frame>::empty());
        r
    }

    /// Appends received text to the pending text.
    pub fn push_text(&mut self, text: &str)
        ensures
            final(self)@ == received(old(self)@, text@),
    {
        self.pkg_part.append(text);
    }

    /// Takes in the outcome of one read and says whether to read again at once.
    pub fn absorb(&mut self, read: ReadOutcome) -> (again: bool)
        ensures
            final(self)@ == absorbed(old(self)@, read).0,
            again == absorbed(old(self)@, read).1,
    {
        if !self.alive {
            return false;
        }
        match read {
            ReadOutcome::Bytes(bytes) => {
                if bytes.len() == 0 {
                    self.alive = false;
                    false
                } else {
                    let text = decode_lossy(bytes.as_slice());
                    self.push_text(text.as_str());
                    bytes.len() == BUF_SIZE
                }
            },
            ReadOutcome::WouldBlock => false,
            ReadOutcome::Failed => {
                self.alive = false;
                false
            },
        }
    }

    /// Takes the next frame off the pending text, if a whole one is there.
    pub fn get_package(&mut self) -> (r: Option<Package>)
        ensures
            final(self)@ == polled(old(self)@).0,
            package_is(r, polled(old(self)@).1),
    {
        if !self.alive {
            return None;
        }
        let v = chars_of(self.pkg_part.as_str());
        let n: usize = v.len();
        let idx = position(&v, 0, n, ETX);
        assert(v@.subrange(0, n as int) == v@);
        if idx == n {
            return None;
        }
        let curr = string_of(&v, 0, idx + 1);
        let next = string_of(&v, idx + 1, n);
        let ret = Package::parse(curr.as_str());
        self.pkg_part = next;
        ret
    }
}

/// A connection that is dead stays dead, whatever is done with it.
pub proof fn lemma_dead_stays_dead(c: ConnectionView, text: Seq<char>, f: Frame, read: ReadOutcome)
    requires
        !c.alive,
    ensures
        !received(c, text).alive,
        !sent(c, f).alive,
        !closed(c).alive,
        !absorbed(c, read).0.alive,
        !polled(c).0.alive,
        polled(c).1 is None,
{
}

/// What is sent is what is received: a live connection whose pending text
/// starts with the wire form of a frame that is free of framing characters
/// gives that frame at the next poll and keeps the text that follows it.
pub proof fn lemma_poll_gives_what_was_encoded(c: ConnectionView, f: Frame, rest: Seq<char>)
    requires
        c.alive,
        clean(f),
        c.pending == encode(f) + rest,
    ensures
        polled(c) == (ConnectionView { pending: rest, ..c }, Some(f)),
{
    let wire = encode(f);
    let last = wire.len() - 1;
    lemma_encoded_ends_at_etx(f);
    lemma_find(wire, ETX);
    assert forall|j: int| 0 <= j < last implies c.pending[j] != ETX by {
        assert(c.pending[j] == wire[j]);
    }
    assert(c.pending[last] == wire[last]);
    lemma_find_at(c.pending, ETX, last);
    assert(c.pending.take(last + 1) == wire);
    assert(c.pending.skip(last + 1) == rest);
    lemma_decode_encode_clean(f);
}

} // verus!
