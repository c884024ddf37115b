//! The frame codec: `{command, args}` packages and their wire form
//! `STX command SYN (arg EM)* ETX`.

use vstd::prelude::*;
use vstd::string::*;
use crate::text::{chars_of, clone_strings, find, lemma_find, lemma_find_at, position, string_of};

verus! {

/// Start of a frame (STX).
pub const STX: char = '\u{2}';
/// End of a frame (ETX).
pub const ETX: char = '\u{3}';
/// End of the command (SYN).
pub const SYN: char = '\u{16}';
/// End of one argument (EM).
pub const EM: char = '\u{19}';

/// The mathematical content of a package: a command and its ordered arguments.
pub struct Frame {
    pub cmd: Seq<char>,
    pub args: Seq<Seq<char>>,
}

/// Every argument followed by EM, in order.
pub open spec fn encode_args(args: Seq<Seq<char>>) -> Seq<char>
    decreases args.len(),
{
    if args.len() == 0 {
        Seq::<char>::empty()
    } else {
        args[0] + seq![EM] + encode_args(args.drop_first())
    }
}

/// The wire form of a frame.
pub open spec fn encode(f: Frame) -> Seq<char> {
    seq![STX] + f.cmd + seq![SYN] + encode_args(f.args) + seq![ETX]
}

/// The pieces of `s` that are terminated by `d`; what follows the last `d` is dropped.
pub open spec fn pieces(s: Seq<char>, d: char) -> Seq<Seq<char>>
    decreases s.len(),
{
    let k = find(s, d);
    if 0 <= k < s.len() {
        seq![s.take(k)] + pieces(s.skip(k + 1), d)
    } else {
        Seq::<Seq<char>>::empty()
    }
}

/// What lies between the STX that opens `s` and the ETX that closes it.
pub open spec fn inner(s: Seq<char>) -> Seq<char> {
    s.subrange(1, s.len() - 1)
}

/// `s` opens with STX, closes with a separate ETX, and holds a SYN in between.
pub open spec fn has_envelope(s: Seq<char>) -> bool {
    &&& s.len() >= 2
    &&& s[0] == STX
    &&& s.last() == ETX
    &&& inner(s).contains(SYN)
}

/// The frame that `s` decodes to, or `None` if the envelope or the SYN is missing.
///
/// The command is everything up to the first SYN. The arguments are the
/// EM-terminated pieces after it.
pub open spec fn decode(s: Seq<char>) -> Option<Frame> {
    if has_envelope(s) {
        let k = find(inner(s), SYN);
        Some(Frame { cmd: inner(s).take(k), args: pieces(inner(s).skip(k + 1), EM) })
    } else {
        None
    }
}

/// `s` has exactly the wire shape: envelope, SYN, and an argument section in
/// which every argument is closed by EM.
pub open spec fn well_formed(s: Seq<char>) -> bool {
    &&& has_envelope(s)
    &&& {
        let a = inner(s).skip(find(inner(s), SYN) + 1);
        a.len() == 0 || a.last() == EM
    }
}

/// None of the four framing characters occurs in `s`.
pub open spec fn free_of_framing(s: Seq<char>) -> bool {
    !s.contains(STX) && !s.contains(ETX) && !s.contains(SYN) && !s.contains(EM)
}

/// Neither the command nor any argument holds a framing character.
pub open spec fn clean(f: Frame) -> bool {
    &&& free_of_framing(f.cmd)
    &&& forall|i: int| 0 <= i < f.args.len() ==> free_of_framing(#[trigger] f.args[i])
}

/// A package: one message on the wire.
#[derive(Debug, Default, PartialEq, Eq)]
pub struct Package {
    pub cmd: String,
    pub args: Vec<String>,
}

impl View for Package {
    type V = Frame;

    open spec fn view(&self) -> Frame {
        Frame { cmd: self.cmd@, args: self.args.deep_view() }
    }
}

/// The pieces, in order, whose concatenation is the wire form of `f`:
/// STX, the command, SYN, then each argument followed by EM, then ETX.
pub open spec fn parts_of(f: Frame) -> Seq<Seq<char>> {
    seq![seq![STX], f.cmd, seq![SYN]] + arg_parts(f.args) + seq![seq![ETX]]
}

/// Each argument followed by a piece that holds one EM.
pub open spec fn arg_parts(args: Seq<Seq<char>>) -> Seq<Seq<char>>
    decreases args.len(),
{
    if args.len() == 0 {
        Seq::<Seq<char>>::empty()
    } else {
        arg_parts(args.drop_last()) + seq![args.last(), seq![EM]]
    }
}

/// The texts of a list of string slices.
pub open spec fn texts(v: Seq<&str>) -> Seq<Seq<char>> {
    Seq::new(v.len(), |i: int| v[i]@)
}

/// One more slice at the end adds its text at the end.
pub proof fn lemma_texts_push(v: Seq<&str>, s: &str)
    ensures
        texts(v.push(s)) == texts(v).push(s@),
{
    assert(texts(v.push(s)) =~= texts(v).push(s@));
}

/// All pieces of `parts` joined in order.
pub open spec fn joined(parts: Seq<Seq<char>>) -> Seq<char>
    decreases parts.len(),
{
    if parts.len() == 0 {
        Seq::<char>::empty()
    } else {
        joined(parts.drop_last()) + parts.last()
    }
}

/// Joining a list with one more piece at its end appends that piece.
pub proof fn lemma_joined_push(a: Seq<Seq<char>>, x: Seq<char>)
    ensures
        joined(a.push(x)) == joined(a) + x,
{
    assert(a.push(x).drop_last() == a);
    assert(a.push(x).last() == x);
}

/// Encoding the arguments one after the other: a last argument adds itself and an EM.
pub proof fn lemma_encode_args_push(args: Seq<Seq<char>>, last: Seq<char>)
    ensures
        encode_args(args.push(last)) == encode_args(args) + last + seq![EM],
    decreases args.len(),
{
    let all = args.push(last);
    if args.len() == 0 {
        assert(all.drop_first() == Seq::<Seq<char>>::empty());
        assert(encode_args(all) == all[0] + seq![EM] + encode_args(all.drop_first()));
    } else {
        lemma_encode_args_push(args.drop_first(), last);
        assert(all.drop_first() == args.drop_first().push(last));
        assert(all[0] == args[0]);
    }
}

/// Joining `head` and then the argument pieces of `args` appends the encoded arguments.
proof fn lemma_joined_head_args(head: Seq<Seq<char>>, args: Seq<Seq<char>>)
    ensures
        joined(head + arg_parts(args)) == joined(head) + encode_args(args),
    decreases args.len(),
{
    if args.len() == 0 {
        assert(head + arg_parts(args) == head);
    } else {
        let front = args.drop_last();
        lemma_joined_head_args(head, front);
        let a = head + arg_parts(front);
        assert(head + arg_parts(args) == a.push(args.last()).push(seq![EM]));
        lemma_joined_push(a, args.last());
        lemma_joined_push(a.push(args.last()), seq![EM]);
        lemma_encode_args_push(front, args.last());
        assert(front.push(args.last()) == args);
    }
}

/// The pieces of a frame joined are its wire form.
pub proof fn lemma_joined_parts(f: Frame)
    ensures
        joined(parts_of(f)) == encode(f),
{
    let e = Seq::<Seq<char>>::empty();
    let head = e.push(seq![STX]).push(f.cmd).push(seq![SYN]);
    assert(head == seq![seq![STX], f.cmd, seq![SYN]]);
    lemma_joined_push(e, seq![STX]);
    lemma_joined_push(e.push(seq![STX]), f.cmd);
    lemma_joined_push(e.push(seq![STX]).push(f.cmd), seq![SYN]);
    assert(joined(head) == seq![STX] + f.cmd + seq![SYN]);
    lemma_joined_head_args(head, f.args);
    let body = head + arg_parts(f.args);
    assert(parts_of(f) == body.push(seq![ETX]));
    lemma_joined_push(body, seq![ETX]);
}

/// The EM-terminated pieces of `v[from..to]`, as strings.
fn split_args(v: &Vec<char>, from: usize, to: usize) -> (args: Vec<String>)
    requires
        from <= to <= v.len(),
    ensures
        args.deep_view() == pieces(v@.subrange(from as int, to as int), EM),
{
    let mut args: Vec<String> = Vec::new();
    let mut start: usize = from;
    let ghost all = pieces(v@.subrange(from as int, to as int), EM);
    assert(args.deep_view() == Seq::<Seq<char>>::empty());
    loop
        invariant
            from <= start <= to <= v.len(),
            all == args.deep_view() + pieces(v@.subrange(start as int, to as int), EM),
        ensures
            all == args.deep_view(),
        decreases to - start,
    {
        let ghost rem = v@.subrange(start as int, to as int);
        let j = position(v, start, to, EM);
        if j == to {
            assert(pieces(rem, EM) == Seq::<Seq<char>>::empty());
            break;
        }
        let piece = string_of(v, start, j);
        proof {
            assert(rem.take(j - start) == v@.subrange(start as int, j as int));
            assert(rem.skip(j - start + 1) == v@.subrange(j + 1, to as int));
            assert(args.deep_view().push(piece@) + pieces(v@.subrange(j + 1, to as int), EM)
                == all);
        }
        let ghost before = args.deep_view();
        args.push(piece);
        assert(args.deep_view() == before.push(piece@));
        start = j + 1;
    }
    args
}

impl Clone for Package {
    fn clone(&self) -> (r: Self)
        ensures
            r@ == self@,
    {
        Package { cmd: self.cmd.clone(), args: clone_strings(&self.args) }
    }
}

impl Package {
    /// The frame delimiters as string slices.
    pub const PKG_START: &'static str = "\u{2}";
    pub const CMD_END: &'static str = "\u{16}";
    pub const ARG_END: &'static str = "\u{19}";
    pub const PKG_END: &'static str = "\u{3}";

    /// Decodes one wire frame.
    ///
    /// The text must open with STX and close with ETX, and hold a SYN in
    /// between; otherwise the frame is malformed and `None` is returned.
    pub fn parse(src: &str) -> (r: Option<Package>)
        ensures
            r is Some <==> decode(src@) is Some,
            r matches Some(p) ==> decode(src@) == Some(p@),
    {
        let v = chars_of(src);
        let n: usize = v.len();
        if n < 2 || v[0] != STX || v[n - 1] != ETX {
            return None;
        }
        let k = position(&v, 1, n - 1, SYN);
        proof {
            lemma_find(inner(src@), SYN);
        }
        if k == n - 1 {
            return None;
        }
        let cmd = string_of(&v, 1, k);
        let args = split_args(&v, k + 1, n - 1);
        proof {
            assert(inner(src@).take(k - 1) == v@.subrange(1, k as int));
            assert(inner(src@).skip(k - 1 + 1) == v@.subrange(k + 1, n - 1));
        }
        Some(Package { cmd, args })
    }

    /// The pieces of the wire form, in order: STX, the command, SYN, each
    /// argument followed by EM, and ETX.
    pub fn parts(&self) -> (r: Vec<&str>)
        ensures
            texts(r@) == parts_of(self@),
            joined(texts(r@)) == encode(self@),
    {
        proof {
            lemma_joined_parts(self@);
            reveal_strlit("\u{2}");
            reveal_strlit("\u{16}");
            reveal_strlit("\u{19}");
            reveal_strlit("\u{3}");
        }
        let ghost head = seq![seq![STX], self.cmd@, seq![SYN]];
        let ghost all = self.args.deep_view();
        let mut r: Vec<&str> = Vec::new();
        assert(texts(r@) == Seq::<Seq<char>>::empty());
        let stx: &str = Self::PKG_START;
        assert(stx@ == seq![STX]);
        proof {
            lemma_texts_push(r@, stx);
        }
        r.push(stx);
        let cmd: &str = self.cmd.as_str();
        proof {
            lemma_texts_push(r@, cmd);
        }
        r.push(cmd);
        let syn: &str = Self::CMD_END;
        assert(syn@ == seq![SYN]);
        proof {
            lemma_texts_push(r@, syn);
        }
        r.push(syn);
        assert(texts(r@) == head);
        assert(arg_parts(all.take(0)) == Seq::<Seq<char>>::empty());
        let mut i: usize = 0;
        while i < self.args.len()
            invariant
                i <= self.args.len(),
                all == self.args.deep_view(),
                Self::ARG_END@ == seq![EM],
                texts(r@) == head + arg_parts(all.take(i as int)),
            decreases self.args.len() - i,
        {
            let arg: &str = self.args[i].as_str();
            proof {
                assert(all.take(i + 1).drop_last() == all.take(i as int));
                assert(all.take(i + 1).last() == all[i as int]);
                lemma_texts_push(r@, arg);
                lemma_texts_push(r@.push(arg), Self::ARG_END);
            }
            r.push(arg);
            r.push(Self::ARG_END);
            i += 1;
        }
        assert(all.take(i as int) == all);
        let etx: &str = Self::PKG_END;
        assert(etx@ == seq![ETX]);
        proof {
            lemma_texts_push(r@, etx);
        }
        r.push(etx);
        assert(texts(r@) == parts_of(self@));
        r
    }

    /// The wire form of the package as one string.
    pub fn encode(&self) -> (r: String)
        ensures
            r@ == encode(self@),
    {
        let mut r = String::new();
        r.push(STX);
        r.append(self.cmd.as_str());
        r.push(SYN);
        let mut i: usize = 0;
        assert(self.args.deep_view().take(0) == Seq::<Seq<char>>::empty());
        while i < self.args.len()
            invariant
                i <= self.args.len(),
                r@ == seq![STX] + self.cmd@ + seq![SYN] + encode_args(
                    self.args.deep_view().take(i as int),
                ),
            decreases self.args.len() - i,
        {
            proof {
                let all = self.args.deep_view();
                lemma_encode_args_push(all.take(i as int), all[i as int]);
                assert(all.take(i as int).push(all[i as int]) == all.take(i + 1));
            }
            r.append(self.args[i].as_str());
            r.push(EM);
            i += 1;
        }
        assert(self.args.deep_view().take(i as int) == self.args.deep_view());
        r.push(ETX);
        r
    }
}

impl DeepView for Package {
    type V = Frame;

    open spec fn deep_view(&self) -> Frame {
        self@
    }
}

/// Splitting EM-terminated pieces gives back the arguments that were encoded,
/// as long as none of them holds an EM.
pub proof fn lemma_pieces_of_encoded(args: Seq<Seq<char>>)
    requires
        forall|i: int| 0 <= i < args.len() ==> !(#[trigger] args[i]).contains(EM),
    ensures
        pieces(encode_args(args), EM) == args,
    decreases args.len(),
{
    if args.len() == 0 {
        assert(pieces(Seq::<char>::empty(), EM) == Seq::<Seq<char>>::empty());
    } else {
        let rest = args.drop_first();
        let s = encode_args(args);
        let k = args[0].len() as int;
        assert(s == args[0] + seq![EM] + encode_args(rest));
        assert forall|i: int| 0 <= i < k implies s[i] != EM by {
            assert(s[i] == args[0][i]);
            assert(!args[0].contains(EM));
        }
        assert(s[k] == EM);
        lemma_find_at(s, EM, k);
        assert(s.take(k) == args[0]);
        assert(s.skip(k + 1) == encode_args(rest));
        assert forall|i: int| 0 <= i < rest.len() implies !(#[trigger] rest[i]).contains(EM) by {
            assert(rest[i] == args[i + 1]);
        }
        lemma_pieces_of_encoded(rest);
        assert(seq![args[0]] + rest == args);
    }
}

/// Encoding the EM-terminated pieces of a sequence that is empty or ends in EM
/// gives the sequence back.
pub proof fn lemma_encode_pieces(a: Seq<char>)
    requires
        a.len() == 0 || a.last() == EM,
    ensures
        encode_args(pieces(a, EM)) == a,
    decreases a.len(),
{
    lemma_find(a, EM);
    let k = find(a, EM);
    if a.len() == 0 {
        assert(encode_args(Seq::<Seq<char>>::empty()) == Seq::<char>::empty());
    } else {
        assert(a.contains(EM)) by {
            assert(a[a.len() - 1] == EM);
        }
        let rest = a.skip(k + 1);
        if rest.len() > 0 {
            assert(rest.last() == a.last());
        }
        lemma_encode_pieces(rest);
        let p = pieces(a, EM);
        assert(p == seq![a.take(k)] + pieces(rest, EM));
        assert(p[0] == a.take(k));
        assert(p.drop_first() == pieces(rest, EM));
        assert(a.take(k) + seq![EM] + rest == a);
    }
}

/// Decoding the wire form of a frame gives the frame back, provided the
/// command holds no SYN and no argument holds an EM.
pub proof fn lemma_decode_encode(f: Frame)
    requires
        !f.cmd.contains(SYN),
        forall|i: int| 0 <= i < f.args.len() ==> !(#[trigger] f.args[i]).contains(EM),
    ensures
        well_formed(encode(f)),
        decode(encode(f)) == Some(f),
{
    let s = encode(f);
    let a = encode_args(f.args);
    let body = f.cmd + seq![SYN] + a;
    assert(s == seq![STX] + body + seq![ETX]);
    assert(inner(s) == body);
    let k = f.cmd.len() as int;
    assert forall|i: int| 0 <= i < k implies body[i] != SYN by {
        assert(body[i] == f.cmd[i]);
    }
    assert(body[k] == SYN);
    lemma_find_at(body, SYN, k);
    lemma_find(body, SYN);
    assert(body.take(k) == f.cmd);
    assert(body.skip(k + 1) == a);
    lemma_pieces_of_encoded(f.args);
    lemma_encoded_args_terminated(f.args);
}

/// An encoded argument section is empty or ends in EM.
pub proof fn lemma_encoded_args_terminated(args: Seq<Seq<char>>)
    ensures
        encode_args(args).len() == 0 || encode_args(args).last() == EM,
        args.len() == 0 ==> encode_args(args).len() == 0,
    decreases args.len(),
{
    if args.len() > 0 {
        lemma_encoded_args_terminated(args.drop_first());
    }
}

/// Decoding then encoding a frame that is free of framing characters is the identity.
pub proof fn lemma_decode_encode_clean(f: Frame)
    requires
        clean(f),
    ensures
        decode(encode(f)) == Some(f),
{
    lemma_decode_encode(f);
}

/// Encoding what a well-formed wire frame decodes to gives the same characters back.
pub proof fn lemma_encode_decode(s: Seq<char>)
    requires
        well_formed(s),
    ensures
        decode(s) is Some,
        encode(decode(s)->0) == s,
{
    let body = inner(s);
    lemma_find(body, SYN);
    let k = find(body, SYN);
    let a = body.skip(k + 1);
    lemma_encode_pieces(a);
    let f = Frame { cmd: body.take(k), args: pieces(a, EM) };
    assert(decode(s) == Some(f));
    assert(encode_args(f.args) == a);
    assert(body[k] == SYN);
    assert(body.take(k) + seq![SYN] + a =~= body);
    assert(seq![STX] + body + seq![ETX] =~= s);
    assert(encode(f) == seq![STX] + body.take(k) + seq![SYN] + a + seq![ETX]);
    assert(encode(f) =~= seq![STX] + (body.take(k) + seq![SYN] + a) + seq![ETX]);
}

/// The encoded arguments hold no ETX if no argument holds one.
pub proof fn lemma_encoded_args_hold_no_etx(args: Seq<Seq<char>>)
    requires
        forall|i: int| 0 <= i < args.len() ==> !(#[trigger] args[i]).contains(ETX),
    ensures
        !encode_args(args).contains(ETX),
    decreases args.len(),
{
    if args.len() > 0 {
        let rest = args.drop_first();
        assert forall|i: int| 0 <= i < rest.len() implies !(#[trigger] rest[i]).contains(ETX) by {
            assert(rest[i] == args[i + 1]);
        }
        lemma_encoded_args_hold_no_etx(rest);
        let s = encode_args(args);
        let tail = encode_args(rest);
        assert(s == args[0] + seq![EM] + tail);
        assert forall|j: int| 0 <= j < s.len() implies s[j] != ETX by {
            if j < args[0].len() {
                assert(s[j] == args[0][j]);
                assert(args[0].contains(s[j]));
            } else if j > args[0].len() {
                assert(s[j] == tail[j - args[0].len() - 1]);
                assert(tail.contains(s[j]));
            }
        }
    }
}

/// The wire form of a frame that is free of framing characters holds its
/// only ETX at its end.
pub proof fn lemma_encoded_ends_at_etx(f: Frame)
    requires
        clean(f),
    ensures
        find(encode(f), ETX) == encode(f).len() - 1,
{
    let s = encode(f);
    let a = encode_args(f.args);
    lemma_encoded_args_hold_no_etx(f.args);
    let last = s.len() - 1;
    assert forall|j: int| 0 <= j < last implies s[j] != ETX by {
        if j == 0 {
        } else if j <= f.cmd.len() {
            assert(s[j] == f.cmd[j - 1]);
            assert(f.cmd.contains(s[j]));
        } else if j == f.cmd.len() + 1 {
        } else {
            assert(s[j] == a[j - f.cmd.len() - 2]);
            assert(a.contains(s[j]));
        }
    }
    assert(s[last] == ETX);
    lemma_find_at(s, ETX, last);
}

} // verus!
