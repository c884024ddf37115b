//! The trivial client's input: a line becomes a package, its arguments
//! lexed with quotes and escapes.

use vstd::prelude::*;
use vstd::string::*;
use crate::package::{Frame, Package};
use crate::text::{chars_of, find, position, string_of};

verus! {

/// The lexer's state between two characters.
pub struct LexState {
    /// The words that are complete.
    pub words: Seq<Seq<char>>,
    /// The word that is being read.
    pub word: Seq<char>,
    /// Whether the lexer is inside quotes.
    pub quoted: bool,
    /// Whether the word that is being read had a quoted part.
    pub was_quoted: bool,
}

/// The state in which the lexer starts.
pub open spec fn lex_start() -> LexState {
    LexState { words: seq![], word: seq![], quoted: false, was_quoted: false }
}

/// The state after the characters of `s` from position `i` on have been read.
///
/// A quote at the start of a word opens a quoted part, and a quote inside a
/// quoted part closes it. A space outside quotes ends the word. Inside quotes
/// a backslash before a quote or a backslash stands for that character alone;
/// before any other character, and at the end, it stands for itself.
pub open spec fn lex_from(s: Seq<char>, i: int, st: LexState) -> LexState
    decreases s.len() - i,
{
    if i < 0 || i >= s.len() {
        st
    } else {
        let c = s[i];
        if st.word.len() == 0 && !st.quoted && c == '"' {
            lex_from(s, i + 1, LexState { quoted: true, ..st })
        } else if st.quoted && c == '"' {
            lex_from(s, i + 1, LexState { quoted: false, was_quoted: true, ..st })
        } else if !st.quoted && c == ' ' {
            lex_from(
                s,
                i + 1,
                LexState {
                    words: st.words.push(st.word),
                    word: seq![],
                    was_quoted: false,
                    ..st
                },
            )
        } else if st.quoted && c == '\\' {
            if i + 1 >= s.len() {
                lex_from(s, i + 1, LexState { word: st.word.push('\\'), ..st })
            } else if s[i + 1] == '"' || s[i + 1] == '\\' {
                lex_from(s, i + 2, LexState { word: st.word.push(s[i + 1]), ..st })
            } else {
                lex_from(s, i + 2, LexState { word: st.word.push('\\').push(s[i + 1]), ..st })
            }
        } else {
            lex_from(s, i + 1, LexState { word: st.word.push(c), ..st })
        }
    }
}

/// The words that the lexer's final state stands for: the complete ones, and
/// the one being read if it is not empty or had a quoted part.
pub open spec fn lex_end(st: LexState) -> Seq<Seq<char>> {
    if st.word.len() > 0 || st.was_quoted {
        st.words.push(st.word)
    } else {
        st.words
    }
}

/// The arguments that a line of input holds.
pub open spec fn lexed(s: Seq<char>) -> Seq<Seq<char>> {
    lex_end(lex_from(s, 0, lex_start()))
}

/// Splits the arguments of an input line into words.
///
/// Words are separated by single spaces. A word may hold quoted parts, in
/// which spaces do not separate and a backslash escapes a quote or a backslash.
pub fn lex_args(args: &str) -> (res: Vec<String>)
    ensures
        res.deep_view() == lexed(args@),
{
    let v = chars_of(args);
    let n: usize = v.len();
    let mut res: Vec<String> = Vec::new();
    let mut curr_word = String::new();
    let mut quoted = false;
    let mut was_quoted = false;
    let mut i: usize = 0;
    assert(res.deep_view() == Seq::<Seq<char>>::empty());
    while i < n
        invariant
            i <= n,
            n == v.len(),
            v@ == args@,
            lex_from(args@, 0, lex_start()) == lex_from(
                args@,
                i as int,
                LexState { words: res.deep_view(), word: curr_word@, quoted, was_quoted },
            ),
        decreases n - i,
    {
        let c: char = v[i];
        if curr_word.as_str().is_empty() && !quoted && c == '"' {
            quoted = true;
            i += 1;
        } else if quoted && c == '"' {
            quoted = false;
            was_quoted = true;
            i += 1;
        } else if !quoted && c == ' ' {
            let ghost before = res.deep_view();
            let ghost word = curr_word@;
            res.push(curr_word);
            assert(res.deep_view() == before.push(word));
            curr_word = String::new();
            was_quoted = false;
            i += 1;
        } else if quoted && c == '\\' {
            if i + 1 >= n {
                curr_word.push('\\');
                i += 1;
            } else {
                let next: char = v[i + 1];
                if next == '"' || next == '\\' {
                    curr_word.push(next);
                } else {
                    curr_word.push('\\');
                    curr_word.push(next);
                }
                i += 2;
            }
        } else {
            curr_word.push(c);
            i += 1;
        }
    }
    if !curr_word.as_str().is_empty() || was_quoted {
        let ghost before = res.deep_view();
        let ghost word = curr_word@;
        res.push(curr_word);
        assert(res.deep_view() == before.push(word));
    }
    res
}

/// The frame that a line of input stands for: the command is what precedes
/// the first space, the arguments are lexed from what follows it.
pub open spec fn input_frame(inp: Seq<char>) -> Frame {
    let k = find(inp, ' ');
    if 0 <= k < inp.len() {
        Frame { cmd: inp.take(k), args: lexed(inp.skip(k + 1)) }
    } else {
        Frame { cmd: inp, args: seq![] }
    }
}

/// Turns a line of input into a package.
pub fn inp_to_package(inp: &str) -> (r: Package)
    ensures
        r@ == input_frame(inp@),
{
    let v = chars_of(inp);
    let n: usize = v.len();
    let k = position(&v, 0, n, ' ');
    assert(v@.subrange(0, n as int) == v@);
    if k == n {
        let args: Vec<String> = Vec::new();
        assert(args.deep_view() == Seq::<Seq<char>>::empty());
        assert(v@.subrange(0, n as int) == inp@);
        return Package { cmd: string_of(&v, 0, n), args };
    }
    let cmd = string_of(&v, 0, k);
    let rest = string_of(&v, k + 1, n);
    assert(v@.subrange(0, k as int) == inp@.take(k as int));
    assert(v@.subrange(k + 1, n as int) == inp@.skip(k + 1));
    Package { cmd, args: lex_args(rest.as_str()) }
}

} // verus!
