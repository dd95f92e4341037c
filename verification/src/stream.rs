//! A character source that can be looked at one character ahead.

use vstd::prelude::*;
use crate::chars::{chars_of, string_of, is_whitespace, whitespace, whitespace_run, lemma_whitespace_run};

verus! {

/// The characters of a source together with a read position: the characters
/// before the position have been consumed, the others are still to come.
pub struct CharStream {
    chars: Vec<char>,
    pos: usize,
}

impl CharStream {
    #[verifier::type_invariant]
    spec fn inv(self) -> bool {
        self.pos <= self.chars.len() < usize::MAX
    }

    /// The characters that are still to come.
    pub closed spec fn rest(&self) -> Seq<char> {
        self.chars@.skip(self.pos as int)
    }

    /// The number of characters consumed so far.
    pub closed spec fn consumed(&self) -> nat {
        self.pos as nat
    }

    /// A stream over the characters of `source`, none consumed.
    pub fn new(source: &str) -> (s: Self)
        requires
            source@.len() < usize::MAX,
        ensures
            s.rest() == source@,
            s.consumed() == 0,
    {
        let chars = chars_of(source);
        let s = CharStream { chars, pos: 0 };
        assert(s.rest() =~= source@);
        s
    }

    /// A stream over `chars`, none consumed.
    pub fn from_chars(chars: Vec<char>) -> (s: Self)
        requires
            chars@.len() < usize::MAX,
        ensures
            s.rest() == chars@,
            s.consumed() == 0,
    {
        let s = CharStream { chars, pos: 0 };
        assert(s.rest() =~= s.chars@);
        s
    }

    /// The next character, without consuming it.
    pub fn peek(&self) -> (r: Option<char>)
        ensures
            r == (if self.rest().len() > 0 { Some(self.rest()[0]) } else { None::<char> }),
    {
        proof { use_type_invariant(self); }
        if self.pos < self.chars.len() {
            Some(self.chars[self.pos])
        } else {
            None
        }
    }

    /// Consumes and returns the next character, if there is one.
    pub fn advance(&mut self) -> (r: Option<char>)
        ensures
            old(self).rest().len() > 0 ==> {
                &&& r == Some(old(self).rest()[0])
                &&& final(self).rest() == old(self).rest().drop_first()
                &&& final(self).consumed() == old(self).consumed() + 1
            },
            old(self).rest().len() == 0 ==> {
                &&& r is None
                &&& final(self).rest() == old(self).rest()
                &&& final(self).consumed() == old(self).consumed()
            },
    {
        proof { use_type_invariant(&*self); }
        if self.pos < self.chars.len() {
            let c = self.chars[self.pos];
            self.pos = self.pos + 1;
            assert(self.rest() =~= old(self).rest().drop_first());
            Some(c)
        } else {
            None
        }
    }

    /// The characters still to come, as a string; nothing is consumed.
    pub fn remaining(&self) -> (r: String)
        ensures
            r@ == self.rest(),
    {
        proof { use_type_invariant(self); }
        let mut out: Vec<char> = Vec::new();
        let mut i = self.pos;
        while i < self.chars.len()
            invariant
                self.pos <= i <= self.chars.len(),
                out@ == self.chars@.subrange(self.pos as int, i as int),
            decreases self.chars.len() - i,
        {
            out.push(self.chars[i]);
            i = i + 1;
            assert(out@ =~= self.chars@.subrange(self.pos as int, i as int));
        }
        assert(out@ =~= self.rest());
        string_of(&out)
    }

    /// Consumes the whitespace at the front.
    pub fn skip_whitespace(&mut self)
        ensures
            final(self).rest() == old(self).rest().skip(whitespace_run(old(self).rest()) as int),
            final(self).consumed() == old(self).consumed() + whitespace_run(old(self).rest()),
    {
        proof {
            use_type_invariant(&*self);
            lemma_whitespace_run(self.rest());
        }
        let ghost s0 = self.rest();
        let ghost p0 = self.pos;
        while self.pos < self.chars.len() && is_whitespace(self.chars[self.pos])
            invariant
                p0 <= self.pos <= self.chars.len() < usize::MAX,
                s0 == self.chars@.skip(p0 as int),
                s0 == old(self).rest(),
                p0 == old(self).consumed(),
                self.chars@ == old(self).chars@,
                self.pos - p0 <= whitespace_run(s0),
                whitespace_run(s0) <= s0.len(),
                forall|i: int| 0 <= i < whitespace_run(s0) ==> whitespace(#[trigger] s0[i]),
                whitespace_run(s0) < s0.len() ==> !whitespace(s0[whitespace_run(s0) as int]),
            decreases self.chars.len() - self.pos,
        {
            assert(s0[self.pos - p0] == self.chars@[self.pos as int]);
            self.pos = self.pos + 1;
        }
        assert(self.pos - p0 == whitespace_run(s0)) by {
            if self.pos - p0 < whitespace_run(s0) {
                assert(whitespace(s0[self.pos - p0]));
                assert(s0[self.pos - p0] == self.chars@[self.pos as int]);
            }
        }
        assert(self.rest() =~= s0.skip(whitespace_run(s0) as int));
    }

    /// The number of characters consumed so far.
    pub fn index(&self) -> (r: usize)
        ensures
            r == self.consumed(),
            r + self.rest().len() < usize::MAX,
    {
        proof { use_type_invariant(self); }
        self.pos
    }
}

/// A source whose next item can be looked at before it is consumed.
pub trait Peek {
    /// The items still to come.
    spec fn upcoming(&self) -> Seq<char>;

    /// The number of items consumed so far.
    spec fn consumed(&self) -> nat;

    /// Consumes and returns the next item, if there is one.
    fn advance(&mut self) -> (r: Option<char>)
        ensures
            old(self).upcoming().len() > 0 ==> r == Some(old(self).upcoming()[0])
                && final(self).upcoming() == old(self).upcoming().drop_first()
                && final(self).consumed() == old(self).consumed() + 1,
            old(self).upcoming().len() == 0 ==> r is None && final(self).upcoming() == old(self).upcoming()
                && final(self).consumed() == old(self).consumed(),
    ;

    /// The next item, not consumed.
    fn peek(&self) -> (r: Option<char>)
        ensures
            r == (if self.upcoming().len() > 0 {
                Some(self.upcoming()[0])
            } else {
                None::<char>
            }),
    ;
}

impl Peek for CharStream {
    open spec fn upcoming(&self) -> Seq<char> {
        self.rest()
    }

    open spec fn consumed(&self) -> nat {
        CharStream::consumed(self)
    }

    fn advance(&mut self) -> (r: Option<char>) {
        CharStream::advance(self)
    }

    fn peek(&self) -> (r: Option<char>) {
        CharStream::peek(self)
    }
}

/// Takes the images of the items of a source while `func` gives one; the
/// first item that it maps to `None` stays in the source.
pub struct PeekWhile<P, F> {
    peek: P,
    func: F,
}

impl<P: Peek, U, F: Fn(char) -> Option<U>> PeekWhile<P, F> {
    /// The items still in the source.
    pub closed spec fn upcoming(&self) -> Seq<char> {
        self.peek.upcoming()
    }

    /// The map.
    pub closed spec fn mapping(&self) -> F {
        self.func
    }

    /// An adapter over `peek` with `func`.
    pub fn new(peek: P, func: F) -> (r: Self)
        ensures
            r.upcoming() == peek.upcoming(),
            r.mapping() == func,
    {
        PeekWhile { peek, func }
    }

    /// The image of the next item if the map gives one (the item is then
    /// consumed); otherwise `None`, and nothing is consumed.
    pub fn next(&mut self) -> (r: Option<U>)
        requires
            forall|c: char| old(self).mapping().requires((c,)),
        ensures
            final(self).mapping() == old(self).mapping(),
            old(self).upcoming().len() == 0 ==> r is None && final(self).upcoming() == old(self).upcoming(),
            old(self).upcoming().len() > 0 ==> old(self).mapping().ensures((old(self).upcoming()[0],), r)
                && (r is Some ==> final(self).upcoming() == old(self).upcoming().drop_first())
                && (r is None ==> final(self).upcoming() == old(self).upcoming()),
    {
        let peeked = match self.peek.peek() {
            Some(c) => c,
            None => {
                return None;
            },
        };
        assert(self.func.requires((peeked,))) by {
            assert(old(self).mapping().requires((peeked,)));
        }
        let mapped = (self.func)(peeked);
        if mapped.is_some() {
            self.peek.advance();
        }
        mapped
    }

    /// Gives the source back.
    pub fn into_inner(self) -> (r: P)
        ensures
            r.upcoming() == self.upcoming(),
    {
        self.peek
    }
}

} // verus!
