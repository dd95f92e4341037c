//! Adapters that take characters from a stream while a test holds, leaving
//! the first character that fails it in the stream.

use vstd::prelude::*;
use crate::stream::CharStream;

verus! {

/// Takes characters from a stream while `predicate` holds of them.
pub struct BorrowedFilter<F> {
    iter: CharStream,
    predicate: F,
}

impl<F: Fn(char) -> bool> BorrowedFilter<F> {
    /// The characters still in the stream.
    pub closed spec fn rest(&self) -> Seq<char> {
        self.iter.rest()
    }

    /// The test.
    pub closed spec fn test(&self) -> F {
        self.predicate
    }

    /// An adapter over `iter` with the test `predicate`.
    pub fn new(iter: CharStream, predicate: F) -> (r: Self)
        ensures
            r.rest() == iter.rest(),
            r.test() == predicate,
    {
        BorrowedFilter { iter, predicate }
    }

    /// The next character if the test holds of it (it is then consumed);
    /// otherwise `None`, and nothing is consumed.
    pub fn next(&mut self) -> (r: Option<char>)
        requires
            forall|c: char| old(self).test().requires((c,)),
        ensures
            final(self).test() == old(self).test(),
            old(self).rest().len() == 0 ==> r is None && final(self).rest() == old(self).rest(),
            old(self).rest().len() > 0 ==> {
                ||| r == Some(old(self).rest()[0]) && old(self).test().ensures(
                    (old(self).rest()[0],),
                    true,
                ) && final(self).rest() == old(self).rest().drop_first()
                ||| r is None && old(self).test().ensures((old(self).rest()[0],), false) && final(self).rest() == old(self).rest()
            },
    {
        let should_collect = match self.iter.peek() {
            Some(c) => {
                assert(self.predicate.requires((c,))) by {
                    assert(old(self).test().requires((c,)));
                }
                (self.predicate)(c)
            },
            None => false,
        };
        if should_collect {
            self.iter.advance()
        } else {
            None
        }
    }

    /// Takes every character while the test holds: the characters before the
    /// first one that fails the test (or all of them), in order. That first
    /// failing character is not consumed; it and all after it stay in the
    /// stream.
    pub fn collect(&mut self) -> (r: Vec<char>)
        requires
            forall|c: char| old(self).test().requires((c,)),
        ensures
            final(self).test() == old(self).test(),
            r@.len() <= old(self).rest().len(),
            r@ == old(self).rest().take(r@.len() as int),
            final(self).rest() == old(self).rest().skip(r@.len() as int),
            forall|i: int| 0 <= i < r@.len() ==> old(self).test().ensures((#[trigger] old(self).rest()[i],), true),
            r@.len() < old(self).rest().len() ==> old(self).test().ensures((old(self).rest()[r@.len() as int],), false),
    {
        let ghost s0 = self.rest();
        let mut out: Vec<char> = Vec::new();
        assert(self.rest() =~= s0.skip(0));
        loop
            invariant
                self.test() == old(self).test(),
                s0 == old(self).rest(),
                forall|c: char| self.test().requires((c,)),
                out@.len() <= s0.len(),
                out@ == s0.take(out@.len() as int),
                self.rest() == s0.skip(out@.len() as int),
                forall|i: int| 0 <= i < out@.len() ==> self.test().ensures((#[trigger] s0[i],), true),
            ensures
                self.test() == old(self).test(),
                out@.len() <= s0.len(),
                out@ == s0.take(out@.len() as int),
                self.rest() == s0.skip(out@.len() as int),
                forall|i: int| 0 <= i < out@.len() ==> self.test().ensures((#[trigger] s0[i],), true),
                out@.len() < s0.len() ==> self.test().ensures((s0[out@.len() as int],), false),
            decreases s0.len() - out@.len(),
        {
            let ghost before = self.rest();
            match self.next() {
                Some(c) => {
                    assert(before[0] == s0[out@.len() as int]);
                    out.push(c);
                    assert(out@ =~= s0.take(out@.len() as int));
                    assert(self.rest() =~= s0.skip(out@.len() as int));
                },
                None => {
                    proof {
                        if out@.len() < s0.len() {
                            assert(before[0] == s0[out@.len() as int]);
                        }
                    }
                    break;
                },
            }
        }
        out
    }

    /// Gives the stream back.
    pub fn into_inner(self) -> (r: CharStream)
        ensures
            r.rest() == self.rest(),
    {
        self.iter
    }
}

/// Takes the images of characters from a stream while `map` gives one.
pub struct BorrowedFilterMap<F> {
    iter: CharStream,
    map: F,
}

impl<U, F: Fn(char) -> Option<U>> BorrowedFilterMap<F> {
    /// The characters still in the stream.
    pub closed spec fn rest(&self) -> Seq<char> {
        self.iter.rest()
    }

    /// The map.
    pub closed spec fn mapping(&self) -> F {
        self.map
    }

    /// An adapter over `iter` with `map`.
    pub fn new(iter: CharStream, map: F) -> (r: Self)
        ensures
            r.rest() == iter.rest(),
            r.mapping() == map,
    {
        BorrowedFilterMap { iter, map }
    }

    /// The image of the next character if the map gives one (the character is
    /// then consumed); otherwise `None`, and nothing is consumed.
    pub fn next(&mut self) -> (r: Option<U>)
        requires
            forall|c: char| old(self).mapping().requires((c,)),
        ensures
            final(self).mapping() == old(self).mapping(),
            old(self).rest().len() == 0 ==> r is None && final(self).rest() == old(self).rest(),
            old(self).rest().len() > 0 ==> old(self).mapping().ensures(
                (old(self).rest()[0],),
                r,
            ) && (r is Some ==> final(self).rest() == old(self).rest().drop_first()) && (r is None
                ==> final(self).rest() == old(self).rest()),
    {
        let mapped = match self.iter.peek() {
            Some(c) => {
                assert(self.map.requires((c,))) by {
                    assert(old(self).mapping().requires((c,)));
                }
                (self.map)(c)
            },
            None => None,
        };
        if mapped.is_some() {
            self.iter.advance();
        }
        mapped
    }

    /// Gives the stream back.
    pub fn into_inner(self) -> (r: CharStream)
        ensures
            r.rest() == self.rest(),
    {
        self.iter
    }
}

} // verus!
