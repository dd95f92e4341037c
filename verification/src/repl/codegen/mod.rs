//! Back ends that take expressions one by one.

use vstd::prelude::*;
use super::expression::Expression;

pub mod interpreter;

verus! {

/// A consumer of expressions.
pub trait Backend: Sized {
    /// Whether `expression` can be processed from this state without the
    /// computation panicking or running forever.
    spec fn can_process(&self, expression: Expression) -> bool;

    /// Whether `after` is the state that processing `expression` leads to.
    spec fn processed(&self, expression: Expression, after: Self) -> bool;

    /// Processes one expression.
    fn process(&mut self, expression: Expression)
        requires
            old(self).can_process(expression),
        ensures
            old(self).processed(expression, *final(self)),
    ;
}

} // verus!
