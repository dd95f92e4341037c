//! The parser that will turn the compiler's tokens into expressions.

use vstd::prelude::*;

verus! {

/// Holds the token source that expressions are read from. It has no way to
/// produce an expression yet.
pub struct Parser<T> {
    tokens: T,
}

} // verus!
