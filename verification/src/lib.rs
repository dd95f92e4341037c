//! Toast: a small stack-based language. The library holds its character
//! classification, its two tokenizers, its integer readers and its
//! interpreters, each with a contract proved by Verus.

pub mod chars;
pub mod stream;
pub mod text;
pub mod definitions;
pub mod compiler;
pub mod repl;
