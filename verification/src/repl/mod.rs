//! The interactive language: its tokens, its tokenizer, its expressions and
//! its interpreter.

pub mod tokens;
pub mod tokenizer;
pub mod util;
pub mod expression;
pub mod codegen;
