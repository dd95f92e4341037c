//! The compiler's front end: integer readers, tokens and the token scanner.

pub mod try_parse_from_iter;
pub mod token;
pub mod token_scanner;
pub mod tokens;
pub mod expression;
pub mod codegen;
pub mod symbols;
pub mod args;
pub mod parser;
