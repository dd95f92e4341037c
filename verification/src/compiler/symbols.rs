//! A reduced token set: parentheses, operators, keywords and numbers.

use vstd::prelude::*;
use crate::chars::{ascii_lower, chars_equal, chars_of, is_ascii_char, lowercase, to_lowercase};
use super::tokens::{number_text, NumericLiteral};
use crate::text::{debug_quoted, debug_string};

verus! {

/// Whether a bracket opens or closes.
#[derive(Debug, Copy, Clone, Eq, PartialEq, Structural)]
pub enum BracketState {
    Open,
    Close,
}

/// The kinds of bracket.
#[derive(Debug, Copy, Clone, Eq, PartialEq, Structural)]
pub enum Bracket {
    Parenthesis,
}

impl Bracket {
    /// The character that opens this kind of bracket.
    pub fn open(&self) -> (c: char)
        ensures
            c == '(',
    {
        match self {
            Bracket::Parenthesis => '(',
        }
    }

    /// The character that closes this kind of bracket.
    pub fn close(&self) -> (c: char)
        ensures
            c == ')',
    {
        match self {
            Bracket::Parenthesis => ')',
        }
    }
}

/// The arithmetic operators.
#[derive(Debug, Copy, Clone, Eq, PartialEq, Structural)]
pub enum Operator {
    Add,
    Sub,
    Mul,
    Div,
    Mod,
}

/// A character that is no operator.
#[derive(Debug, Copy, Clone, Eq, PartialEq, Structural)]
pub struct UnknownOperator(char);

impl UnknownOperator {
    /// The character that is no operator.
    pub closed spec fn character(&self) -> char {
        self.0
    }
}

/// The operator that `c` stands for in this token set. Both `/` and `%` stand
/// for division here.
pub open spec fn operator_of(c: char) -> Option<Operator> {
    if c == '-' {
        Some(Operator::Sub)
    } else if c == '*' {
        Some(Operator::Mul)
    } else if c == '+' {
        Some(Operator::Add)
    } else if c == '/' {
        Some(Operator::Div)
    } else if c == '%' {
        Some(Operator::Div)
    } else {
        None
    }
}

impl Operator {
    /// The operator written as `value`; otherwise `value` as the error.
    pub fn try_from(value: char) -> (r: Result<Operator, UnknownOperator>)
        ensures
            match operator_of(value) {
                Some(op) => r == Ok::<Operator, UnknownOperator>(op),
                None => r matches Err(e) && e.character() == value,
            },
    {
        match value {
            '-' => Ok(Operator::Sub),
            '*' => Ok(Operator::Mul),
            '+' => Ok(Operator::Add),
            '/' => Ok(Operator::Div),
            '%' => Ok(Operator::Div),
            _ => Err(UnknownOperator(value)),
        }
    }
}

/// The keywords.
#[derive(Debug, Copy, Clone, Eq, PartialEq, Structural)]
pub enum Keyword {
    Def,
    Call,
    Print,
}

/// A word that is no keyword.
#[derive(Debug, Clone, Eq, PartialEq)]
pub struct UnknownKeyword(pub String);

/// The keyword whose lower-case spelling is `s`, if any.
pub open spec fn keyword_named(s: Seq<char>) -> Option<Keyword> {
    if s == seq!['p', 'r', 'i', 'n', 't'] {
        Some(Keyword::Print)
    } else if s == seq!['c', 'a', 'l', 'l'] {
        Some(Keyword::Call)
    } else if s == seq!['d', 'e', 'f'] {
        Some(Keyword::Def)
    } else {
        None
    }
}

impl Keyword {
    /// The keyword spelled `s`, in any case (as the Unicode lower-case mapping
    /// sees it); otherwise the word itself as the error.
    pub fn from_str(s: &str) -> (r: Result<Keyword, UnknownKeyword>)
        ensures
            match keyword_named(lowercase(s@)) {
                Some(k) => r == Ok::<Keyword, UnknownKeyword>(k),
                None => r matches Err(e) && e.0@ == s@,
            },
            (forall|i: int| 0 <= i < s@.len() ==> is_ascii_char(#[trigger] s@[i])) ==> lowercase(s@)
                == s@.map_values(|c: char| ascii_lower(c)),
    {
        let lower = to_lowercase(s);
        let chars = chars_of(lower.as_str());
        if chars_equal(&chars, &vec!['p', 'r', 'i', 'n', 't']) {
            Ok(Keyword::Print)
        } else if chars_equal(&chars, &vec!['c', 'a', 'l', 'l']) {
            Ok(Keyword::Call)
        } else if chars_equal(&chars, &vec!['d', 'e', 'f']) {
            Ok(Keyword::Def)
        } else {
            Err(UnknownKeyword(String::from_str(s)))
        }
    }
}

/// A literal: a number.
#[derive(Debug, Clone, Copy, PartialEq, Eq)]
pub enum Literal {
    Number(NumericLiteral),
}

/// A token of the reduced token set.
#[derive(Debug, Clone, PartialEq, Eq)]
pub enum Token {
    Bracket { bracket: Bracket, state: BracketState },
    Literal(Literal),
    Identifier(String),
    Keyword(Keyword),
    Operator(Operator),
}

/// A token as a value: names as character sequences.
pub enum TokenView {
    Bracket { bracket: Bracket, state: BracketState },
    Literal(Literal),
    Identifier(Seq<char>),
    Keyword(Keyword),
    Operator(Operator),
}

impl View for Token {
    type V = TokenView;

    open spec fn view(&self) -> TokenView {
        match self {
            Token::Bracket { bracket, state } => TokenView::Bracket { bracket: *bracket, state: *state },
            Token::Literal(l) => TokenView::Literal(*l),
            Token::Identifier(s) => TokenView::Identifier(s@),
            Token::Keyword(k) => TokenView::Keyword(*k),
            Token::Operator(o) => TokenView::Operator(*o),
        }
    }
}

/// The symbol of an operator.
pub open spec fn operator_symbol(o: Operator) -> Seq<char> {
    match o {
        Operator::Add => "+"@,
        Operator::Sub => "-"@,
        Operator::Mul => "*"@,
        Operator::Div => "/"@,
        Operator::Mod => "%"@,
    }
}

/// The debugging text of an operator: `[Op: ` and its symbol, then `]`.
pub open spec fn operator_text(o: Operator) -> Seq<char> {
    "[Op: "@ + operator_symbol(o) + "]"@
}

/// The name of a keyword as its `Debug` text writes it.
pub open spec fn keyword_name(k: Keyword) -> Seq<char> {
    match k {
        Keyword::Def => "Def"@,
        Keyword::Call => "Call"@,
        Keyword::Print => "Print"@,
    }
}

/// The debugging text of a token: `<` state and kind `>` for a bracket, the
/// number's text, `<[ID]` and the quoted name `>`, `<[KW]` keyword `>`, or
/// the operator's text.
pub open spec fn token_text(t: TokenView) -> Seq<char> {
    match t {
        TokenView::Bracket { bracket, state } => "<"@ + match state {
            BracketState::Open => "Open"@,
            BracketState::Close => "Close"@,
        } + match bracket {
            Bracket::Parenthesis => "Parenthesis"@,
        } + ">"@,
        TokenView::Literal(Literal::Number(n)) => number_text(n),
        TokenView::Identifier(id) => "<[ID]"@ + debug_string(id) + ">"@,
        TokenView::Keyword(k) => "<[KW]"@ + keyword_name(k) + ">"@,
        TokenView::Operator(o) => operator_text(o),
    }
}

impl Operator {
    /// The debugging text of the operator (see `operator_text`).
    pub fn debug_text(&self) -> (r: String)
        ensures
            r@ == operator_text(*self),
    {
        let mut r = String::from_str("[Op: ");
        let symbol = match self {
            Operator::Add => "+",
            Operator::Sub => "-",
            Operator::Mul => "*",
            Operator::Div => "/",
            Operator::Mod => "%",
        };
        r.append(symbol);
        r.append("]");
        r
    }
}

impl Token {
    /// The debugging text of the token (see `token_text`).
    pub fn debug_text(&self) -> (r: String)
        ensures
            r@ == token_text(self@),
    {
        match self {
            Token::Bracket { bracket, state } => {
                let mut r = String::from_str("<");
                match state {
                    BracketState::Open => r.append("Open"),
                    BracketState::Close => r.append("Close"),
                }
                match bracket {
                    Bracket::Parenthesis => r.append("Parenthesis"),
                }
                r.append(">");
                r
            },
            Token::Literal(Literal::Number(n)) => n.debug_text(),
            Token::Identifier(id) => {
                let mut r = String::from_str("<[ID]");
                let quoted = debug_quoted(id.as_str());
                r.append(quoted.as_str());
                r.append(">");
                r
            },
            Token::Keyword(k) => {
                let mut r = String::from_str("<[KW]");
                match k {
                    Keyword::Def => r.append("Def"),
                    Keyword::Call => r.append("Call"),
                    Keyword::Print => r.append("Print"),
                }
                r.append(">");
                r
            },
            Token::Operator(o) => o.debug_text(),
        }
    }
}

} // verus!
