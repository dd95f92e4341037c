//! The tokens of the interactive language.

use vstd::prelude::*;
use crate::chars::{ascii_lower, chars_equal, chars_of, is_ascii_char, lowercase, to_lowercase};
use crate::text::{
    byte_length, debug_quoted, debug_string, decimal, decimal_text, signed_decimal, signed_decimal_text,
};

verus! {

/// Whether a bracket opens or closes.
#[derive(Debug, Copy, Clone, Eq, PartialEq, Structural)]
pub enum BracketState {
    Open,
    Close,
}

/// The kinds of bracket.
#[derive(Debug, Copy, Clone, Eq, PartialEq, Structural)]
pub enum Bracket {
    Angle,
    Curly,
    Square,
    Parenthesis,
}

/// The character that opens a kind of bracket.
pub open spec fn open_char(b: Bracket) -> char {
    match b {
        Bracket::Angle => '<',
        Bracket::Curly => '{',
        Bracket::Square => '[',
        Bracket::Parenthesis => '(',
    }
}

/// The character that closes a kind of bracket.
pub open spec fn close_char(b: Bracket) -> char {
    match b {
        Bracket::Angle => '>',
        Bracket::Curly => '}',
        Bracket::Square => ']',
        Bracket::Parenthesis => ')',
    }
}

impl Bracket {
    /// The character that opens this kind of bracket.
    pub fn open(&self) -> (c: char)
        ensures
            c == open_char(*self),
    {
        match self {
            Bracket::Angle => '<',
            Bracket::Curly => '{',
            Bracket::Square => '[',
            Bracket::Parenthesis => '(',
        }
    }

    /// The character that closes this kind of bracket.
    pub fn close(&self) -> (c: char)
        ensures
            c == close_char(*self),
    {
        match self {
            Bracket::Angle => '>',
            Bracket::Curly => '}',
            Bracket::Square => ']',
            Bracket::Parenthesis => ')',
        }
    }
}

/// The keywords.
#[derive(Debug, Copy, Clone, Eq, PartialEq, Structural)]
pub enum Keyword {
    Def,
    Call,
    Print,
}

/// A word that is no keyword.
#[derive(Debug, Clone, Eq, PartialEq)]
pub struct UnknownKeyword(pub String);

/// The keyword whose lower-case spelling is `s`, if any.
pub open spec fn keyword_named(s: Seq<char>) -> Option<Keyword> {
    if s == seq!['p', 'r', 'i', 'n', 't'] {
        Some(Keyword::Print)
    } else if s == seq!['c', 'a', 'l', 'l'] {
        Some(Keyword::Call)
    } else if s == seq!['d', 'e', 'f'] {
        Some(Keyword::Def)
    } else {
        None
    }
}

impl Keyword {
    /// The keyword spelled `s`, in any case (as the Unicode lower-case mapping
    /// sees it); otherwise the word itself as the error.
    pub fn from_str(s: &str) -> (r: Result<Keyword, UnknownKeyword>)
        ensures
            match keyword_named(lowercase(s@)) {
                Some(k) => r == Ok::<Keyword, UnknownKeyword>(k),
                None => r matches Err(e) && e.0@ == s@,
            },
            (forall|i: int| 0 <= i < s@.len() ==> is_ascii_char(#[trigger] s@[i])) ==> lowercase(s@)
                == s@.map_values(|c: char| ascii_lower(c)),
    {
        let lower = to_lowercase(s);
        let chars = chars_of(lower.as_str());
        if chars_equal(&chars, &vec!['p', 'r', 'i', 'n', 't']) {
            Ok(Keyword::Print)
        } else if chars_equal(&chars, &vec!['c', 'a', 'l', 'l']) {
            Ok(Keyword::Call)
        } else if chars_equal(&chars, &vec!['d', 'e', 'f']) {
            Ok(Keyword::Def)
        } else {
            Err(UnknownKeyword(String::from_str(s)))
        }
    }
}

/// The sign of a number.
#[derive(Debug, Clone, Copy, PartialEq, Eq, Structural)]
pub enum Sign {
    Positive,
    Negative,
}

/// The other sign.
pub open spec fn opposite(s: Sign) -> Sign {
    match s {
        Sign::Positive => Sign::Negative,
        Sign::Negative => Sign::Positive,
    }
}

/// Flipping a sign twice gives it back.
pub proof fn lemma_opposite_involutive(s: Sign)
    ensures
        opposite(opposite(s)) == s,
{
}

impl Sign {
    /// Turns the sign into the other one.
    pub fn flip(&mut self)
        ensures
            *final(self) == opposite(*old(self)),
    {
        *self = match self {
            Sign::Positive => Sign::Negative,
            Sign::Negative => Sign::Positive,
        };
    }
}

/// A number literal: an integer, or a decimal written as a sign, an integer
/// part and a fraction `fraction_numerator / fraction_denominator`.
#[derive(Debug, Clone, Copy, PartialEq, Eq, Structural)]
pub enum NumericLiteral {
    Integer(isize),
    Decimal {
        sign: Sign,
        integer_part: usize,
        fraction_numerator: usize,
        fraction_denominator: usize,
    },
}

/// The literal with the opposite sign.
pub open spec fn negation(n: NumericLiteral) -> NumericLiteral {
    match n {
        NumericLiteral::Integer(v) => NumericLiteral::Integer((-v) as isize),
        NumericLiteral::Decimal {
            sign,
            integer_part,
            fraction_numerator,
            fraction_denominator,
        } => NumericLiteral::Decimal {
            sign: opposite(sign),
            integer_part,
            fraction_numerator,
            fraction_denominator,
        },
    }
}

/// Negating a literal twice gives it back (the least integer, which cannot
/// be negated, is left out).
pub proof fn lemma_negation_involutive(n: NumericLiteral)
    requires
        !(n matches NumericLiteral::Integer(v) && v == isize::MIN),
    ensures
        !(negation(n) matches NumericLiteral::Integer(v) && v == isize::MIN),
        negation(negation(n)) == n,
{
}

impl NumericLiteral {
    /// Negates the literal: an integer is multiplied by -1 (the least integer
    /// has no negation and is left out), a decimal has its sign flipped.
    pub fn negate(&mut self)
        requires
            !(*old(self) matches NumericLiteral::Integer(v) && v == isize::MIN),
        ensures
            *final(self) == negation(*old(self)),
    {
        let cur = *self;
        match cur {
            NumericLiteral::Decimal {
                sign,
                integer_part,
                fraction_numerator,
                fraction_denominator,
            } => {
                let mut flipped = sign;
                flipped.flip();
                *self = NumericLiteral::Decimal {
                    sign: flipped,
                    integer_part,
                    fraction_numerator,
                    fraction_denominator,
                };
                assert(*self == negation(cur));
            },
            NumericLiteral::Integer(value) => {
                *self = NumericLiteral::Integer(-value);
            },
        }
    }
}

/// A literal: a number or a string.
#[derive(Debug, Clone, PartialEq, Eq)]
pub enum Literal {
    Number(NumericLiteral),
    String(String),
}

/// A literal as a value: strings as character sequences.
pub enum LiteralView {
    Number(NumericLiteral),
    String(Seq<char>),
}

impl View for Literal {
    type V = LiteralView;

    open spec fn view(&self) -> LiteralView {
        match self {
            Literal::Number(n) => LiteralView::Number(*n),
            Literal::String(s) => LiteralView::String(s@),
        }
    }
}

/// A token of the interactive language.
#[derive(Debug, Clone, PartialEq, Eq)]
pub enum Token {
    Bracket { bracket: Bracket, state: BracketState },
    Literal(Literal),
    Identifier(String),
    Keyword(Keyword),
}

/// A token as a value: strings as character sequences.
pub enum TokenView {
    Bracket { bracket: Bracket, state: BracketState },
    Literal(LiteralView),
    Identifier(Seq<char>),
    Keyword(Keyword),
}

impl View for Token {
    type V = TokenView;

    open spec fn view(&self) -> TokenView {
        match self {
            Token::Bracket { bracket, state } => TokenView::Bracket {
                bracket: *bracket,
                state: *state,
            },
            Token::Literal(l) => TokenView::Literal(l@),
            Token::Identifier(s) => TokenView::Identifier(s@),
            Token::Keyword(k) => TokenView::Keyword(*k),
        }
    }
}

/// The name of a bracket state as its `Debug` text writes it.
pub open spec fn state_name(s: BracketState) -> Seq<char> {
    match s {
        BracketState::Open => "Open"@,
        BracketState::Close => "Close"@,
    }
}

/// The name of a bracket kind as its `Debug` text writes it.
pub open spec fn bracket_name(b: Bracket) -> Seq<char> {
    match b {
        Bracket::Angle => "Angle"@,
        Bracket::Curly => "Curly"@,
        Bracket::Square => "Square"@,
        Bracket::Parenthesis => "Parenthesis"@,
    }
}

/// The name of a keyword as its `Debug` text writes it.
pub open spec fn keyword_name(k: Keyword) -> Seq<char> {
    match k {
        Keyword::Def => "Def"@,
        Keyword::Call => "Call"@,
        Keyword::Print => "Print"@,
    }
}

/// The debugging text of a number: `<[Integer]v>`, or `<[Float]` with the
/// sign, the integer part, a space and the fraction, then `>`.
pub open spec fn number_text(n: NumericLiteral) -> Seq<char> {
    match n {
        NumericLiteral::Integer(v) => "<[Integer]"@ + signed_decimal(v as int) + ">"@,
        NumericLiteral::Decimal { sign, integer_part, fraction_numerator, fraction_denominator } => {
            "<[Float]"@ + (if sign == Sign::Negative {
                "-"@
            } else {
                Seq::empty()
            }) + decimal(integer_part as nat) + " "@ + decimal(fraction_numerator as nat) + "/"@
                + decimal(fraction_denominator as nat) + ">"@
        },
    }
}

/// The debugging text of a literal: a number as `number_text`; a string as
/// `<[STR, n]` with its length `n` in bytes, then its quoted text and `>`.
pub open spec fn literal_text(l: LiteralView) -> Seq<char> {
    match l {
        LiteralView::Number(n) => number_text(n),
        LiteralView::String(s) => "<[STR, "@ + decimal(byte_length(s)) + "]"@ + debug_string(s)
            + ">"@,
    }
}

/// The debugging text of a token: `<` state and kind `>` for a bracket, the
/// literal's text, `<[ID]` and the quoted name `>`, or `<[KW]` keyword `>`.
pub open spec fn token_text(t: TokenView) -> Seq<char> {
    match t {
        TokenView::Bracket { bracket, state } => "<"@ + state_name(state) + bracket_name(bracket) + ">"@,
        TokenView::Literal(l) => literal_text(l),
        TokenView::Identifier(id) => "<[ID]"@ + debug_string(id) + ">"@,
        TokenView::Keyword(k) => "<[KW]"@ + keyword_name(k) + ">"@,
    }
}

impl BracketState {
    /// The state's name.
    pub fn name(&self) -> (r: &'static str)
        ensures
            r@ == state_name(*self),
    {
        match self {
            BracketState::Open => "Open",
            BracketState::Close => "Close",
        }
    }
}

impl Bracket {
    /// The kind's name.
    pub fn name(&self) -> (r: &'static str)
        ensures
            r@ == bracket_name(*self),
    {
        match self {
            Bracket::Angle => "Angle",
            Bracket::Curly => "Curly",
            Bracket::Square => "Square",
            Bracket::Parenthesis => "Parenthesis",
        }
    }
}

impl Keyword {
    /// The keyword's name.
    pub fn name(&self) -> (r: &'static str)
        ensures
            r@ == keyword_name(*self),
    {
        match self {
            Keyword::Def => "Def",
            Keyword::Call => "Call",
            Keyword::Print => "Print",
        }
    }
}

impl NumericLiteral {
    /// The debugging text of the number (see `number_text`).
    pub fn debug_text(&self) -> (r: String)
        ensures
            r@ == number_text(*self),
    {
        match self {
            NumericLiteral::Integer(v) => {
                let mut r = String::from_str("<[Integer]");
                let digits = signed_decimal_text(*v);
                r.append(digits.as_str());
                r.append(">");
                r
            },
            NumericLiteral::Decimal { sign, integer_part, fraction_numerator, fraction_denominator } => {
                let mut r = String::from_str("<[Float]");
                if *sign == Sign::Negative {
                    r.append("-");
                }
                let ip = decimal_text(*integer_part);
                r.append(ip.as_str());
                r.append(" ");
                let num = decimal_text(*fraction_numerator);
                r.append(num.as_str());
                r.append("/");
                let den = decimal_text(*fraction_denominator);
                r.append(den.as_str());
                r.append(">");
                r
            },
        }
    }
}

impl Literal {
    /// The debugging text of the literal (see `literal_text`).
    pub fn debug_text(&self) -> (r: String)
        ensures
            r@ == literal_text(self@),
    {
        match self {
            Literal::Number(n) => {
                let r = n.debug_text();
                r
            },
            Literal::String(s) => {
                let mut r = String::from_str("<[STR, ");
                let len = decimal_text(s.as_str().len());
                r.append(len.as_str());
                r.append("]");
                let quoted = debug_quoted(s.as_str());
                r.append(quoted.as_str());
                r.append(">");
                r
            },
        }
    }
}

impl Token {
    /// The debugging text of the token (see `token_text`).
    pub fn debug_text(&self) -> (r: String)
        ensures
            r@ == token_text(self@),
    {
        match self {
            Token::Bracket { bracket, state } => {
                let mut r = String::from_str("<");
                r.append(state.name());
                r.append(bracket.name());
                r.append(">");
                r
            },
            Token::Literal(l) => l.debug_text(),
            Token::Identifier(id) => {
                let mut r = String::from_str("<[ID]");
                let quoted = debug_quoted(id.as_str());
                r.append(quoted.as_str());
                r.append(">");
                r
            },
            Token::Keyword(k) => {
                let mut r = String::from_str("<[KW]");
                r.append(k.name());
                r.append(">");
                r
            },
        }
    }
}

} // verus!
