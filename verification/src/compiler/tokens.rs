//! The token kinds of the compiler's richer token set: brackets, operators,
//! keywords, signed numbers with fractions, strings and identifiers.

use vstd::prelude::*;
use crate::chars::{ascii_lower, chars_equal, chars_of, is_ascii_char, lowercase, to_lowercase};
use crate::text::{byte_length, debug_quoted, debug_string, decimal, decimal_text};

verus! {

/// Whether a bracket opens or closes.
#[derive(Debug, Copy, Clone, Eq, PartialEq, Structural)]
pub enum BracketState {
    Open,
    Close,
}

/// The kinds of bracket.
#[derive(Debug, Copy, Clone, Eq, PartialEq, Structural)]
pub enum Bracket {
    Angle,
    Curly,
    Square,
    Parenthesis,
}

impl Bracket {
    /// The character that opens this kind of bracket.
    pub fn open(&self) -> (c: char)
        ensures
            c == (match *self {
                Bracket::Angle => '<',
                Bracket::Curly => '{',
                Bracket::Square => '[',
                Bracket::Parenthesis => '(',
            }),
    {
        match self {
            Bracket::Angle => '<',
            Bracket::Curly => '{',
            Bracket::Square => '[',
            Bracket::Parenthesis => '(',
        }
    }

    /// The character that closes this kind of bracket.
    pub fn close(&self) -> (c: char)
        ensures
            c == (match *self {
                Bracket::Angle => '>',
                Bracket::Curly => '}',
                Bracket::Square => ']',
                Bracket::Parenthesis => ')',
            }),
    {
        match self {
            Bracket::Angle => '>',
            Bracket::Curly => '}',
            Bracket::Square => ']',
            Bracket::Parenthesis => ')',
        }
    }
}

/// The arithmetic operators.
#[derive(Debug, Copy, Clone, Eq, PartialEq, Structural)]
pub enum Operator {
    Add,
    Sub,
    Mul,
    Div,
    Mod,
}

/// A character that is no operator.
#[derive(Debug, Copy, Clone, Eq, PartialEq, Structural)]
pub struct UnknownOperator(char);

impl UnknownOperator {
    /// The character that is no operator.
    pub closed spec fn character(&self) -> char {
        self.0
    }
}

/// The operator that `c` stands for in this token set. Both `/` and `%` stand
/// for division here.
pub open spec fn operator_of(c: char) -> Option<Operator> {
    if c == '-' {
        Some(Operator::Sub)
    } else if c == '*' {
        Some(Operator::Mul)
    } else if c == '+' {
        Some(Operator::Add)
    } else if c == '/' {
        Some(Operator::Div)
    } else if c == '%' {
        Some(Operator::Div)
    } else {
        None
    }
}

impl Operator {
    /// The operator written as `value`; otherwise `value` as the error.
    pub fn try_from(value: char) -> (r: Result<Operator, UnknownOperator>)
        ensures
            match operator_of(value) {
                Some(op) => r == Ok::<Operator, UnknownOperator>(op),
                None => r matches Err(e) && e.character() == value,
            },
    {
        match value {
            '-' => Ok(Operator::Sub),
            '*' => Ok(Operator::Mul),
            '+' => Ok(Operator::Add),
            '/' => Ok(Operator::Div),
            '%' => Ok(Operator::Div),
            _ => Err(UnknownOperator(value)),
        }
    }
}

/// The keywords.
#[derive(Debug, Copy, Clone, Eq, PartialEq, Structural)]
pub enum Keyword {
    Def,
    Call,
    Print,
}

/// A word that is no keyword.
#[derive(Debug, Clone, Eq, PartialEq)]
pub struct UnknownKeyword(pub String);

/// The keyword whose lower-case spelling is `s`, if any.
pub open spec fn keyword_named(s: Seq<char>) -> Option<Keyword> {
    if s == seq!['p', 'r', 'i', 'n', 't'] {
        Some(Keyword::Print)
    } else if s == seq!['c', 'a', 'l', 'l'] {
        Some(Keyword::Call)
    } else if s == seq!['d', 'e', 'f'] {
        Some(Keyword::Def)
    } else {
        None
    }
}

impl Keyword {
    /// The keyword spelled `s`, in any case (as the Unicode lower-case mapping
    /// sees it); otherwise the word itself as the error.
    pub fn from_str(s: &str) -> (r: Result<Keyword, UnknownKeyword>)
        ensures
            match keyword_named(lowercase(s@)) {
                Some(k) => r == Ok::<Keyword, UnknownKeyword>(k),
                None => r matches Err(e) && e.0@ == s@,
            },
            (forall|i: int| 0 <= i < s@.len() ==> is_ascii_char(#[trigger] s@[i])) ==> lowercase(s@)
                == s@.map_values(|c: char| ascii_lower(c)),
    {
        let lower = to_lowercase(s);
        let chars = chars_of(lower.as_str());
        if chars_equal(&chars, &vec!['p', 'r', 'i', 'n', 't']) {
            Ok(Keyword::Print)
        } else if chars_equal(&chars, &vec!['c', 'a', 'l', 'l']) {
            Ok(Keyword::Call)
        } else if chars_equal(&chars, &vec!['d', 'e', 'f']) {
            Ok(Keyword::Def)
        } else {
            Err(UnknownKeyword(String::from_str(s)))
        }
    }
}

/// The sign of a number.
#[derive(Debug, Clone, Copy, PartialEq, Eq, Structural)]
pub enum Sign {
    Positive,
    Negative,
}

/// The other sign.
pub open spec fn opposite(s: Sign) -> Sign {
    match s {
        Sign::Positive => Sign::Negative,
        Sign::Negative => Sign::Positive,
    }
}

/// Flipping a sign twice gives it back.
pub proof fn lemma_opposite_involutive(s: Sign)
    ensures
        opposite(opposite(s)) == s,
{
}

impl Sign {
    /// Turns the sign into the other one.
    pub fn flip(&mut self)
        ensures
            *final(self) == opposite(*old(self)),
    {
        *self = match self {
            Sign::Positive => Sign::Negative,
            Sign::Negative => Sign::Positive,
        };
    }
}

/// A number: a sign, a magnitude's integer part, and an optional fraction
/// given as numerator and denominator.
#[derive(Debug, Clone, Copy, PartialEq, Eq)]
pub struct NumericLiteral {
    pub sign: Sign,
    pub integer_part: usize,
    pub fractional_part: Option<(usize, usize)>,
}

impl NumericLiteral {
    /// The literal for `integer`: its sign and its magnitude, no fraction. The
    /// least `isize`, whose magnitude cannot be negated in an `isize`,
    /// is left out.
    pub fn integer(integer: isize) -> (r: Self)
        requires
            integer > isize::MIN,
        ensures
            r.sign == (if integer < 0 {
                Sign::Negative
            } else {
                Sign::Positive
            }),
            r.integer_part == (if integer < 0 {
                -integer
            } else {
                integer as int
            }),
            r.fractional_part is None,
    {
        if integer < 0 {
            NumericLiteral { sign: Sign::Negative, integer_part: (-integer) as usize, fractional_part: None }
        } else {
            NumericLiteral { sign: Sign::Positive, integer_part: integer as usize, fractional_part: None }
        }
    }

    /// Negates the literal by flipping its sign.
    pub fn negate(&mut self)
        ensures
            final(self).sign == opposite(old(self).sign),
            final(self).integer_part == old(self).integer_part,
            final(self).fractional_part == old(self).fractional_part,
    {
        self.sign.flip()
    }
}

/// A literal: a number or a string.
#[derive(Debug, Clone, PartialEq, Eq)]
pub enum Literal {
    Number(NumericLiteral),
    String(String),
}

/// A literal as a value: strings as character sequences.
pub enum LiteralView {
    Number(NumericLiteral),
    String(Seq<char>),
}

impl View for Literal {
    type V = LiteralView;

    open spec fn view(&self) -> LiteralView {
        match self {
            Literal::Number(n) => LiteralView::Number(*n),
            Literal::String(s) => LiteralView::String(s@),
        }
    }
}

/// A token of the richer token set.
#[derive(Debug, Clone, PartialEq, Eq)]
pub enum Token {
    Bracket { bracket: Bracket, state: BracketState },
    Literal(Literal),
    Identifier(String),
    Keyword(Keyword),
    Operator(Operator),
}

/// A token as a value: strings as character sequences.
pub enum TokenView {
    Bracket { bracket: Bracket, state: BracketState },
    Literal(LiteralView),
    Identifier(Seq<char>),
    Keyword(Keyword),
    Operator(Operator),
}

impl View for Token {
    type V = TokenView;

    open spec fn view(&self) -> TokenView {
        match self {
            Token::Bracket { bracket, state } => TokenView::Bracket { bracket: *bracket, state: *state },
            Token::Literal(l) => TokenView::Literal(l@),
            Token::Identifier(s) => TokenView::Identifier(s@),
            Token::Keyword(k) => TokenView::Keyword(*k),
            Token::Operator(o) => TokenView::Operator(*o),
        }
    }
}

/// The name of a bracket state as its `Debug` text writes it.
pub open spec fn state_name(s: BracketState) -> Seq<char> {
    match s {
        BracketState::Open => "Open"@,
        BracketState::Close => "Close"@,
    }
}

/// The name of a bracket kind as its `Debug` text writes it.
pub open spec fn bracket_name(b: Bracket) -> Seq<char> {
    match b {
        Bracket::Angle => "Angle"@,
        Bracket::Curly => "Curly"@,
        Bracket::Square => "Square"@,
        Bracket::Parenthesis => "Parenthesis"@,
    }
}

/// The name of a keyword as its `Debug` text writes it.
pub open spec fn keyword_name(k: Keyword) -> Seq<char> {
    match k {
        Keyword::Def => "Def"@,
        Keyword::Call => "Call"@,
        Keyword::Print => "Print"@,
    }
}

/// The symbol of an operator.
pub open spec fn operator_symbol(o: Operator) -> Seq<char> {
    match o {
        Operator::Add => "+"@,
        Operator::Sub => "-"@,
        Operator::Mul => "*"@,
        Operator::Div => "/"@,
        Operator::Mod => "%"@,
    }
}

/// The debugging text of an operator: `<[OP]` and its symbol, then `>`.
pub open spec fn operator_text(o: Operator) -> Seq<char> {
    "<[OP]"@ + operator_symbol(o) + ">"@
}

/// The debugging text of a number: `-` when it is negative, the integer part,
/// and, when there is a fraction, a space and `numerator/denominator`.
pub open spec fn number_text(n: NumericLiteral) -> Seq<char> {
    (if n.sign == Sign::Negative {
        "-"@
    } else {
        Seq::empty()
    }) + decimal(n.integer_part as nat) + match n.fractional_part {
        Some((num, den)) => " "@ + decimal(num as nat) + "/"@ + decimal(den as nat),
        None => Seq::empty(),
    }
}

/// The debugging text of a literal: a number as `number_text`; a string as
/// `<[STR, n]` with its length `n` in bytes, then its quoted text and `>`.
pub open spec fn literal_text(l: LiteralView) -> Seq<char> {
    match l {
        LiteralView::Number(n) => number_text(n),
        LiteralView::String(s) => "<[STR, "@ + decimal(byte_length(s)) + "]"@ + debug_string(s) + ">"@,
    }
}

/// The debugging text of a token: `<` state and kind `>` for a bracket, the
/// literal's text, `<[ID]` and the quoted name `>`, `<[KW]` keyword `>`, or
/// the operator's text.
pub open spec fn token_text(t: TokenView) -> Seq<char> {
    match t {
        TokenView::Bracket { bracket, state } => "<"@ + state_name(state) + bracket_name(bracket) + ">"@,
        TokenView::Literal(l) => literal_text(l),
        TokenView::Identifier(id) => "<[ID]"@ + debug_string(id) + ">"@,
        TokenView::Keyword(k) => "<[KW]"@ + keyword_name(k) + ">"@,
        TokenView::Operator(o) => operator_text(o),
    }
}

impl BracketState {
    /// The state's name.
    pub fn name(&self) -> (r: &'static str)
        ensures
            r@ == state_name(*self),
    {
        match self {
            BracketState::Open => "Open",
            BracketState::Close => "Close",
        }
    }
}

impl Bracket {
    /// The kind's name.
    pub fn name(&self) -> (r: &'static str)
        ensures
            r@ == bracket_name(*self),
    {
        match self {
            Bracket::Angle => "Angle",
            Bracket::Curly => "Curly",
            Bracket::Square => "Square",
            Bracket::Parenthesis => "Parenthesis",
        }
    }
}

impl Keyword {
    /// The keyword's name.
    pub fn name(&self) -> (r: &'static str)
        ensures
            r@ == keyword_name(*self),
    {
        match self {
            Keyword::Def => "Def",
            Keyword::Call => "Call",
            Keyword::Print => "Print",
        }
    }
}

impl Operator {
    /// The operator's symbol.
    pub fn symbol(&self) -> (r: &'static str)
        ensures
            r@ == operator_symbol(*self),
    {
        match self {
            Operator::Add => "+",
            Operator::Sub => "-",
            Operator::Mul => "*",
            Operator::Div => "/",
            Operator::Mod => "%",
        }
    }

    /// The debugging text of the operator (see `operator_text`).
    pub fn debug_text(&self) -> (r: String)
        ensures
            r@ == operator_text(*self),
    {
        let mut r = String::from_str("<[OP]");
        r.append(self.symbol());
        r.append(">");
        r
    }
}

impl NumericLiteral {
    /// The debugging text of the number (see `number_text`).
    pub fn debug_text(&self) -> (r: String)
        ensures
            r@ == number_text(*self),
    {
        let mut r = String::new();
        if self.sign == Sign::Negative {
            r.append("-");
        }
        let ip = decimal_text(self.integer_part);
        r.append(ip.as_str());
        match self.fractional_part {
            Some((num, den)) => {
                r.append(" ");
                let n = decimal_text(num);
                r.append(n.as_str());
                r.append("/");
                let d = decimal_text(den);
                r.append(d.as_str());
            },
            None => {},
        }
        assert(r@ =~= number_text(*self));
        r
    }
}

impl Literal {
    /// The debugging text of the literal (see `literal_text`).
    pub fn debug_text(&self) -> (r: String)
        ensures
            r@ == literal_text(self@),
    {
        match self {
            Literal::Number(n) => n.debug_text(),
            Literal::String(s) => {
                let mut r = String::from_str("<[STR, ");
                let len = decimal_text(s.as_str().len());
                r.append(len.as_str());
                r.append("]");
                let quoted = debug_quoted(s.as_str());
                r.append(quoted.as_str());
                r.append(">");
                r
            },
        }
    }
}

impl Token {
    /// The debugging text of the token (see `token_text`).
    pub fn debug_text(&self) -> (r: String)
        ensures
            r@ == token_text(self@),
    {
        match self {
            Token::Bracket { bracket, state } => {
                let mut r = String::from_str("<");
                r.append(state.name());
                r.append(bracket.name());
                r.append(">");
                r
            },
            Token::Literal(l) => l.debug_text(),
            Token::Identifier(id) => {
                let mut r = String::from_str("<[ID]");
                let quoted = debug_quoted(id.as_str());
                r.append(quoted.as_str());
                r.append(">");
                r
            },
            Token::Keyword(k) => {
                let mut r = String::from_str("<[KW]");
                r.append(k.name());
                r.append(">");
                r
            },
            Token::Operator(o) => o.debug_text(),
        }
    }
}

} // verus!
