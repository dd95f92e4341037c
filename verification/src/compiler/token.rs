//! The tokens of the compiler's language: numbers, the five arithmetic
//! operators and parentheses, each with the place in the source it came from.

use vstd::prelude::*;
use crate::text::{signed_decimal, signed_decimal_text};
use super::try_parse_from_iter::{IntErrorKind, Peek, TryParseFromPeek};

verus! {

/// Whether a bracket opens or closes.
#[derive(Debug, Copy, Clone, Eq, PartialEq, Structural)]
pub enum BracketState {
    Open,
    Close,
}

/// The kinds of bracket.
#[derive(Debug, Copy, Clone, Eq, PartialEq, Structural)]
pub enum BracketType {
    Parenthesis,
}

/// The arithmetic operators.
#[derive(Debug, Copy, Clone, Eq, PartialEq, Structural)]
pub enum Operator {
    Add,
    Sub,
    Mul,
    Div,
    Mod,
}

/// Why no operator could be read.
#[derive(Debug, Copy, Clone, Eq, PartialEq, Structural)]
pub enum OperatorError {
    /// The character is no operator.
    Unknown(char),
    /// There was no character.
    NoChar,
}

/// The operator that `c` stands for, if any.
pub open spec fn operator_of(c: char) -> Option<Operator> {
    if c == '-' {
        Some(Operator::Sub)
    } else if c == '*' {
        Some(Operator::Mul)
    } else if c == '+' {
        Some(Operator::Add)
    } else if c == '/' {
        Some(Operator::Div)
    } else if c == '%' {
        Some(Operator::Mod)
    } else {
        None
    }
}

/// The bracket that `c` stands for, if any.
pub open spec fn bracket_of(c: char) -> Option<Bracket> {
    if c == '(' {
        Some(Bracket::Open(BracketType::Parenthesis))
    } else if c == ')' {
        Some(Bracket::Close(BracketType::Parenthesis))
    } else {
        None
    }
}

impl Operator {
    /// The operator written as `value`.
    pub fn try_from(value: char) -> (r: Result<Operator, OperatorError>)
        ensures
            r == (match operator_of(value) {
                Some(op) => Ok(op),
                None => Err(OperatorError::Unknown(value)),
            }),
    {
        match value {
            '-' => Ok(Operator::Sub),
            '*' => Ok(Operator::Mul),
            '+' => Ok(Operator::Add),
            '/' => Ok(Operator::Div),
            '%' => Ok(Operator::Mod),
            _ => Err(OperatorError::Unknown(value)),
        }
    }
}

impl TryParseFromPeek<char> for Operator {
    type Err = OperatorError;

    type ParseContext = ();

    open spec fn accepts(context: ()) -> bool {
        true
    }

    /// An operator consumes its one character; nothing else is consumed.
    open spec fn reads(input: Seq<char>, context: ()) -> (Result<Operator, OperatorError>, nat) {
        if input.len() == 0 {
            (Err(OperatorError::NoChar), 0)
        } else {
            match operator_of(input[0]) {
                Some(op) => (Ok(op), 1),
                None => (Err(OperatorError::Unknown(input[0])), 0),
            }
        }
    }

    fn try_parse_from_peek<P: Peek>(peek: &mut P, context: ()) -> (r: Result<
        Operator,
        OperatorError,
    >) {
        let c = match peek.peek() {
            Some(c) => c,
            None => {
                assert(peek.upcoming().skip(0) =~= peek.upcoming());
                return Err(OperatorError::NoChar);
            },
        };
        let op = Operator::try_from(c);
        if op.is_ok() {
            peek.advance();
        } else {
            assert(peek.upcoming().skip(0) =~= peek.upcoming());
        }
        op
    }
}

/// The bracket characters.
#[derive(Debug, Clone, Copy, PartialEq, Eq, Structural)]
pub enum Bracket {
    Open(BracketType),
    Close(BracketType),
}

impl Bracket {
    /// The bracket written as `value`; otherwise `value` itself as the error.
    pub fn try_from(value: char) -> (r: Result<Bracket, char>)
        ensures
            r == (match bracket_of(value) {
                Some(b) => Ok(b),
                None => Err(value),
            }),
    {
        match value {
            '(' => Ok(Bracket::Open(BracketType::Parenthesis)),
            ')' => Ok(Bracket::Close(BracketType::Parenthesis)),
            c => Err(c),
        }
    }

    /// An opening bracket of type `bracket`.
    pub fn new_open(bracket: BracketType) -> (r: Self)
        ensures
            r == Bracket::Open(bracket),
    {
        Bracket::Open(bracket)
    }

    /// A closing bracket of type `bracket`.
    pub fn new_close(bracket: BracketType) -> (r: Self)
        ensures
            r == Bracket::Close(bracket),
    {
        Bracket::Close(bracket)
    }
}

impl TryParseFromPeek<char> for Bracket {
    type Err = Option<char>;

    type ParseContext = ();

    open spec fn accepts(context: ()) -> bool {
        true
    }

    /// A bracket consumes its one character; an error names the character that
    /// is no bracket, or nothing when the input is empty.
    open spec fn reads(input: Seq<char>, context: ()) -> (Result<Bracket, Option<char>>, nat) {
        if input.len() == 0 {
            (Err(None), 0)
        } else {
            match bracket_of(input[0]) {
                Some(b) => (Ok(b), 1),
                None => (Err(Some(input[0])), 0),
            }
        }
    }

    fn try_parse_from_peek<P: Peek>(peek: &mut P, context: ()) -> (r: Result<
        Bracket,
        Option<char>,
    >) {
        let c = match peek.peek() {
            Some(c) => c,
            None => {
                assert(peek.upcoming().skip(0) =~= peek.upcoming());
                return Err(None);
            },
        };
        match Bracket::try_from(c) {
            Ok(b) => {
                peek.advance();
                Ok(b)
            },
            Err(c) => {
                assert(peek.upcoming().skip(0) =~= peek.upcoming());
                Err(Some(c))
            },
        }
    }
}

/// Where a token stands in the source: its line and column (both counted from
/// one) and its length in characters.
#[derive(Debug, Clone, Copy, PartialEq, Eq, Structural)]
pub struct FileLocation {
    pub line: usize,
    pub column: usize,
    length: usize,
}

impl FileLocation {
    /// The line of the location.
    pub closed spec fn at_line(&self) -> usize {
        self.line
    }

    /// The column of the location.
    pub closed spec fn at_column(&self) -> usize {
        self.column
    }

    /// The length of the located text.
    pub closed spec fn extent(&self) -> usize {
        self.length
    }

    /// A location with the given line, column and length.
    pub fn new(line: usize, column: usize, length: usize) -> (r: Self)
        ensures
            r.at_line() == line,
            r.at_column() == column,
            r.extent() == length,
    {
        FileLocation { line, column, length }
    }

    /// The length of the located text.
    pub fn length(&self) -> (r: usize)
        ensures
            r == self.extent(),
    {
        self.length
    }
}

/// What a token is.
#[derive(Debug, Clone, Copy, PartialEq, Eq, Structural)]
pub enum TokenData {
    Bracket(Bracket),
    Number(isize),
    Operator(Operator),
}

/// Why no token could be read.
#[derive(Debug, Clone, Copy, PartialEq, Eq, Structural)]
pub enum ParseTokenErr {
    /// Nothing was left to read.
    Empty,
    /// The character starts no token.
    UnexpectedCharacter(char),
}

/// Reading a token: a number in decimal (a `-` that starts no number is the
/// subtraction operator); failing a number, an operator; failing that, a
/// bracket. A failed number read may have consumed digits (when it overflowed)
/// before the operator and bracket are tried on what follows.
pub open spec fn read_token(input: Seq<char>) -> (Result<TokenData, ParseTokenErr>, nat) {
    if input.len() == 0 {
        (Err(ParseTokenErr::Empty), 0)
    } else {
        let (n, c) = <isize as TryParseFromPeek<char>>::reads(input, 10);
        if input[0] == '-' {
            match n {
                Ok(v) => (Ok(TokenData::Number(v)), c),
                Err(_) => (Ok(TokenData::Operator(Operator::Sub)), c),
            }
        } else {
            match n {
                Ok(v) => (Ok(TokenData::Number(v)), c),
                Err(_) => {
                    let rest = input.skip(c as int);
                    let (o, c2) = <Operator as TryParseFromPeek<char>>::reads(rest, ());
                    match o {
                        Ok(op) => (Ok(TokenData::Operator(op)), c + c2),
                        Err(OperatorError::NoChar) => (Err(ParseTokenErr::Empty), c + c2),
                        Err(OperatorError::Unknown(_)) => {
                            let (b, c3) = <Bracket as TryParseFromPeek<char>>::reads(
                                rest.skip(c2 as int),
                                (),
                            );
                            match b {
                                Ok(br) => (Ok(TokenData::Bracket(br)), c + c2 + c3),
                                Err(Some(ch)) => (
                                    Err(ParseTokenErr::UnexpectedCharacter(ch)),
                                    c + c2 + c3,
                                ),
                                Err(None) => (Err(ParseTokenErr::Empty), c + c2 + c3),
                            }
                        },
                    }
                },
            }
        }
    }
}

impl TryParseFromPeek<char> for TokenData {
    type Err = ParseTokenErr;

    type ParseContext = ();

    open spec fn accepts(context: ()) -> bool {
        true
    }

    open spec fn reads(input: Seq<char>, context: ()) -> (Result<TokenData, ParseTokenErr>, nat) {
        read_token(input)
    }

    fn try_parse_from_peek<P: Peek>(line: &mut P, context: ()) -> (r: Result<
        TokenData,
        ParseTokenErr,
    >) {
        let ghost s0 = line.upcoming();
        let first_char = match line.peek() {
            Some(c) => c,
            None => {
                assert(s0.skip(0) =~= s0);
                return Err(ParseTokenErr::Empty);
            },
        };
        let n = <isize as TryParseFromPeek<char>>::try_parse_from_peek(line, 10);
        if first_char == '-' {
            match n {
                Ok(v) => Ok(TokenData::Number(v)),
                Err(_) => Ok(TokenData::Operator(Operator::Sub)),
            }
        } else {
            match n {
                Ok(v) => Ok(TokenData::Number(v)),
                Err(_) => {
                    let ghost s1 = line.upcoming();
                    let o = <Operator as TryParseFromPeek<char>>::try_parse_from_peek(line, ());
                    let ghost s2 = line.upcoming();
                    proof {
                        let (_, c) = <isize as TryParseFromPeek<char>>::reads(s0, 10);
                        let (_, c2) = <Operator as TryParseFromPeek<char>>::reads(s1, ());
                        assert(s2 =~= s0.skip((c + c2) as int));
                    }
                    match o {
                        Ok(op) => Ok(TokenData::Operator(op)),
                        Err(OperatorError::NoChar) => Err(ParseTokenErr::Empty),
                        Err(OperatorError::Unknown(_)) => {
                            let b = <Bracket as TryParseFromPeek<char>>::try_parse_from_peek(
                                line,
                                (),
                            );
                            proof {
                                let (_, c) = <isize as TryParseFromPeek<char>>::reads(s0, 10);
                                let (_, c2) = <Operator as TryParseFromPeek<char>>::reads(s1, ());
                                let (_, c3) = <Bracket as TryParseFromPeek<char>>::reads(s2, ());
                                assert(line.upcoming() =~= s0.skip((c + c2 + c3) as int));
                            }
                            match b {
                                Ok(br) => Ok(TokenData::Bracket(br)),
                                Err(Some(ch)) => Err(ParseTokenErr::UnexpectedCharacter(ch)),
                                Err(None) => Err(ParseTokenErr::Empty),
                            }
                        },
                    }
                },
            }
        }
    }
}

/// A token and where it stands.
#[derive(Debug, Clone, Copy, PartialEq, Eq, Structural)]
pub struct Token {
    pub locaiton: FileLocation,
    pub token_data: TokenData,
}

impl Token {
    /// The token `data` at `location`.
    pub fn new(location: FileLocation, data: TokenData) -> (r: Self)
        ensures
            r.locaiton == location,
            r.token_data == data,
    {
        Token { locaiton: location, token_data: data }
    }
}

/// The symbol of an operator.
pub open spec fn operator_symbol(o: Operator) -> Seq<char> {
    match o {
        Operator::Add => "+"@,
        Operator::Sub => "-"@,
        Operator::Mul => "*"@,
        Operator::Div => "/"@,
        Operator::Mod => "%"@,
    }
}

/// The debugging text of an operator: `[Operator: ` and its symbol, then `]`.
pub open spec fn operator_text(o: Operator) -> Seq<char> {
    "[Operator: "@ + operator_symbol(o) + "]"@
}

/// The debugging text of a bracket: `[Bracket: `, `Open` or `Close`, the
/// bracket's type, then `]`.
pub open spec fn bracket_text(b: Bracket) -> Seq<char> {
    match b {
        Bracket::Open(t) => "[Bracket: Open"@ + bracket_type_name(t) + "]"@,
        Bracket::Close(t) => "[Bracket: Close"@ + bracket_type_name(t) + "]"@,
    }
}

/// The name of a bracket type as its `Debug` text writes it.
pub open spec fn bracket_type_name(t: BracketType) -> Seq<char> {
    match t {
        BracketType::Parenthesis => "Parenthesis"@,
    }
}

/// The debugging text of a token's data: a bracket's or an operator's text,
/// or `[Number: ` and the number in decimal, then `]`.
pub open spec fn token_data_text(d: TokenData) -> Seq<char> {
    match d {
        TokenData::Bracket(b) => bracket_text(b),
        TokenData::Number(n) => "[Number: "@ + signed_decimal(n as int) + "]"@,
        TokenData::Operator(o) => operator_text(o),
    }
}

impl Operator {
    /// The operator's symbol.
    pub fn symbol(&self) -> (r: &'static str)
        ensures
            r@ == operator_symbol(*self),
    {
        match self {
            Operator::Add => "+",
            Operator::Sub => "-",
            Operator::Mul => "*",
            Operator::Div => "/",
            Operator::Mod => "%",
        }
    }

    /// The debugging text of the operator (see `operator_text`).
    pub fn debug_text(&self) -> (r: String)
        ensures
            r@ == operator_text(*self),
    {
        let mut r = String::from_str("[Operator: ");
        r.append(self.symbol());
        r.append("]");
        r
    }
}

impl BracketType {
    /// The type's name.
    pub fn name(&self) -> (r: &'static str)
        ensures
            r@ == bracket_type_name(*self),
    {
        match self {
            BracketType::Parenthesis => "Parenthesis",
        }
    }
}

impl Bracket {
    /// The debugging text of the bracket (see `bracket_text`).
    pub fn debug_text(&self) -> (r: String)
        ensures
            r@ == bracket_text(*self),
    {
        let (mut r, t) = match self {
            Bracket::Open(t) => (String::from_str("[Bracket: Open"), t),
            Bracket::Close(t) => (String::from_str("[Bracket: Close"), t),
        };
        r.append(t.name());
        r.append("]");
        r
    }
}

impl TokenData {
    /// The debugging text of the token's data (see `token_data_text`).
    pub fn debug_text(&self) -> (r: String)
        ensures
            r@ == token_data_text(*self),
    {
        match self {
            TokenData::Bracket(b) => b.debug_text(),
            TokenData::Number(n) => {
                let mut r = String::from_str("[Number: ");
                let digits = signed_decimal_text(*n);
                r.append(digits.as_str());
                r.append("]");
                r
            },
            TokenData::Operator(o) => o.debug_text(),
        }
    }
}

} // verus!
