use toast::repl::tokenizer::{LexError, Tokens};
use toast::repl::tokens::{Bracket, BracketState, Literal, NumericLiteral, Sign, Token};

fn all_tokens(source: &str) -> Vec<Token> {
    let mut tokens = Tokens::new(source);
    let mut out = Vec::new();
    while let Some(t) = tokens.next() {
        out.push(t);
    }
    out
}

fn integer(v: isize) -> Token {
    Token::Literal(Literal::Number(NumericLiteral::Integer(v)))
}

fn decimal(sign: Sign, integer_part: usize, numerator: usize, denominator: usize) -> Token {
    Token::Literal(Literal::Number(NumericLiteral::Decimal {
        sign,
        integer_part,
        fraction_numerator: numerator,
        fraction_denominator: denominator,
    }))
}

fn bracket(bracket: Bracket, state: BracketState) -> Token {
    Token::Bracket { bracket, state }
}

#[test]
fn brackets_of_every_kind() {
    assert_eq!(
        all_tokens("{ } [ ] < > ( )"),
        vec![
            bracket(Bracket::Curly, BracketState::Open),
            bracket(Bracket::Curly, BracketState::Close),
            bracket(Bracket::Square, BracketState::Open),
            bracket(Bracket::Square, BracketState::Close),
            bracket(Bracket::Angle, BracketState::Open),
            bracket(Bracket::Angle, BracketState::Close),
            bracket(Bracket::Parenthesis, BracketState::Open),
            bracket(Bracket::Parenthesis, BracketState::Close),
        ]
    );
}

#[test]
fn brackets_need_no_spaces() {
    assert_eq!(
        all_tokens("({x})"),
        vec![
            bracket(Bracket::Parenthesis, BracketState::Open),
            bracket(Bracket::Curly, BracketState::Open),
            Token::Identifier(String::from("x")),
            bracket(Bracket::Curly, BracketState::Close),
            bracket(Bracket::Parenthesis, BracketState::Close),
        ]
    );
}

#[test]
fn bracket_characters_read_back() {
    for b in [Bracket::Angle, Bracket::Curly, Bracket::Square, Bracket::Parenthesis] {
        let text: String = [b.open(), ' ', b.close()].iter().collect();
        assert_eq!(
            all_tokens(&text),
            vec![bracket(b, BracketState::Open), bracket(b, BracketState::Close)]
        );
    }
}

#[test]
fn radix_prefixes() {
    assert_eq!(all_tokens("0x1F"), vec![integer(31)]);
    assert_eq!(all_tokens("0b101"), vec![integer(5)]);
    assert_eq!(all_tokens("0o17"), vec![integer(15)]);
    assert_eq!(all_tokens("012"), vec![integer(12)]);
}

#[test]
fn a_lone_zero() {
    assert_eq!(all_tokens("0"), vec![integer(0)]);
    assert_eq!(all_tokens("0 0"), vec![integer(0), integer(0)]);
}

#[test]
fn decimal_numbers_count_their_first_digit_twice() {
    assert_eq!(all_tokens("5"), vec![integer(55)]);
    assert_eq!(all_tokens("12"), vec![integer(112)]);
}

#[test]
fn fractions() {
    assert_eq!(all_tokens("1.5"), vec![decimal(Sign::Positive, 11, 5, 10)]);
    assert_eq!(all_tokens("0x1.8"), vec![decimal(Sign::Positive, 1, 8, 16)]);
    assert_eq!(all_tokens("0b.1"), vec![decimal(Sign::Positive, 0, 1, 2)]);
}

#[test]
fn negative_numbers() {
    assert_eq!(all_tokens("-0x10"), vec![integer(-16)]);
    assert_eq!(all_tokens("-5"), vec![integer(-55)]);
    assert_eq!(all_tokens("-1.5"), vec![decimal(Sign::Negative, 11, 5, 10)]);
}

#[test]
fn identifiers_run_over_letters_and_digits() {
    assert_eq!(
        all_tokens("abc1 d"),
        vec![Token::Identifier(String::from("abc1")), Token::Identifier(String::from("d"))]
    );
}

#[test]
fn strings() {
    assert_eq!(
        all_tokens("\"hi there\" x"),
        vec![
            Token::Literal(Literal::String(String::from("hi there"))),
            Token::Identifier(String::from("x")),
        ]
    );
}

#[test]
fn backslashes_are_dropped_from_strings() {
    assert_eq!(
        all_tokens("\"a\\bc\""),
        vec![Token::Literal(Literal::String(String::from("abc")))]
    );
}

#[test]
fn an_unclosed_string_runs_to_the_end() {
    assert_eq!(
        all_tokens("\"open"),
        vec![Token::Literal(Literal::String(String::from("open")))]
    );
}

#[test]
fn whitespace_alone_gives_nothing() {
    assert_eq!(all_tokens("  \n\t "), vec![]);
    assert_eq!(all_tokens(""), vec![]);
}

#[test]
fn the_end_stays_the_end() {
    let mut tokens = Tokens::new("x");
    assert_eq!(tokens.next(), Some(Token::Identifier(String::from("x"))));
    assert_eq!(tokens.next(), None);
    assert_eq!(tokens.next(), None);
}

#[test]
fn consume_current_char_skips_one_character() {
    let mut tokens = Tokens::new("ab c");
    tokens.consume_current_char();
    assert_eq!(tokens.next(), Some(Token::Identifier(String::from("b"))));
    assert_eq!(tokens.next(), Some(Token::Identifier(String::from("c"))));
}

fn first_result(source: &str) -> Result<Option<Token>, LexError> {
    Tokens::new(source).try_next()
}

#[test]
fn try_next_reads_tokens_and_the_end() {
    let mut tokens = Tokens::new(" (x");
    assert_eq!(tokens.try_next(), Ok(Some(bracket(Bracket::Parenthesis, BracketState::Open))));
    assert_eq!(tokens.try_next(), Ok(Some(Token::Identifier(String::from("x")))));
    assert_eq!(tokens.try_next(), Ok(None));
}

#[test]
fn try_next_reports_an_unexpected_character() {
    assert_eq!(first_result("?"), Err(LexError::UnexpectedCharacter('?')));
    assert_eq!(first_result("  ."), Err(LexError::UnexpectedCharacter('.')));
}

#[test]
fn try_next_reports_a_minus_without_a_number() {
    assert_eq!(first_result("-"), Err(LexError::UnexpectedNegative));
    assert_eq!(first_result("- 1"), Err(LexError::UnexpectedNegative));
    assert_eq!(first_result("-x"), Err(LexError::UnexpectedNegative));
}

#[test]
fn try_next_reports_overflow() {
    assert_eq!(first_result("0xFFFFFFFFFFFFFFFFF"), Err(LexError::Overflow));
    assert_eq!(first_result("99999999999999999999999"), Err(LexError::Overflow));
    let ones: String = std::iter::repeat('1').take(64).collect();
    assert_eq!(first_result(&format!("0b.{}", ones)), Err(LexError::Overflow));
    assert_eq!(first_result("-0x8000000000000000"), Err(LexError::Overflow));
}

#[test]
fn a_large_hexadecimal_number_wraps_into_an_integer() {
    assert_eq!(first_result("0x8000000000000000"), Ok(Some(integer(isize::MIN))));
}

#[test]
fn a_bracket_after_whitespace_leaves_the_rest_as_if_alone() {
    let rest = "name 0x1F \"s\" -3";
    let mut tokens = Tokens::new(&format!(" \t\n[{}", rest));
    assert_eq!(tokens.next(), Some(bracket(Bracket::Square, BracketState::Open)));
    let mut remaining = Vec::new();
    while let Some(t) = tokens.next() {
        remaining.push(t);
    }
    assert_eq!(remaining, all_tokens(rest));
}
