use toast::compiler::token::{
    Bracket as TokenBracket, BracketType, FileLocation, Operator as TokenOperator, OperatorError,
    ParseTokenErr, Token as LocatedToken, TokenData,
};
use toast::compiler::try_parse_from_iter::TryParseFromPeek;
use toast::stream::CharStream;
use toast::compiler::symbols as sy;
use toast::compiler::tokens as ct;
use toast::repl::tokens as rt;

fn read_token(source: &str) -> (Result<TokenData, ParseTokenErr>, String) {
    let mut stream = CharStream::new(source);
    let r = <TokenData as TryParseFromPeek<char>>::try_parse_from_peek(&mut stream, ());
    (r, stream.remaining())
}

#[test]
fn repl_keywords_in_any_case() {
    assert_eq!(rt::Keyword::from_str("def"), Ok(rt::Keyword::Def));
    assert_eq!(rt::Keyword::from_str("CALL"), Ok(rt::Keyword::Call));
    assert_eq!(rt::Keyword::from_str("Print"), Ok(rt::Keyword::Print));
    assert_eq!(rt::Keyword::from_str("define"), Err(rt::UnknownKeyword(String::from("define"))));
    assert_eq!(rt::Keyword::from_str(""), Err(rt::UnknownKeyword(String::new())));
}

#[test]
fn compiler_keywords_in_any_case() {
    assert_eq!(ct::Keyword::from_str("DeF"), Ok(ct::Keyword::Def));
    assert_eq!(ct::Keyword::from_str("call"), Ok(ct::Keyword::Call));
    assert_eq!(ct::Keyword::from_str("PRINT"), Ok(ct::Keyword::Print));
    assert_eq!(ct::Keyword::from_str("prints"), Err(ct::UnknownKeyword(String::from("prints"))));
}

#[test]
fn symbol_keywords_in_any_case() {
    assert_eq!(sy::Keyword::from_str("Def"), Ok(sy::Keyword::Def));
    assert_eq!(sy::Keyword::from_str("x"), Err(sy::UnknownKeyword(String::from("x"))));
}

#[test]
fn compiler_operators_read_percent_as_division() {
    assert_eq!(ct::Operator::try_from('+'), Ok(ct::Operator::Add));
    assert_eq!(ct::Operator::try_from('-'), Ok(ct::Operator::Sub));
    assert_eq!(ct::Operator::try_from('*'), Ok(ct::Operator::Mul));
    assert_eq!(ct::Operator::try_from('/'), Ok(ct::Operator::Div));
    assert_eq!(ct::Operator::try_from('%'), Ok(ct::Operator::Div));
    assert!(ct::Operator::try_from('a').is_err());
}

#[test]
fn symbol_operators_read_percent_as_division() {
    assert_eq!(sy::Operator::try_from('%'), Ok(sy::Operator::Div));
    assert_eq!(sy::Operator::try_from('*'), Ok(sy::Operator::Mul));
    assert!(sy::Operator::try_from('(').is_err());
}

#[test]
fn token_operators_read_percent_as_modulo() {
    assert_eq!(TokenOperator::try_from('%'), Ok(TokenOperator::Mod));
    assert_eq!(TokenOperator::try_from('+'), Ok(TokenOperator::Add));
    assert_eq!(TokenOperator::try_from('x'), Err(OperatorError::Unknown('x')));
}

#[test]
fn bracket_characters() {
    assert_eq!((rt::Bracket::Angle.open(), rt::Bracket::Angle.close()), ('<', '>'));
    assert_eq!((rt::Bracket::Curly.open(), rt::Bracket::Curly.close()), ('{', '}'));
    assert_eq!((rt::Bracket::Square.open(), rt::Bracket::Square.close()), ('[', ']'));
    assert_eq!((rt::Bracket::Parenthesis.open(), rt::Bracket::Parenthesis.close()), ('(', ')'));
    assert_eq!(ct::Bracket::Square.open(), '[');
    assert_eq!(ct::Bracket::Curly.close(), '}');
    let p = sy::Bracket::Parenthesis;
    assert_eq!((p.open(), p.close()), ('(', ')'));
}

#[test]
fn token_brackets() {
    assert_eq!(TokenBracket::try_from('('), Ok(TokenBracket::Open(BracketType::Parenthesis)));
    assert_eq!(TokenBracket::try_from(')'), Ok(TokenBracket::Close(BracketType::Parenthesis)));
    assert_eq!(TokenBracket::try_from('['), Err('['));
    assert_eq!(TokenBracket::new_open(BracketType::Parenthesis), TokenBracket::Open(BracketType::Parenthesis));
    assert_eq!(TokenBracket::new_close(BracketType::Parenthesis), TokenBracket::Close(BracketType::Parenthesis));
}

#[test]
fn flipping_a_sign_twice_gives_it_back() {
    let mut s = rt::Sign::Positive;
    s.flip();
    assert_eq!(s, rt::Sign::Negative);
    s.flip();
    assert_eq!(s, rt::Sign::Positive);
    let mut t = ct::Sign::Negative;
    t.flip();
    assert_eq!(t, ct::Sign::Positive);
}

#[test]
fn repl_negation() {
    let mut n = rt::NumericLiteral::Integer(7);
    n.negate();
    assert_eq!(n, rt::NumericLiteral::Integer(-7));
    n.negate();
    assert_eq!(n, rt::NumericLiteral::Integer(7));
    let mut m = rt::NumericLiteral::Integer(isize::MAX);
    m.negate();
    assert_eq!(m, rt::NumericLiteral::Integer(-isize::MAX));
    let mut d = rt::NumericLiteral::Decimal {
        sign: rt::Sign::Positive,
        integer_part: 1,
        fraction_numerator: 5,
        fraction_denominator: 10,
    };
    d.negate();
    assert_eq!(
        d,
        rt::NumericLiteral::Decimal { sign: rt::Sign::Negative, integer_part: 1, fraction_numerator: 5, fraction_denominator: 10 }
    );
}

#[test]
fn compiler_integers_and_negation() {
    let n = ct::NumericLiteral::integer(-12);
    assert_eq!(n, ct::NumericLiteral { sign: ct::Sign::Negative, integer_part: 12, fractional_part: None });
    let z = ct::NumericLiteral::integer(0);
    assert_eq!(z, ct::NumericLiteral { sign: ct::Sign::Positive, integer_part: 0, fractional_part: None });
    let big = ct::NumericLiteral::integer(isize::MAX);
    assert_eq!(big.integer_part, isize::MAX as usize);
    let mut m = n;
    m.negate();
    assert_eq!(m, ct::NumericLiteral { sign: ct::Sign::Positive, integer_part: 12, fractional_part: None });
    let mut f = ct::NumericLiteral { sign: ct::Sign::Positive, integer_part: 3, fractional_part: Some((1, 4)) };
    f.negate();
    assert_eq!(f, ct::NumericLiteral { sign: ct::Sign::Negative, integer_part: 3, fractional_part: Some((1, 4)) });
}

#[test]
fn file_locations() {
    let l = FileLocation::new(3, 7, 2);
    assert_eq!((l.line, l.column, l.length()), (3, 7, 2));
    let t = LocatedToken::new(l, TokenData::Number(5));
    assert_eq!(t.locaiton, l);
    assert_eq!(t.token_data, TokenData::Number(5));
}

#[test]
fn reading_single_tokens() {
    assert_eq!(read_token("12 x"), (Ok(TokenData::Number(12)), String::from(" x")));
    assert_eq!(read_token("-3"), (Ok(TokenData::Number(-3)), String::new()));
    assert_eq!(read_token("- 3"), (Ok(TokenData::Operator(TokenOperator::Sub)), String::from(" 3")));
    assert_eq!(read_token("%1"), (Ok(TokenData::Operator(TokenOperator::Mod)), String::from("1")));
    assert_eq!(
        read_token(")("),
        (Ok(TokenData::Bracket(TokenBracket::Close(BracketType::Parenthesis))), String::from("("))
    );
    assert_eq!(read_token("x"), (Err(ParseTokenErr::UnexpectedCharacter('x')), String::from("x")));
    assert_eq!(read_token(""), (Err(ParseTokenErr::Empty), String::new()));
}
