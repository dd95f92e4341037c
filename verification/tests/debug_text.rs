use toast::compiler::symbols as sy;
use toast::compiler::token::{Bracket as TokenBracket, BracketType, Operator as TokenOperator, TokenData};
use toast::compiler::tokens as ct;
use toast::repl::tokens as rt;
use toast::text::{decimal_text, signed_decimal_text};

#[test]
fn numbers_in_decimal() {
    assert_eq!(decimal_text(0), "0");
    assert_eq!(decimal_text(7), "7");
    assert_eq!(decimal_text(10), "10");
    assert_eq!(decimal_text(1234567890), "1234567890");
    assert_eq!(decimal_text(usize::MAX), usize::MAX.to_string());
    assert_eq!(signed_decimal_text(-45), "-45");
    assert_eq!(signed_decimal_text(45), "45");
    assert_eq!(signed_decimal_text(isize::MIN), isize::MIN.to_string());
}

#[test]
fn repl_number_text() {
    assert_eq!(rt::NumericLiteral::Integer(5).debug_text(), "<[Integer]5>");
    assert_eq!(rt::NumericLiteral::Integer(-12).debug_text(), "<[Integer]-12>");
    let d = rt::NumericLiteral::Decimal {
        sign: rt::Sign::Negative,
        integer_part: 1,
        fraction_numerator: 5,
        fraction_denominator: 10,
    };
    assert_eq!(d.debug_text(), "<[Float]-1 5/10>");
    let e = rt::NumericLiteral::Decimal {
        sign: rt::Sign::Positive,
        integer_part: 0,
        fraction_numerator: 1,
        fraction_denominator: 2,
    };
    assert_eq!(e.debug_text(), "<[Float]0 1/2>");
}

#[test]
fn repl_string_text_counts_bytes() {
    assert_eq!(rt::Literal::String(String::from("abc")).debug_text(), "<[STR, 3]\"abc\">");
    assert_eq!(rt::Literal::String(String::from("h\u{e9}")).debug_text(), "<[STR, 3]\"h\u{e9}\">");
    assert_eq!(rt::Literal::String(String::from("a\"b")).debug_text(), "<[STR, 3]\"a\\\"b\">");
    assert_eq!(rt::Literal::String(String::new()).debug_text(), "<[STR, 0]\"\">");
}

#[test]
fn repl_token_text() {
    let b = rt::Token::Bracket { bracket: rt::Bracket::Curly, state: rt::BracketState::Open };
    assert_eq!(b.debug_text(), "<OpenCurly>");
    let c = rt::Token::Bracket { bracket: rt::Bracket::Parenthesis, state: rt::BracketState::Close };
    assert_eq!(c.debug_text(), "<CloseParenthesis>");
    assert_eq!(rt::Token::Identifier(String::from("x")).debug_text(), "<[ID]\"x\">");
    assert_eq!(rt::Token::Keyword(rt::Keyword::Def).debug_text(), "<[KW]Def>");
    let n = rt::Token::Literal(rt::Literal::Number(rt::NumericLiteral::Integer(3)));
    assert_eq!(n.debug_text(), "<[Integer]3>");
}

#[test]
fn compiler_tokens_text() {
    assert_eq!(ct::Operator::Mod.debug_text(), "<[OP]%>");
    let n = ct::NumericLiteral { sign: ct::Sign::Negative, integer_part: 3, fractional_part: Some((1, 4)) };
    assert_eq!(n.debug_text(), "-3 1/4");
    assert_eq!(ct::NumericLiteral::integer(0).debug_text(), "0");
    assert_eq!(ct::NumericLiteral::integer(42).debug_text(), "42");
    assert_eq!(ct::Token::Operator(ct::Operator::Add).debug_text(), "<[OP]+>");
    assert_eq!(ct::Token::Literal(ct::Literal::Number(n)).debug_text(), "-3 1/4");
    assert_eq!(ct::Token::Literal(ct::Literal::String(String::from("q"))).debug_text(), "<[STR, 1]\"q\">");
    let b = ct::Token::Bracket { bracket: ct::Bracket::Angle, state: ct::BracketState::Close };
    assert_eq!(b.debug_text(), "<CloseAngle>");
    assert_eq!(ct::Token::Keyword(ct::Keyword::Print).debug_text(), "<[KW]Print>");
    assert_eq!(ct::Token::Identifier(String::from("abc")).debug_text(), "<[ID]\"abc\">");
}

#[test]
fn located_token_text() {
    assert_eq!(TokenOperator::Add.debug_text(), "[Operator: +]");
    assert_eq!(TokenOperator::Mod.debug_text(), "[Operator: %]");
    assert_eq!(TokenBracket::Open(BracketType::Parenthesis).debug_text(), "[Bracket: OpenParenthesis]");
    assert_eq!(TokenBracket::Close(BracketType::Parenthesis).debug_text(), "[Bracket: CloseParenthesis]");
    assert_eq!(TokenData::Number(-7).debug_text(), "[Number: -7]");
    assert_eq!(TokenData::Operator(TokenOperator::Sub).debug_text(), "[Operator: -]");
    assert_eq!(
        TokenData::Bracket(TokenBracket::Open(BracketType::Parenthesis)).debug_text(),
        "[Bracket: OpenParenthesis]"
    );
}

#[test]
fn symbol_token_text() {
    assert_eq!(sy::Operator::Div.debug_text(), "[Op: /]");
    assert_eq!(sy::Token::Operator(sy::Operator::Mul).debug_text(), "[Op: *]");
    let b = sy::Token::Bracket { bracket: sy::Bracket::Parenthesis, state: sy::BracketState::Open };
    assert_eq!(b.debug_text(), "<OpenParenthesis>");
    assert_eq!(sy::Token::Keyword(sy::Keyword::Call).debug_text(), "<[KW]Call>");
    assert_eq!(sy::Token::Identifier(String::from("z")).debug_text(), "<[ID]\"z\">");
    let n = ct::NumericLiteral::integer(-2);
    assert_eq!(sy::Token::Literal(sy::Literal::Number(n)).debug_text(), "-2");
}
