use toast::compiler::token::{Bracket, BracketType, Operator, ParseTokenErr, TokenData};
use toast::compiler::token_scanner::TokenScanner;

fn get_tokens<'a, T: IntoIterator<Item = &'a str>>(iter: T) -> Result<Vec<TokenData>, ParseTokenErr> {
    let lines: Vec<String> = iter.into_iter().map(String::from).collect();
    let mut scanner = TokenScanner::new(lines);
    let mut tokens = Vec::new();
    while let Some(t) = scanner.next() {
        tokens.push(t?.token_data);
    }
    Ok(tokens)
}

#[test]
fn just_nums() {
    assert_eq!(
        get_tokens("1 2 3 4\n 5 6 7 8".lines()),
        Ok([1, 2, 3, 4, 5, 6, 7, 8]
            .map(TokenData::Number)
            .into_iter()
            .collect::<Vec<_>>())
    )
}
#[test]
fn just_ops() {
    assert_eq!(
        get_tokens("+ + / -\n * - / %".lines()),
        Ok(vec![
            TokenData::Operator(Operator::Add),
            TokenData::Operator(Operator::Add),
            TokenData::Operator(Operator::Div),
            TokenData::Operator(Operator::Sub),
            TokenData::Operator(Operator::Mul),
            TokenData::Operator(Operator::Sub),
            TokenData::Operator(Operator::Div),
            TokenData::Operator(Operator::Mod),
        ])
    )
}

#[test]
fn nums_and_ops() {
    assert_eq!(
        get_tokens("1 1 + 2 2 + 3 / 4 -\n * -1 / 1 %".lines()),
        Ok(vec![
            TokenData::Number(1),
            TokenData::Number(1),
            TokenData::Operator(Operator::Add),
            TokenData::Number(2),
            TokenData::Number(2),
            TokenData::Operator(Operator::Add),
            TokenData::Number(3),
            TokenData::Operator(Operator::Div),
            TokenData::Number(4),
            TokenData::Operator(Operator::Sub),
            TokenData::Operator(Operator::Mul),
            TokenData::Number(-1),
            TokenData::Operator(Operator::Div),
            TokenData::Number(1),
            TokenData::Operator(Operator::Mod),
        ])
    )
}

#[test]
fn space_around_newline() {
    assert_eq!(
        get_tokens("1 \n 2".lines()),
        Ok(vec![TokenData::Number(1), TokenData::Number(2)]),
    )
}

#[test]
fn negative_one_and_minus() {
    assert_eq!(
        get_tokens("-1 - ".lines()),
        Ok(vec![TokenData::Number(-1), TokenData::Operator(Operator::Sub)])
    )
}

#[test]
fn negative_one_and_minus_with_parens() {
    assert_eq!(
        get_tokens("( -1 - ) ".lines()),
        Ok(vec![
            TokenData::Bracket(Bracket::Open(BracketType::Parenthesis)),
            TokenData::Number(-1),
            TokenData::Operator(Operator::Sub),
            TokenData::Bracket(Bracket::Close(BracketType::Parenthesis))
        ]),
    )
}

#[test]
fn just_parens() {
    assert_eq!(
        get_tokens("())())()(()()())".lines()),
        Ok(vec![
            TokenData::Bracket(Bracket::Open(BracketType::Parenthesis)),
            TokenData::Bracket(Bracket::Close(BracketType::Parenthesis)),
            TokenData::Bracket(Bracket::Close(BracketType::Parenthesis)),
            TokenData::Bracket(Bracket::Open(BracketType::Parenthesis)),
            TokenData::Bracket(Bracket::Close(BracketType::Parenthesis)),
            TokenData::Bracket(Bracket::Close(BracketType::Parenthesis)),
            TokenData::Bracket(Bracket::Open(BracketType::Parenthesis)),
            TokenData::Bracket(Bracket::Close(BracketType::Parenthesis)),
            TokenData::Bracket(Bracket::Open(BracketType::Parenthesis)),
            TokenData::Bracket(Bracket::Open(BracketType::Parenthesis)),
            TokenData::Bracket(Bracket::Close(BracketType::Parenthesis)),
            TokenData::Bracket(Bracket::Open(BracketType::Parenthesis)),
            TokenData::Bracket(Bracket::Close(BracketType::Parenthesis)),
            TokenData::Bracket(Bracket::Open(BracketType::Parenthesis)),
            TokenData::Bracket(Bracket::Close(BracketType::Parenthesis)),
            TokenData::Bracket(Bracket::Close(BracketType::Parenthesis)),
        ]),
    )
}
#[test]
fn empty() {
    assert_eq!(get_tokens("  ".lines()), Err(ParseTokenErr::Empty),)
}
#[test]
fn invalid() {
    assert_eq!(
        get_tokens("not_a_keyword".lines()),
        Err(ParseTokenErr::UnexpectedCharacter('n')),
    )
}
