use toast::repl::codegen::interpreter::{CallError, Interpreter};
use toast::repl::codegen::Backend;
use toast::repl::expression::{BuiltIn, Call, CodeBlock, Definition, Expression, TopLevelExpression};
use toast::repl::tokens::{Literal, NumericLiteral};

fn number(v: isize) -> Expression {
    Expression::TopLevelExpression(TopLevelExpression::Literal(Literal::Number(NumericLiteral::Integer(v))))
}

fn text(s: &str) -> Expression {
    Expression::TopLevelExpression(TopLevelExpression::Literal(Literal::String(String::from(s))))
}

fn define(name: &str, value: Expression) -> Expression {
    Expression::TopLevelExpression(TopLevelExpression::Definition(Definition {
        name: String::from(name),
        value: Box::new(value),
    }))
}

fn call(value: Expression) -> Expression {
    Expression::TopLevelExpression(TopLevelExpression::Call(Call { value: Box::new(value) }))
}

fn name(n: &str) -> Expression {
    Expression::Identifier(String::from(n))
}

fn shown(es: &[Expression]) -> Vec<String> {
    es.iter().map(|e| format!("{:?}", e)).collect()
}

#[test]
fn a_new_interpreter_is_empty() {
    let mut i = Interpreter::new();
    assert!(i.stack().is_empty());
    assert!(i.take_printed().is_empty());
}

#[test]
fn literals_are_pushed() {
    let mut i = Interpreter::new();
    i.process(number(1));
    i.process(text("a"));
    assert_eq!(shown(i.stack()), shown(&[number(1), text("a")]));
}

#[test]
fn a_defined_name_pushes_its_value() {
    let mut i = Interpreter::new();
    i.process(define("x", number(7)));
    assert!(i.stack().is_empty());
    i.process(name("x"));
    i.process(name("x"));
    assert_eq!(shown(i.stack()), shown(&[number(7), number(7)]));
}

#[test]
fn a_later_definition_replaces_an_earlier_one() {
    let mut i = Interpreter::new();
    i.process(define("x", number(1)));
    i.process(define("x", number(2)));
    i.process(name("x"));
    assert_eq!(shown(i.stack()), shown(&[number(2)]));
}

#[test]
fn print_pops_the_top_and_prints_it() {
    let mut i = Interpreter::new();
    i.process(number(1));
    i.process(number(2));
    i.process(call(Expression::BuiltIn(BuiltIn::Print)));
    assert_eq!(shown(i.stack()), shown(&[number(1)]));
    assert_eq!(shown(&i.take_printed()), shown(&[number(2)]));
    assert!(i.take_printed().is_empty());
}

#[test]
fn print_prints_a_name_as_it_stands() {
    let mut i = Interpreter::new();
    i.process(define("x", number(1)));
    let r = i.try_call(Expression::CodeBlock(CodeBlock { expressions: vec![define("y", name("x")), name("y")] }));
    assert!(r.is_ok());
    assert_eq!(shown(i.stack()), shown(&[name("x")]));
    assert_eq!(i.try_call(Expression::BuiltIn(BuiltIn::Print)), Ok(()));
    assert_eq!(shown(&i.take_printed()), shown(&[name("x")]));
}

#[test]
fn calling_a_block_processes_its_expressions_in_order() {
    let mut i = Interpreter::new();
    let block = Expression::CodeBlock(CodeBlock { expressions: vec![number(1), number(2), number(3)] });
    assert_eq!(i.try_call(block), Ok(()));
    assert_eq!(shown(i.stack()), shown(&[number(1), number(2), number(3)]));
}

#[test]
fn calling_a_name_calls_its_value() {
    let mut i = Interpreter::new();
    i.process(define("show", Expression::BuiltIn(BuiltIn::Print)));
    i.process(number(5));
    assert_eq!(i.try_call(name("show")), Ok(()));
    assert!(i.stack().is_empty());
    assert_eq!(shown(&i.take_printed()), shown(&[number(5)]));
}

#[test]
fn calling_an_undefined_name_fails() {
    let mut i = Interpreter::new();
    i.process(number(5));
    assert_eq!(i.try_call(name("nothing")), Err(CallError::UndefinedCallable));
    assert_eq!(shown(i.stack()), shown(&[number(5)]));
}

#[test]
fn a_literal_cannot_be_called() {
    let mut i = Interpreter::new();
    assert_eq!(i.try_call(number(5)), Err(CallError::Uncallable));
    assert_eq!(i.try_call(text("s")), Err(CallError::Uncallable));
    assert!(i.stack().is_empty());
}

#[test]
fn a_name_standing_for_a_literal_cannot_be_called() {
    let mut i = Interpreter::new();
    i.process(define("x", number(1)));
    assert_eq!(i.try_call(name("x")), Err(CallError::Uncallable));
}
