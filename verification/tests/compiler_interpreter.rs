use toast::compiler::codegen::interpreter::{CallError, Interpreter};
use toast::compiler::codegen::Backend;
use toast::compiler::expression::{
    BuiltIn, BuiltInFunction, Call, CodeBlock, Definition, Expression, TopLevelExpression,
};
use toast::compiler::tokens::{Literal, NumericLiteral};

fn number(v: isize) -> Expression {
    Expression::TopLevelExpression(TopLevelExpression::Literal(Literal::Number(NumericLiteral::integer(v))))
}

fn text(s: &str) -> Expression {
    Expression::TopLevelExpression(TopLevelExpression::Literal(Literal::String(String::from(s))))
}

fn define(name: &str, value: Expression) -> Expression {
    Expression::TopLevelExpression(TopLevelExpression::Definition(Definition {
        name: String::from(name),
        value: Box::new(value),
    }))
}

fn call(value: Expression) -> Expression {
    Expression::TopLevelExpression(TopLevelExpression::Call(Call { value: Box::new(value) }))
}

fn name(n: &str) -> Expression {
    Expression::Identifier(String::from(n))
}

fn print() -> Expression {
    Expression::BuiltIn(BuiltIn::Function(BuiltInFunction::Print))
}

fn shown(es: &[Expression]) -> Vec<String> {
    es.iter().map(|e| format!("{:?}", e)).collect()
}

#[test]
fn compiler_interpreter_starts_empty() {
    let mut i = Interpreter::new();
    assert!(i.stack().is_empty());
    assert!(i.take_printed().is_empty());
}

#[test]
fn compiler_literals_and_names_are_pushed() {
    let mut i = Interpreter::new();
    i.process(define("x", number(3)));
    i.process(number(1));
    i.process(name("x"));
    assert_eq!(shown(i.stack()), shown(&[number(1), number(3)]));
}

#[test]
fn resolve_follows_a_chain_of_names() {
    let mut i = Interpreter::new();
    i.process(define("a", name("b")));
    i.process(define("b", name("c")));
    i.process(define("c", text("end")));
    assert_eq!(shown(&[i.resolve(name("a")).unwrap()]), shown(&[text("end")]));
    assert_eq!(shown(&[i.resolve(number(4)).unwrap()]), shown(&[number(4)]));
}

#[test]
fn resolve_of_an_undefined_name_is_none() {
    let mut i = Interpreter::new();
    i.process(define("a", name("missing")));
    assert!(i.resolve(name("a")).is_none());
    assert!(i.resolve(name("missing")).is_none());
}

#[test]
fn pop_resolve_pops_and_resolves() {
    let mut i = Interpreter::new();
    assert!(i.pop_resolve().is_none());
    i.process(define("a", number(9)));
    i.process(define("b", name("a")));
    i.process(number(1));
    i.process(name("b"));
    assert_eq!(shown(i.stack()), shown(&[number(1), name("a")]));
    assert_eq!(shown(&[i.pop_resolve().unwrap()]), shown(&[number(9)]));
    assert_eq!(shown(i.stack()), shown(&[number(1)]));
}

#[test]
fn pop_resolve_of_an_undefined_name_still_pops() {
    let mut i = Interpreter::new();
    i.process(define("b", name("gone")));
    i.process(name("b"));
    assert!(i.pop_resolve().is_none());
    assert!(i.stack().is_empty());
}

#[test]
fn compiler_print_resolves_what_it_prints() {
    let mut i = Interpreter::new();
    i.process(define("a", number(2)));
    i.process(define("n", name("a")));
    i.process(name("n"));
    assert_eq!(shown(i.stack()), shown(&[name("a")]));
    i.process(call(print()));
    assert!(i.stack().is_empty());
    assert_eq!(shown(&i.take_printed()), shown(&[number(2)]));
}

#[test]
fn compiler_calling_a_name_resolves_it_first() {
    let mut i = Interpreter::new();
    i.process(define("p", print()));
    i.process(define("q", name("p")));
    i.process(text("hello"));
    assert_eq!(i.try_call(name("q")), Ok(()));
    assert_eq!(shown(&i.take_printed()), shown(&[text("hello")]));
}

#[test]
fn compiler_call_errors() {
    let mut i = Interpreter::new();
    assert_eq!(i.try_call(name("nothing")), Err(CallError::UndefinedCallable));
    assert_eq!(i.try_call(number(1)), Err(CallError::Uncallable));
    i.process(define("n", number(1)));
    assert_eq!(i.try_call(name("n")), Err(CallError::Uncallable));
    assert!(i.stack().is_empty());
}

#[test]
fn compiler_block_runs_in_order() {
    let mut i = Interpreter::new();
    let block = Expression::CodeBlock(CodeBlock { expressions: vec![number(1), define("x", number(2)), name("x")] });
    assert_eq!(i.try_call(block), Ok(()));
    assert_eq!(shown(i.stack()), shown(&[number(1), number(2)]));
}
