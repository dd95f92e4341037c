//! The expressions of the interactive language.

use vstd::prelude::*;
use super::tokens::{Literal, LiteralView};

verus! {

/// A block of expressions, run in order when called.
#[derive(Debug)]
pub struct CodeBlock {
    pub expressions: Vec<Expression>,
}

/// A definition: `name` stands for `value` from then on.
#[derive(Debug)]
pub struct Definition {
    pub name: String,
    pub value: Box<Expression>,
}

/// A call of `value`.
#[derive(Debug)]
pub struct Call {
    pub value: Box<Expression>,
}

/// The built-in functions.
#[derive(Debug, Clone, Copy, PartialEq, Eq, Structural)]
pub enum BuiltIn {
    Print,
}

/// An expression.
#[derive(Debug)]
pub enum Expression {
    CodeBlock(CodeBlock),
    Identifier(String),
    BuiltIn(BuiltIn),
    TopLevelExpression(TopLevelExpression),
}

/// The expressions that may stand at the top level.
#[derive(Debug)]
pub enum TopLevelExpression {
    Definition(Definition),
    Literal(Literal),
    Call(Call),
}

/// An expression as a value: names and strings as character sequences.
pub enum ExprView {
    Block(Seq<ExprView>),
    Identifier(Seq<char>),
    BuiltIn(BuiltIn),
    Definition(Seq<char>, Box<ExprView>),
    Literal(LiteralView),
    Call(Box<ExprView>),
}

impl Expression {
    /// The expression as a value.
    pub open spec fn view(&self) -> ExprView
        decreases self,
    {
        match self {
            Expression::CodeBlock(cb) => ExprView::Block(
                Seq::new(
                    cb.expressions@.len(),
                    |i: int|
                        if 0 <= i < cb.expressions@.len() {
                            cb.expressions@[i].view()
                        } else {
                            ExprView::Block(Seq::empty())
                        },
                ),
            ),
            Expression::Identifier(n) => ExprView::Identifier(n@),
            Expression::BuiltIn(b) => ExprView::BuiltIn(*b),
            Expression::TopLevelExpression(TopLevelExpression::Definition(d)) => ExprView::Definition(
                d.name@,
                Box::new(d.value.view()),
            ),
            Expression::TopLevelExpression(TopLevelExpression::Literal(l)) => ExprView::Literal(l@),
            Expression::TopLevelExpression(TopLevelExpression::Call(c)) => ExprView::Call(
                Box::new(c.value.view()),
            ),
        }
    }
}

impl Clone for Expression {
    /// A copy of the expression, equal to it as a value.
    #[verifier::loop_isolation(false)]
    fn clone(&self) -> (r: Self)
        ensures
            r@ == self@,
        decreases self,
    {
        match self {
            Expression::CodeBlock(cb) => {
                let mut expressions: Vec<Expression> = Vec::new();
                let mut i: usize = 0;
                while i < cb.expressions.len()
                    invariant
                        i <= cb.expressions.len(),
                        expressions@.len() == i,
                        forall|j: int| 0 <= j < i ==> (#[trigger] expressions@[j])@ == cb.expressions@[j]@,
                    decreases cb.expressions.len() - i,
                {
                    proof {
                        assert(decreases_to!(cb.expressions => cb.expressions[i as int]));
                    }
                    expressions.push(cb.expressions[i].clone());
                    i = i + 1;
                }
                let r = Expression::CodeBlock(CodeBlock { expressions });
                assert(r@ == self@) by {
                    if let ExprView::Block(a) = r@ {
                        if let ExprView::Block(b) = self@ {
                            assert(a =~= b);
                        }
                    }
                }
                r
            },
            Expression::Identifier(n) => Expression::Identifier(n.clone()),
            Expression::BuiltIn(b) => Expression::BuiltIn(*b),
            Expression::TopLevelExpression(TopLevelExpression::Definition(d)) => {
                let value = (*d.value).clone();
                Expression::TopLevelExpression(
                    TopLevelExpression::Definition(
                        Definition { name: d.name.clone(), value: Box::new(value) },
                    ),
                )
            },
            Expression::TopLevelExpression(TopLevelExpression::Literal(l)) => {
                let l2 = match l {
                    Literal::Number(n) => Literal::Number(*n),
                    Literal::String(s) => Literal::String(s.clone()),
                };
                Expression::TopLevelExpression(TopLevelExpression::Literal(l2))
            },
            Expression::TopLevelExpression(TopLevelExpression::Call(c)) => {
                let value = (*c.value).clone();
                Expression::TopLevelExpression(TopLevelExpression::Call(Call { value: Box::new(value) }))
            },
        }
    }
}

} // verus!
