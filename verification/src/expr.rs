//! Expression nodes of the syntax tree.

use crate::scanner::{literal_view, LiteralValue, Token, TokenView, Value};
use vstd::prelude::*;

verus! {

/// An expression. A node owns its operands.
#[derive(Debug, PartialEq)]
pub enum Expr {
    /// Left operand, operator, right operand.
    Binary(Box<Expr>, Token, Box<Expr>),
    /// Operator, operand.
    Unary(Token, Box<Expr>),
    /// A literal value; `None` is the literal `nil`.
    Literal(Option<LiteralValue>),
    /// A parenthesised expression.
    Grouping(Box<Expr>),
    /// A variable, by its name token.
    Variable(Token),
    /// Name token of the target, assigned value.
    Assignment(Token, Box<Expr>),
    /// Left operand, `and` or `or`, right operand.
    Logical(Box<Expr>, Token, Box<Expr>),
    /// Callee, closing parenthesis, arguments.
    Call(Box<Expr>, Token, Vec<Expr>),
    /// Object, property name.
    Get(Box<Expr>, Token),
    /// Object, property name, assigned value.
    SetProperty(Box<Expr>, Token, Box<Expr>),
    /// The keyword `this`.
    This(Token),
    /// The keyword `super` and the method name.
    Super(Token, Token),
}

/// The mathematical content of an [`Expr`].
pub enum ExprView {
    Binary(Box<ExprView>, TokenView, Box<ExprView>),
    Unary(TokenView, Box<ExprView>),
    Literal(Option<Value>),
    Grouping(Box<ExprView>),
    Variable(TokenView),
    Assignment(TokenView, Box<ExprView>),
    Logical(Box<ExprView>, TokenView, Box<ExprView>),
    Call(Box<ExprView>, TokenView, Seq<ExprView>),
    Get(Box<ExprView>, TokenView),
    SetProperty(Box<ExprView>, TokenView, Box<ExprView>),
    This(TokenView),
    Super(TokenView, TokenView),
}

impl Expr {
    /// The content of the expression.
    pub open spec fn content(&self) -> ExprView
        decreases self,
    {
        match self {
            Expr::Binary(left, operator, right) => ExprView::Binary(
                Box::new(left.content()),
                operator@,
                Box::new(right.content()),
            ),
            Expr::Unary(operator, right) => ExprView::Unary(operator@, Box::new(right.content())),
            Expr::Literal(value) => ExprView::Literal(literal_view(*value)),
            Expr::Grouping(inner) => ExprView::Grouping(Box::new(inner.content())),
            Expr::Variable(name) => ExprView::Variable(name@),
            Expr::Assignment(name, value) => ExprView::Assignment(name@, Box::new(value.content())),
            Expr::Logical(left, operator, right) => ExprView::Logical(
                Box::new(left.content()),
                operator@,
                Box::new(right.content()),
            ),
            Expr::Call(callee, paren, arguments) => ExprView::Call(
                Box::new(callee.content()),
                paren@,
                Seq::new(
                    arguments@.len(),
                    |i: int|
                        if 0 <= i < arguments@.len() {
                            arguments@[i].content()
                        } else {
                            ExprView::Literal(None)
                        },
                ),
            ),
            Expr::Get(object, name) => ExprView::Get(Box::new(object.content()), name@),
            Expr::SetProperty(object, name, value) => ExprView::SetProperty(
                Box::new(object.content()),
                name@,
                Box::new(value.content()),
            ),
            Expr::This(keyword) => ExprView::This(keyword@),
            Expr::Super(keyword, method) => ExprView::Super(keyword@, method@),
        }
    }
}

impl View for Expr {
    type V = ExprView;

    open spec fn view(&self) -> ExprView {
        self.content()
    }
}

} // verus!
