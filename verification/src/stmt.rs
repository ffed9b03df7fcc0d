//! Statement nodes of the syntax tree.

use crate::expr::{Expr, ExprView};
use crate::scanner::{token_views, Token, TokenView};
use vstd::prelude::*;

verus! {

/// A statement. A node owns what it holds.
#[derive(Debug, PartialEq)]
pub enum Stmt {
    /// An expression evaluated for its effect.
    Expression(Expr),
    /// `print` and the expression whose value is printed.
    Print(Expr),
    /// Name token and optional initializer of a variable declaration.
    Var(Token, Option<Expr>),
    /// A block: its statements run in a scope of their own.
    Block(Vec<Stmt>),
    /// Condition, then-branch, optional else-branch.
    If(Expr, Box<Stmt>, Option<Box<Stmt>>),
    /// Condition, body.
    While(Expr, Box<Stmt>),
    /// Name, parameters, body of a function declaration.
    Function(Token, Vec<Token>, Vec<Stmt>),
    /// The keyword and the optional value of a `return`.
    Return(Token, Option<Expr>),
    /// Name, optional superclass, method names of a class declaration.
    Class(Token, Option<Token>, Vec<String>),
}

/// The mathematical content of a [`Stmt`].
pub enum StmtView {
    Expression(ExprView),
    Print(ExprView),
    Var(TokenView, Option<ExprView>),
    Block(Seq<StmtView>),
    If(ExprView, Box<StmtView>, Option<Box<StmtView>>),
    While(ExprView, Box<StmtView>),
    Function(TokenView, Seq<TokenView>, Seq<StmtView>),
    Return(TokenView, Option<ExprView>),
    Class(TokenView, Option<TokenView>, Seq<Seq<char>>),
}

/// The content of an optional expression.
pub open spec fn optional_expr_view(e: Option<Expr>) -> Option<ExprView> {
    match e {
        Some(e) => Some(e@),
        None => None,
    }
}

/// The contents of a sequence of statements.
pub open spec fn stmt_views(statements: Seq<Stmt>) -> Seq<StmtView>
    decreases statements,
{
    Seq::new(
        statements.len(),
        |i: int|
            if 0 <= i < statements.len() {
                statements[i].content()
            } else {
                StmtView::Block(Seq::empty())
            },
    )
}

impl Stmt {
    /// The content of the statement.
    pub open spec fn content(&self) -> StmtView
        decreases self,
    {
        match self {
            Stmt::Expression(e) => StmtView::Expression(e@),
            Stmt::Print(e) => StmtView::Print(e@),
            Stmt::Var(name, initializer) => StmtView::Var(name@, optional_expr_view(*initializer)),
            Stmt::Block(statements) => StmtView::Block(stmt_views(statements@)),
            Stmt::If(condition, then_branch, else_branch) => StmtView::If(
                condition@,
                Box::new(then_branch.content()),
                match else_branch {
                    Some(s) => Some(Box::new(s.content())),
                    None => None,
                },
            ),
            Stmt::While(condition, body) => StmtView::While(condition@, Box::new(body.content())),
            Stmt::Function(name, parameters, body) => StmtView::Function(
                name@,
                token_views(parameters@),
                stmt_views(body@),
            ),
            Stmt::Return(keyword, value) => StmtView::Return(keyword@, optional_expr_view(*value)),
            Stmt::Class(name, superclass, methods) => StmtView::Class(
                name@,
                match superclass {
                    Some(t) => Some(t@),
                    None => None,
                },
                methods@.map_values(|m: String| m@),
            ),
        }
    }
}

impl View for Stmt {
    type V = StmtView;

    open spec fn view(&self) -> StmtView {
        self.content()
    }
}

} // verus!
