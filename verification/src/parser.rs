//! The recursive-descent parser: one method for each rule of the grammar,
//! each of which computes what the function of the same name in
//! [`crate::grammar`] defines.
//!
//! The first token that does not fit ends the parse with its error.

use crate::expr::{Expr, ExprView};
use crate::grammar;
use crate::grammar::{Level, Parsed};
use crate::scanner::{
    token_views, LiteralValue, ParseError, ParseErrorView, Token, TokenType, TokenView,
};
use crate::stmt::{optional_expr_view, stmt_views, Stmt, StmtView};
use vstd::prelude::*;

verus! {

/// `r` is the expression that the grammar gives, and it spans the tokens from
/// `from` to `to`; or `r` is the error that the grammar gives.
pub open spec fn expr_agrees(
    expected: Parsed<ExprView>,
    r: Result<Expr, ParseError>,
    from: int,
    to: int,
) -> bool {
    match (expected, r) {
        (Ok((tree, n)), Ok(found)) => found@ == tree && to == from + n && n > 0,
        (Err(e), Err(error)) => error@ == e,
        _ => false,
    }
}

/// `r` is the statement that the grammar gives, and it spans the tokens from
/// `from` to `to`; or `r` is the error that the grammar gives.
pub open spec fn stmt_agrees(
    expected: Parsed<StmtView>,
    r: Result<Stmt, ParseError>,
    from: int,
    to: int,
) -> bool {
    match (expected, r) {
        (Ok((tree, n)), Ok(found)) => found@ == tree && to == from + n && n > 0,
        (Err(e), Err(error)) => error@ == e,
        _ => false,
    }
}

/// `r` holds the statements that the grammar gives, and they span the tokens
/// from `from` to `to`; or `r` is the error that the grammar gives.
pub open spec fn stmts_agree(
    expected: Parsed<Seq<StmtView>>,
    r: Result<Vec<Stmt>, ParseError>,
    from: int,
    to: int,
) -> bool {
    match (expected, r) {
        (Ok((trees, n)), Ok(found)) => stmt_views(found@) == trees && to == from + n,
        (Err(e), Err(error)) => error@ == e,
        _ => false,
    }
}

/// The content of an optional statement.
pub open spec fn optional_stmt_view(s: Option<Stmt>) -> Option<StmtView> {
    match s {
        Some(s) => Some(s@),
        None => None,
    }
}

/// The statement that a for statement with these clauses and this body
/// stands for.
fn desugar_for(
    initializer: Option<Stmt>,
    condition: Expr,
    increment: Option<Expr>,
    body: Stmt,
) -> (r: Stmt)
    ensures
        r@ == grammar::desugar_for(
            optional_stmt_view(initializer),
            condition@,
            optional_expr_view(increment),
            body@,
        ),
{
    let ghost inner = body@;
    let ghost test = condition@;
    let mut body = body;
    if let Some(increment_expr) = increment {
        let ghost step = increment_expr@;
        let both = vec![body, Stmt::Expression(increment_expr)];
        assert(stmt_views(both@) =~= seq![inner, StmtView::Expression(step)]);
        body = Stmt::Block(both);
    }
    let ghost repeated = body@;
    body = Stmt::While(condition, Box::new(body));
    assert(body@ == StmtView::While(test, Box::new(repeated)));
    if let Some(initializer_stmt) = initializer {
        let ghost first = initializer_stmt@;
        let ghost looping = body@;
        let both = vec![initializer_stmt, body];
        assert(stmt_views(both@) =~= seq![first, looping]);
        body = Stmt::Block(both);
    }
    body
}

/// Whether the last token is the end of input.
pub open spec fn ends_with_eof(tokens: Seq<Token>) -> bool {
    tokens.len() > 0 && tokens.last().token_type == TokenType::Eof
}

/// Parses a whole token sequence. A sequence that does not end with the
/// end-of-input token is refused as [`ParseError::EndOfFile`].
pub fn parse_tokens(tokens: Vec<Token>) -> (r: Result<Vec<Stmt>, ParseError>)
    ensures
        match (
            if ends_with_eof(tokens@) {
                grammar::program(token_views(tokens@), 0)
            } else {
                Err(ParseErrorView::EndOfFile)
            },
            r,
        ) {
            (Ok((trees, _)), Ok(found)) => stmt_views(found@) == trees,
            (Err(e), Err(error)) => error@ == e,
            _ => false,
        },
{
    let n: usize = tokens.len();
    if n > 0 && tokens[n - 1].is_type(TokenType::Eof) {
        let mut parser = Parser::new(tokens);
        parser.parse()
    } else {
        Err(ParseError::EndOfFile)
    }
}

/// A parser over one token sequence, which ends with the end-of-input token.
pub struct Parser {
    tokens: Vec<Token>,
    current: usize,
}

impl Parser {
    /// The tokens that the parser reads.
    pub closed spec fn tokens(&self) -> Seq<TokenView> {
        token_views(self.tokens@)
    }

    /// The position of the next token to read.
    pub closed spec fn position(&self) -> int {
        self.current as int
    }

    /// The parser stands on a token, and the last token is the end of input.
    pub closed spec fn wf(&self) -> bool {
        &&& self.current < self.tokens.len()
        &&& self.tokens@.last().token_type == TokenType::Eof
    }

    /// The tokens that the parser reads.
    spec fn ts(&self) -> Seq<TokenView> {
        token_views(self.tokens@)
    }

    /// A parser at the start of `tokens`.
    pub fn new(tokens: Vec<Token>) -> (r: Self)
        requires
            tokens.len() > 0,
            tokens@.last().token_type == TokenType::Eof,
        ensures
            r.wf(),
            r.tokens() == token_views(tokens@),
            r.position() == 0,
    {
        Parser { tokens, current: 0 }
    }

    /// Parses the declarations from the current position to the end of input.
    pub fn parse(&mut self) -> (r: Result<Vec<Stmt>, ParseError>)
        requires
            old(self).wf(),
        ensures
            final(self).wf(),
            final(self).tokens() == old(self).tokens(),
            stmts_agree(
                grammar::program(old(self).tokens(), old(self).position()),
                r,
                old(self).position(),
                final(self).position(),
            ),
    {
        let ghost start = self.current as int;
        let mut statements: Vec<Stmt> = Vec::new();
        assert(stmt_views(statements@) =~= Seq::empty());
        while !self.is_at_end()
            invariant
                self.wf(),
                self.tokens == old(self).tokens,
                start == old(self).current,
                start <= self.current,
                grammar::program(self.ts(), start) == grammar::program_rest(
                    self.ts(),
                    self.current as int,
                    stmt_views(statements@),
                    (self.current - start) as nat,
                ),
            decreases self.tokens.len() - self.current,
        {
            let ghost before = stmt_views(statements@);
            match self.declaration() {
                Ok(statement) => {
                    statements.push(statement);
                    assert(stmt_views(statements@) =~= before.push(statement@));
                },
                Err(error) => {
                    return Err(error);
                },
            }
        }
        Ok(statements)
    }

    /// A declaration.
    fn declaration(&mut self) -> (r: Result<Stmt, ParseError>)
        requires
            old(self).wf(),
        ensures
            final(self).wf(),
            final(self).tokens == old(self).tokens,
            stmt_agrees(
                grammar::declaration(old(self).ts(), old(self).current as int),
                r,
                old(self).current as int,
                final(self).current as int,
            ),
        decreases old(self).tokens.len() - old(self).current, 41nat,
    {
        if self.match_one(TokenType::Var) {
            self.var_declaration()
        } else if self.match_one(TokenType::Fun) {
            self.function("function")
        } else {
            self.statement()
        }
    }

    /// A variable declaration, behind `var`.
    fn var_declaration(&mut self) -> (r: Result<Stmt, ParseError>)
        requires
            old(self).wf(),
        ensures
            final(self).wf(),
            final(self).tokens == old(self).tokens,
            stmt_agrees(
                grammar::var_declaration(old(self).ts(), old(self).current as int),
                r,
                old(self).current as int,
                final(self).current as int,
            ),
        decreases old(self).tokens.len() - old(self).current, 30nat,
    {
        let name = match self.consume(TokenType::Identifier, "Expect variable name.") {
            Ok(token) => token,
            Err(error) => {
                return Err(error);
            },
        };
        let initializer = if self.match_one(TokenType::Equal) {
            match self.expression() {
                Ok(value) => Some(value),
                Err(error) => {
                    return Err(error);
                },
            }
        } else {
            None
        };
        match self.consume(TokenType::Semicolon, "Expect ';' after variable declaration.") {
            Ok(_) => Ok(Stmt::Var(name, initializer)),
            Err(error) => Err(error),
        }
    }

    /// A function declaration, behind `fun`.
    fn function(&mut self, kind: &str) -> (r: Result<Stmt, ParseError>)
        requires
            old(self).wf(),
        ensures
            final(self).wf(),
            final(self).tokens == old(self).tokens,
            stmt_agrees(
                grammar::function(old(self).ts(), old(self).current as int),
                r,
                old(self).current as int,
                final(self).current as int,
            ),
        decreases old(self).tokens.len() - old(self).current, 31nat,
    {
        let ghost start = self.current as int;
        let name = match self.consume(TokenType::Identifier, "Expect function name.") {
            Ok(token) => token,
            Err(error) => {
                return Err(error);
            },
        };
        match self.consume(TokenType::LeftParen, "Expect '(' after function name.") {
            Ok(_) => {},
            Err(error) => {
                return Err(error);
            },
        }
        let mut parameters: Vec<Token> = Vec::new();
        assert(token_views(parameters@) =~= Seq::empty());
        if !self.check(TokenType::RightParen) {
            loop
                invariant_except_break
                    grammar::parameters(self.ts(), start + 2, Seq::empty(), 0)
                        == grammar::parameters(
                        self.ts(),
                        self.current as int,
                        token_views(parameters@),
                        (self.current - (start + 2)) as nat,
                    ),
                invariant
                    self.wf(),
                    self.tokens == old(self).tokens,
                    start == old(self).current,
                    start + 2 <= self.current,
                    grammar::check(self.ts(), start, TokenType::Identifier),
                    grammar::check(self.ts(), start + 1, TokenType::LeftParen),
                    !grammar::check(self.ts(), start + 2, TokenType::RightParen),
                ensures
                    grammar::parameters(self.ts(), start + 2, Seq::empty(), 0) == Ok::<
                        (Seq<TokenView>, nat),
                        ParseErrorView,
                    >((token_views(parameters@), (self.current - (start + 2)) as nat)),
                decreases self.tokens.len() - self.current,
            {
                if parameters.len() >= 255 {
                    return Err(
                        ParseError::UnexpectedToken(
                            self.peek().clone(),
                            String::from_str("Cannot have more than 255 parameters."),
                        ),
                    );
                }
                let ghost before = token_views(parameters@);
                match self.consume(TokenType::Identifier, "Expect parameter name.") {
                    Ok(token) => {
                        parameters.push(token);
                        assert(token_views(parameters@) =~= before.push(token@));
                    },
                    Err(error) => {
                        return Err(error);
                    },
                }
                if !self.match_one(TokenType::Comma) {
                    break ;
                }
            }
        }
        match self.consume(TokenType::RightParen, "Expect ')' after parameters.") {
            Ok(_) => {},
            Err(error) => {
                return Err(error);
            },
        }
        match self.consume(TokenType::LeftBrace, "Expect '{' before function body.") {
            Ok(_) => {},
            Err(error) => {
                return Err(error);
            },
        }
        match self.block() {
            Ok(body) => Ok(Stmt::Function(name, parameters, body)),
            Err(error) => Err(error),
        }
    }

    /// A statement.
    fn statement(&mut self) -> (r: Result<Stmt, ParseError>)
        requires
            old(self).wf(),
        ensures
            final(self).wf(),
            final(self).tokens == old(self).tokens,
            stmt_agrees(
                grammar::statement(old(self).ts(), old(self).current as int),
                r,
                old(self).current as int,
                final(self).current as int,
            ),
        decreases old(self).tokens.len() - old(self).current, 40nat,
    {
        if self.match_one(TokenType::If) {
            self.if_statement()
        } else if self.match_one(TokenType::Print) {
            self.print_statement()
        } else if self.match_one(TokenType::While) {
            self.while_statement()
        } else if self.match_one(TokenType::For) {
            self.for_statement()
        } else if self.match_one(TokenType::LeftBrace) {
            match self.block() {
                Ok(statements) => Ok(Stmt::Block(statements)),
                Err(error) => Err(error),
            }
        } else {
            self.expression_statement()
        }
    }

    /// A block, behind `{`.
    fn block(&mut self) -> (r: Result<Vec<Stmt>, ParseError>)
        requires
            old(self).wf(),
        ensures
            final(self).wf(),
            final(self).tokens == old(self).tokens,
            stmts_agree(
                grammar::block(old(self).ts(), old(self).current as int),
                r,
                old(self).current as int,
                final(self).current as int,
            ),
            r is Ok ==> final(self).current > old(self).current,
        decreases old(self).tokens.len() - old(self).current, 43nat,
    {
        let ghost start = self.current as int;
        let mut statements: Vec<Stmt> = Vec::new();
        assert(stmt_views(statements@) =~= Seq::empty());
        while !self.check(TokenType::RightBrace) && !self.is_at_end()
            invariant
                self.wf(),
                self.tokens == old(self).tokens,
                start == old(self).current,
                start <= self.current,
                grammar::block(self.ts(), start) == grammar::block_rest(
                    self.ts(),
                    self.current as int,
                    stmt_views(statements@),
                    (self.current - start) as nat,
                ),
            decreases self.tokens.len() - self.current,
        {
            let ghost before = stmt_views(statements@);
            match self.declaration() {
                Ok(statement) => {
                    statements.push(statement);
                    assert(stmt_views(statements@) =~= before.push(statement@));
                },
                Err(error) => {
                    return Err(error);
                },
            }
        }
        match self.consume(TokenType::RightBrace, "Expect '}' after block.") {
            Ok(_) => Ok(statements),
            Err(error) => Err(error),
        }
    }

    /// A while statement, behind `while`.
    fn while_statement(&mut self) -> (r: Result<Stmt, ParseError>)
        requires
            old(self).wf(),
        ensures
            final(self).wf(),
            final(self).tokens == old(self).tokens,
            stmt_agrees(
                grammar::while_statement(old(self).ts(), old(self).current as int),
                r,
                old(self).current as int,
                final(self).current as int,
            ),
        decreases old(self).tokens.len() - old(self).current, 31nat,
    {
        match self.consume(TokenType::LeftParen, "Expect '(' after 'while'.") {
            Ok(_) => {},
            Err(error) => {
                return Err(error);
            },
        }
        let condition = match self.expression() {
            Ok(value) => value,
            Err(error) => {
                return Err(error);
            },
        };
        match self.consume(TokenType::RightParen, "Expect ')' after while condition.") {
            Ok(_) => {},
            Err(error) => {
                return Err(error);
            },
        }
        match self.statement() {
            Ok(body) => Ok(Stmt::While(condition, Box::new(body))),
            Err(error) => Err(error),
        }
    }

    /// A for statement, behind `for`, as the loop it stands for.
    fn for_statement(&mut self) -> (r: Result<Stmt, ParseError>)
        requires
            old(self).wf(),
        ensures
            final(self).wf(),
            final(self).tokens == old(self).tokens,
            stmt_agrees(
                grammar::for_statement(old(self).ts(), old(self).current as int),
                r,
                old(self).current as int,
                final(self).current as int,
            ),
        decreases old(self).tokens.len() - old(self).current, 31nat,
    {
        match self.consume(TokenType::LeftParen, "Expect '(' after 'for'.") {
            Ok(_) => {},
            Err(error) => {
                return Err(error);
            },
        }
        let initializer = match self.for_initializer() {
            Ok(clause) => clause,
            Err(error) => {
                return Err(error);
            },
        };
        let condition = match self.for_condition() {
            Ok(clause) => clause,
            Err(error) => {
                return Err(error);
            },
        };
        let increment = match self.for_increment() {
            Ok(clause) => clause,
            Err(error) => {
                return Err(error);
            },
        };
        match self.statement() {
            Ok(body) => Ok(desugar_for(initializer, condition, increment, body)),
            Err(error) => Err(error),
        }
    }

    /// The initializer clause of a for statement.
    fn for_initializer(&mut self) -> (r: Result<Option<Stmt>, ParseError>)
        requires
            old(self).wf(),
        ensures
            final(self).wf(),
            final(self).tokens == old(self).tokens,
            match (grammar::for_initializer(old(self).ts(), old(self).current as int), r) {
                (Ok((clause, n)), Ok(found)) => optional_stmt_view(found) == clause && final(self).current == old(self).current + n && n > 0,
                (Err(e), Err(error)) => error@ == e,
                _ => false,
            },
        decreases old(self).tokens.len() - old(self).current, 30nat,
    {
        if self.match_one(TokenType::Semicolon) {
            Ok(None)
        } else if self.match_one(TokenType::Var) {
            match self.var_declaration() {
                Ok(statement) => Ok(Some(statement)),
                Err(error) => Err(error),
            }
        } else {
            match self.expression_statement() {
                Ok(statement) => Ok(Some(statement)),
                Err(error) => Err(error),
            }
        }
    }

    /// The condition clause of a for statement and its semicolon.
    fn for_condition(&mut self) -> (r: Result<Expr, ParseError>)
        requires
            old(self).wf(),
        ensures
            final(self).wf(),
            final(self).tokens == old(self).tokens,
            expr_agrees(
                grammar::for_condition(old(self).ts(), old(self).current as int),
                r,
                old(self).current as int,
                final(self).current as int,
            ),
        decreases old(self).tokens.len() - old(self).current, 30nat,
    {
        let condition = if !self.check(TokenType::Semicolon) {
            match self.expression() {
                Ok(value) => value,
                Err(error) => {
                    return Err(error);
                },
            }
        } else {
            Expr::Literal(Some(LiteralValue::Boolean(true)))
        };
        match self.consume(TokenType::Semicolon, "Expect ';' after loop condition.") {
            Ok(_) => Ok(condition),
            Err(error) => Err(error),
        }
    }

    /// The increment clause of a for statement and the closing parenthesis.
    fn for_increment(&mut self) -> (r: Result<Option<Expr>, ParseError>)
        requires
            old(self).wf(),
        ensures
            final(self).wf(),
            final(self).tokens == old(self).tokens,
            match (grammar::for_increment(old(self).ts(), old(self).current as int), r) {
                (Ok((clause, n)), Ok(found)) => optional_expr_view(found) == clause && final(self).current == old(self).current + n && n > 0,
                (Err(e), Err(error)) => error@ == e,
                _ => false,
            },
        decreases old(self).tokens.len() - old(self).current, 30nat,
    {
        let increment = if !self.check(TokenType::RightParen) {
            match self.expression() {
                Ok(value) => Some(value),
                Err(error) => {
                    return Err(error);
                },
            }
        } else {
            None
        };
        match self.consume(TokenType::RightParen, "Expect ')' after for clauses.") {
            Ok(_) => Ok(increment),
            Err(error) => Err(error),
        }
    }

    /// An if statement, behind `if`.
    fn if_statement(&mut self) -> (r: Result<Stmt, ParseError>)
        requires
            old(self).wf(),
        ensures
            final(self).wf(),
            final(self).tokens == old(self).tokens,
            stmt_agrees(
                grammar::if_statement(old(self).ts(), old(self).current as int),
                r,
                old(self).current as int,
                final(self).current as int,
            ),
        decreases old(self).tokens.len() - old(self).current, 31nat,
    {
        match self.consume(TokenType::LeftParen, "Expect '(' after 'if'.") {
            Ok(_) => {},
            Err(error) => {
                return Err(error);
            },
        }
        let condition = match self.expression() {
            Ok(value) => value,
            Err(error) => {
                return Err(error);
            },
        };
        match self.consume(TokenType::RightParen, "Expect ')' after if condition.") {
            Ok(_) => {},
            Err(error) => {
                return Err(error);
            },
        }
        let then_branch = match self.statement() {
            Ok(statement) => statement,
            Err(error) => {
                return Err(error);
            },
        };
        let else_branch = if self.match_one(TokenType::Else) {
            match self.statement() {
                Ok(statement) => Some(Box::new(statement)),
                Err(error) => {
                    return Err(error);
                },
            }
        } else {
            None
        };
        Ok(Stmt::If(condition, Box::new(then_branch), else_branch))
    }

    /// A print statement, behind `print`.
    fn print_statement(&mut self) -> (r: Result<Stmt, ParseError>)
        requires
            old(self).wf(),
        ensures
            final(self).wf(),
            final(self).tokens == old(self).tokens,
            stmt_agrees(
                grammar::print_statement(old(self).ts(), old(self).current as int),
                r,
                old(self).current as int,
                final(self).current as int,
            ),
        decreases old(self).tokens.len() - old(self).current, 23nat,
    {
        let value = match self.expression() {
            Ok(value) => value,
            Err(error) => {
                return Err(error);
            },
        };
        match self.consume(TokenType::Semicolon, "Expect ';' after value.") {
            Ok(_) => Ok(Stmt::Print(value)),
            Err(error) => Err(error),
        }
    }

    /// An expression statement.
    fn expression_statement(&mut self) -> (r: Result<Stmt, ParseError>)
        requires
            old(self).wf(),
        ensures
            final(self).wf(),
            final(self).tokens == old(self).tokens,
            stmt_agrees(
                grammar::expression_statement(old(self).ts(), old(self).current as int),
                r,
                old(self).current as int,
                final(self).current as int,
            ),
        decreases old(self).tokens.len() - old(self).current, 23nat,
    {
        let value = match self.expression() {
            Ok(value) => value,
            Err(error) => {
                return Err(error);
            },
        };
        match self.consume(TokenType::Semicolon, "Expect ';' after value.") {
            Ok(_) => Ok(Stmt::Expression(value)),
            Err(error) => Err(error),
        }
    }

    /// An expression.
    fn expression(&mut self) -> (r: Result<Expr, ParseError>)
        requires
            old(self).wf(),
        ensures
            final(self).wf(),
            final(self).tokens == old(self).tokens,
            expr_agrees(
                grammar::expression(old(self).ts(), old(self).current as int),
                r,
                old(self).current as int,
                final(self).current as int,
            ),
        decreases old(self).tokens.len() - old(self).current, 21nat,
    {
        self.assignment()
    }

    /// An assignment or a logical-or expression.
    fn assignment(&mut self) -> (r: Result<Expr, ParseError>)
        requires
            old(self).wf(),
        ensures
            final(self).wf(),
            final(self).tokens == old(self).tokens,
            expr_agrees(
                grammar::assignment(old(self).ts(), old(self).current as int),
                r,
                old(self).current as int,
                final(self).current as int,
            ),
        decreases old(self).tokens.len() - old(self).current, 20nat,
    {
        let expr = match self.or() {
            Ok(value) => value,
            Err(error) => {
                return Err(error);
            },
        };
        if self.match_one(TokenType::Equal) {
            let equals = self.previous().clone();
            let value = match self.assignment() {
                Ok(value) => value,
                Err(error) => {
                    return Err(error);
                },
            };
            match expr {
                Expr::Variable(name) => Ok(Expr::Assignment(name, Box::new(value))),
                Expr::Get(object, name) => Ok(Expr::SetProperty(object, name, Box::new(value))),
                _ => Err(
                    ParseError::UnexpectedToken(
                        equals,
                        String::from_str("Invalid assignment target."),
                    ),
                ),
            }
        } else {
            Ok(expr)
        }
    }

    /// A chain of `or`.
    fn or(&mut self) -> (r: Result<Expr, ParseError>)
        requires
            old(self).wf(),
        ensures
            final(self).wf(),
            final(self).tokens == old(self).tokens,
            expr_agrees(
                grammar::binary(old(self).ts(), old(self).current as int, Level::Or),
                r,
                old(self).current as int,
                final(self).current as int,
            ),
        decreases old(self).tokens.len() - old(self).current, 19nat,
    {
        self.binary(Level::Or)
    }

    /// A chain of `and`.
    fn and(&mut self) -> (r: Result<Expr, ParseError>)
        requires
            old(self).wf(),
        ensures
            final(self).wf(),
            final(self).tokens == old(self).tokens,
            expr_agrees(
                grammar::binary(old(self).ts(), old(self).current as int, Level::And),
                r,
                old(self).current as int,
                final(self).current as int,
            ),
        decreases old(self).tokens.len() - old(self).current, 16nat,
    {
        self.binary(Level::And)
    }

    /// A chain of `==` and `!=`.
    fn equality(&mut self) -> (r: Result<Expr, ParseError>)
        requires
            old(self).wf(),
        ensures
            final(self).wf(),
            final(self).tokens == old(self).tokens,
            expr_agrees(
                grammar::binary(old(self).ts(), old(self).current as int, Level::Equality),
                r,
                old(self).current as int,
                final(self).current as int,
            ),
        decreases old(self).tokens.len() - old(self).current, 13nat,
    {
        self.binary(Level::Equality)
    }

    /// A chain of comparisons.
    fn comparison(&mut self) -> (r: Result<Expr, ParseError>)
        requires
            old(self).wf(),
        ensures
            final(self).wf(),
            final(self).tokens == old(self).tokens,
            expr_agrees(
                grammar::binary(old(self).ts(), old(self).current as int, Level::Comparison),
                r,
                old(self).current as int,
                final(self).current as int,
            ),
        decreases old(self).tokens.len() - old(self).current, 10nat,
    {
        self.binary(Level::Comparison)
    }

    /// A chain of `+` and `-`.
    fn term(&mut self) -> (r: Result<Expr, ParseError>)
        requires
            old(self).wf(),
        ensures
            final(self).wf(),
            final(self).tokens == old(self).tokens,
            expr_agrees(
                grammar::binary(old(self).ts(), old(self).current as int, Level::Term),
                r,
                old(self).current as int,
                final(self).current as int,
            ),
        decreases old(self).tokens.len() - old(self).current, 7nat,
    {
        self.binary(Level::Term)
    }

    /// A chain of `*` and `/`.
    fn factor(&mut self) -> (r: Result<Expr, ParseError>)
        requires
            old(self).wf(),
        ensures
            final(self).wf(),
            final(self).tokens == old(self).tokens,
            expr_agrees(
                grammar::binary(old(self).ts(), old(self).current as int, Level::Factor),
                r,
                old(self).current as int,
                final(self).current as int,
            ),
        decreases old(self).tokens.len() - old(self).current, 4nat,
    {
        self.binary(Level::Factor)
    }

    /// An operand of the operators of `level`.
    fn operand(&mut self, level: Level) -> (r: Result<Expr, ParseError>)
        requires
            old(self).wf(),
        ensures
            final(self).wf(),
            final(self).tokens == old(self).tokens,
            expr_agrees(
                grammar::operand(old(self).ts(), old(self).current as int, level),
                r,
                old(self).current as int,
                final(self).current as int,
            ),
        decreases old(self).tokens.len() - old(self).current, 3 * level.looseness() + 2,
    {
        match level {
            Level::Factor => self.unary(),
            Level::Term => self.factor(),
            Level::Comparison => self.term(),
            Level::Equality => self.comparison(),
            Level::And => self.equality(),
            Level::Or => self.and(),
        }
    }

    /// Reads the next token if it is an operator of `level`.
    fn match_operator(&mut self, level: Level) -> (r: bool)
        requires
            old(self).wf(),
        ensures
            final(self).wf(),
            final(self).tokens == old(self).tokens,
            r == (!grammar::at_end(old(self).ts(), old(self).current as int) && level.owns(
                old(self).ts()[old(self).current as int].token_type,
            )),
            final(self).current == if r {
                old(self).current + 1
            } else {
                old(self).current as int
            },
    {
        match level {
            Level::Factor => self.match_token(&[TokenType::Slash, TokenType::Star]),
            Level::Term => self.match_token(&[TokenType::Minus, TokenType::Plus]),
            Level::Comparison => self.match_token(
                &[
                    TokenType::Greater,
                    TokenType::GreaterEqual,
                    TokenType::Less,
                    TokenType::LessEqual,
                ],
            ),
            Level::Equality => self.match_token(&[TokenType::BangEqual, TokenType::EqualEqual]),
            Level::And => self.match_one(TokenType::And),
            Level::Or => self.match_one(TokenType::Or),
        }
    }

    /// A left-associative chain of operands joined by operators of `level`.
    fn binary(&mut self, level: Level) -> (r: Result<Expr, ParseError>)
        requires
            old(self).wf(),
        ensures
            final(self).wf(),
            final(self).tokens == old(self).tokens,
            expr_agrees(
                grammar::binary(old(self).ts(), old(self).current as int, level),
                r,
                old(self).current as int,
                final(self).current as int,
            ),
        decreases old(self).tokens.len() - old(self).current, 3 * level.looseness() + 3,
    {
        let ghost start = self.current as int;
        let mut expr = match self.operand(level) {
            Ok(value) => value,
            Err(error) => {
                return Err(error);
            },
        };
        while self.match_operator(level)
            invariant
                self.wf(),
                self.tokens == old(self).tokens,
                start == old(self).current,
                start < self.current,
                grammar::binary(self.ts(), start, level) == grammar::binary_rest(
                    self.ts(),
                    self.current as int,
                    level,
                    expr@,
                    (self.current - start) as nat,
                ),
            decreases self.tokens.len() - self.current,
        {
            let operator = self.previous().clone();
            let right = match self.operand(level) {
                Ok(value) => value,
                Err(error) => {
                    return Err(error);
                },
            };
            expr = match level {
                Level::And | Level::Or => Expr::Logical(Box::new(expr), operator, Box::new(right)),
                _ => Expr::Binary(Box::new(expr), operator, Box::new(right)),
            };
        }
        Ok(expr)
    }

    /// A unary expression.
    fn unary(&mut self) -> (r: Result<Expr, ParseError>)
        requires
            old(self).wf(),
        ensures
            final(self).wf(),
            final(self).tokens == old(self).tokens,
            expr_agrees(
                grammar::unary(old(self).ts(), old(self).current as int),
                r,
                old(self).current as int,
                final(self).current as int,
            ),
        decreases old(self).tokens.len() - old(self).current, 1nat,
    {
        if self.match_token(&[TokenType::Bang, TokenType::Minus]) {
            let operator = self.previous().clone();
            match self.unary() {
                Ok(right) => Ok(Expr::Unary(operator, Box::new(right))),
                Err(error) => Err(error),
            }
        } else {
            self.primary()
        }
    }

    /// A primary expression.
    fn primary(&mut self) -> (r: Result<Expr, ParseError>)
        requires
            old(self).wf(),
        ensures
            final(self).wf(),
            final(self).tokens == old(self).tokens,
            expr_agrees(
                grammar::primary(old(self).ts(), old(self).current as int),
                r,
                old(self).current as int,
                final(self).current as int,
            ),
        decreases old(self).tokens.len() - old(self).current, 0nat,
    {
        if self.match_one(TokenType::False) {
            Ok(Expr::Literal(Some(LiteralValue::Boolean(false))))
        } else if self.match_one(TokenType::True) {
            Ok(Expr::Literal(Some(LiteralValue::Boolean(true))))
        } else if self.match_one(TokenType::Nil) {
            Ok(Expr::Literal(None))
        } else if self.match_one(TokenType::Number) {
            match &self.previous().literal {
                Some(LiteralValue::Number(n)) => Ok(Expr::Literal(Some(LiteralValue::Number(*n)))),
                _ => Err(
                    ParseError::UnexpectedToken(
                        self.previous().clone(),
                        String::from_str("Invalid number format"),
                    ),
                ),
            }
        } else if self.match_one(TokenType::String) {
            match &self.previous().literal {
                Some(LiteralValue::String(s)) => Ok(
                    Expr::Literal(Some(LiteralValue::String(s.clone()))),
                ),
                _ => Err(
                    ParseError::UnexpectedToken(
                        self.previous().clone(),
                        String::from_str("Invalid string format"),
                    ),
                ),
            }
        } else if self.match_one(TokenType::This) {
            Ok(Expr::This(self.previous().clone()))
        } else if self.match_one(TokenType::Super) {
            let keyword = self.previous().clone();
            match self.consume(TokenType::Dot, "Expect '.' after 'super'.") {
                Ok(_) => {},
                Err(error) => {
                    return Err(error);
                },
            }
            match self.consume(TokenType::Identifier, "Expect superclass method name.") {
                Ok(method) => Ok(Expr::Super(keyword, method)),
                Err(error) => Err(error),
            }
        } else if self.match_one(TokenType::Identifier) {
            Ok(Expr::Variable(self.previous().clone()))
        } else if self.match_one(TokenType::LeftParen) {
            let expr = match self.expression() {
                Ok(value) => value,
                Err(error) => {
                    return Err(error);
                },
            };
            match self.consume(TokenType::RightParen, "Expect ')' after expression.") {
                Ok(_) => Ok(Expr::Grouping(Box::new(expr))),
                Err(error) => Err(error),
            }
        } else {
            Err(
                ParseError::UnexpectedToken(
                    self.peek().clone(),
                    String::from_str("Expect expression."),
                ),
            )
        }
    }

    /// Reads the next token if it is of the given category.
    fn match_one(&mut self, token_type: TokenType) -> (r: bool)
        requires
            old(self).wf(),
        ensures
            final(self).wf(),
            final(self).tokens == old(self).tokens,
            r == grammar::check(old(self).ts(), old(self).current as int, token_type),
            final(self).current == if r {
                old(self).current + 1
            } else {
                old(self).current as int
            },
    {
        let types = [token_type];
        let r = self.match_token(&types);
        assert(types@[0] == token_type);
        r
    }

    /// Reads the next token if it is of one of the given categories.
    fn match_token(&mut self, types: &[TokenType]) -> (r: bool)
        requires
            old(self).wf(),
        ensures
            final(self).wf(),
            final(self).tokens == old(self).tokens,
            r == (exists|i: int|
                0 <= i < types@.len() && grammar::check(
                    old(self).ts(),
                    old(self).current as int,
                    #[trigger] types@[i],
                )),
            final(self).current == if r {
                old(self).current + 1
            } else {
                old(self).current as int
            },
    {
        let mut i: usize = 0;
        while i < types.len()
            invariant
                self.wf(),
                self.tokens == old(self).tokens,
                self.current == old(self).current,
                i <= types@.len(),
                forall|k: int|
                    0 <= k < i ==> !grammar::check(
                        self.ts(),
                        self.current as int,
                        #[trigger] types@[k],
                    ),
            decreases types.len() - i,
        {
            if self.check(types[i]) {
                self.advance();
                return true;
            }
            i += 1;
        }
        false
    }

    /// Reads the next token, which must be of the given category.
    fn consume(&mut self, token_type: TokenType, message: &str) -> (r: Result<Token, ParseError>)
        requires
            old(self).wf(),
        ensures
            final(self).wf(),
            final(self).tokens == old(self).tokens,
            match r {
                Ok(token) => grammar::check(old(self).ts(), old(self).current as int, token_type)
                    && token@ == old(self).ts()[old(self).current as int] && final(self).current
                    == old(self).current + 1,
                Err(error) => !grammar::check(old(self).ts(), old(self).current as int, token_type)
                    && error@ == grammar::expected(
                    old(self).ts(),
                    old(self).current as int,
                    token_type,
                ) && final(self).current == old(self).current,
            },
    {
        if self.check(token_type) {
            Ok(self.advance().clone())
        } else {
            Err(ParseError::ExpectedToken(token_type, self.peek().clone()))
        }
    }

    /// Whether the next token is of the given category.
    fn check(&self, token_type: TokenType) -> (r: bool)
        requires
            self.wf(),
        ensures
            r == grammar::check(self.ts(), self.current as int, token_type),
    {
        if self.is_at_end() {
            false
        } else {
            self.peek().token_type == token_type
        }
    }

    /// Moves behind the next token, unless it is the end of input, and
    /// returns the token now behind the position.
    fn advance(&mut self) -> (t: &Token)
        requires
            old(self).wf(),
            !grammar::at_end(old(self).ts(), old(self).current as int),
        ensures
            final(self).wf(),
            final(self).tokens == old(self).tokens,
            final(self).current == old(self).current + 1,
            *t == old(self).tokens@[old(self).current as int],
    {
        if !self.is_at_end() {
            self.current += 1;
        }
        self.previous()
    }

    /// Whether the next token is the end of input.
    fn is_at_end(&self) -> (r: bool)
        requires
            self.wf(),
        ensures
            r == grammar::at_end(self.ts(), self.current as int),
    {
        self.peek().token_type == TokenType::Eof
    }

    /// The next token.
    fn peek(&self) -> (t: &Token)
        requires
            self.current < self.tokens.len(),
        ensures
            *t == self.tokens@[self.current as int],
            t@ == self.ts()[self.current as int],
    {
        &self.tokens[self.current]
    }

    /// The token behind the position.
    fn previous(&self) -> (t: &Token)
        requires
            0 < self.current <= self.tokens.len(),
        ensures
            *t == self.tokens@[self.current - 1],
            t@ == self.ts()[self.current - 1],
    {
        &self.tokens[self.current - 1]
    }
}

} // verus!
