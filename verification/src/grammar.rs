//! The grammar of the language, as functions from a token sequence and a
//! position to the syntax tree that starts there.
//!
//! ```text
//! program     -> declaration* EOF
//! declaration -> "var" varDecl | "fun" function | statement
//! statement   -> "if" ifStmt | "print" printStmt | "while" whileStmt
//!              | "for" forStmt | "{" block | exprStmt
//! expression  -> assignment
//! assignment  -> logic_or ( "=" assignment )?
//! logic_or    -> logic_and ( "or" logic_and )*
//! logic_and   -> equality ( "and" equality )*
//! equality    -> comparison ( ( "!=" | "==" ) comparison )*
//! comparison  -> term ( ( ">" | ">=" | "<" | "<=" ) term )*
//! term        -> factor ( ( "-" | "+" ) factor )*
//! factor      -> unary ( ( "/" | "*" ) unary )*
//! unary       -> ( "!" | "-" ) unary | primary
//! primary     -> "false" | "true" | "nil" | NUMBER | STRING | "this"
//!              | "super" "." IDENTIFIER | IDENTIFIER | "(" expression ")"
//! ```
//!
//! Each function returns the tree and the number of tokens it spans, or the
//! error of the first token that does not fit. The functions named after a
//! keyword start behind that keyword.

use crate::expr::ExprView;
use crate::scanner::{ParseErrorView, TokenType, TokenView, Value};
use crate::stmt::StmtView;
use vstd::prelude::*;

verus! {

/// A syntax tree and the number of tokens it spans, or a syntax error.
pub type Parsed<T> = Result<(T, nat), ParseErrorView>;

/// The number of tokens of `ts` at or behind `pos`.
pub open spec fn remaining(ts: Seq<TokenView>, pos: int) -> nat {
    if pos < 0 {
        ts.len()
    } else if pos < ts.len() {
        (ts.len() - pos) as nat
    } else {
        0
    }
}

/// Whether the token at `pos` is of category `t`. The end of input matches
/// no category.
pub open spec fn check(ts: Seq<TokenView>, pos: int, t: TokenType) -> bool {
    0 <= pos < ts.len() && t != TokenType::Eof && ts[pos].token_type == t
}

/// Whether `pos` is at the end of input.
pub open spec fn at_end(ts: Seq<TokenView>, pos: int) -> bool {
    !(0 <= pos < ts.len()) || ts[pos].token_type == TokenType::Eof
}

/// The error of finding the token at `pos` where one of category `t` must stand.
pub open spec fn expected(ts: Seq<TokenView>, pos: int, t: TokenType) -> ParseErrorView {
    ParseErrorView::ExpectedToken(t, ts[pos])
}

/// The error of finding the token at `pos` where it cannot stand.
pub open spec fn unexpected(ts: Seq<TokenView>, pos: int, reason: Seq<char>) -> ParseErrorView {
    ParseErrorView::UnexpectedToken(ts[pos], reason)
}

/// The levels of binary operators, from the loosest to the tightest.
#[derive(Debug, PartialEq, Eq, Clone, Copy, Structural)]
pub enum Level {
    Or,
    And,
    Equality,
    Comparison,
    Term,
    Factor,
}

impl Level {
    /// How tightly the operators of the level bind: a larger number binds looser.
    pub open spec fn looseness(self) -> nat {
        match self {
            Level::Factor => 0,
            Level::Term => 1,
            Level::Comparison => 2,
            Level::Equality => 3,
            Level::And => 4,
            Level::Or => 5,
        }
    }

    /// Whether a token of category `t` is an operator of the level.
    pub open spec fn owns(self, t: TokenType) -> bool {
        match self {
            Level::Factor => t == TokenType::Slash || t == TokenType::Star,
            Level::Term => t == TokenType::Minus || t == TokenType::Plus,
            Level::Comparison => t == TokenType::Greater || t == TokenType::GreaterEqual || t
                == TokenType::Less || t == TokenType::LessEqual,
            Level::Equality => t == TokenType::BangEqual || t == TokenType::EqualEqual,
            Level::And => t == TokenType::And,
            Level::Or => t == TokenType::Or,
        }
    }

    /// The node that an operator of the level makes of its operands.
    pub open spec fn combine(self, left: ExprView, operator: TokenView, right: ExprView) -> ExprView {
        match self {
            Level::And | Level::Or => ExprView::Logical(Box::new(left), operator, Box::new(right)),
            _ => ExprView::Binary(Box::new(left), operator, Box::new(right)),
        }
    }
}

/// A primary expression. A number or string token stands for the value it
/// carries, and one that carries no such value is refused.
pub open spec fn primary(ts: Seq<TokenView>, pos: int) -> Parsed<ExprView>
    decreases remaining(ts, pos), 0nat,
{
    if check(ts, pos, TokenType::False) {
        Ok((ExprView::Literal(Some(Value::Boolean(false))), 1))
    } else if check(ts, pos, TokenType::True) {
        Ok((ExprView::Literal(Some(Value::Boolean(true))), 1))
    } else if check(ts, pos, TokenType::Nil) {
        Ok((ExprView::Literal(None), 1))
    } else if check(ts, pos, TokenType::Number) {
        match ts[pos].literal {
            Some(Value::Number(n)) => Ok((ExprView::Literal(Some(Value::Number(n))), 1)),
            _ => Err(unexpected(ts, pos, "Invalid number format"@)),
        }
    } else if check(ts, pos, TokenType::String) {
        match ts[pos].literal {
            Some(Value::String(s)) => Ok((ExprView::Literal(Some(Value::String(s))), 1)),
            _ => Err(unexpected(ts, pos, "Invalid string format"@)),
        }
    } else if check(ts, pos, TokenType::This) {
        Ok((ExprView::This(ts[pos]), 1))
    } else if check(ts, pos, TokenType::Super) {
        if !check(ts, pos + 1, TokenType::Dot) {
            Err(expected(ts, pos + 1, TokenType::Dot))
        } else if !check(ts, pos + 2, TokenType::Identifier) {
            Err(expected(ts, pos + 2, TokenType::Identifier))
        } else {
            Ok((ExprView::Super(ts[pos], ts[pos + 2]), 3))
        }
    } else if check(ts, pos, TokenType::Identifier) {
        Ok((ExprView::Variable(ts[pos]), 1))
    } else if check(ts, pos, TokenType::LeftParen) {
        match expression(ts, pos + 1) {
            Ok((inner, n)) => if check(ts, pos + 1 + n, TokenType::RightParen) {
                Ok((ExprView::Grouping(Box::new(inner)), (n + 2) as nat))
            } else {
                Err(expected(ts, pos + 1 + n, TokenType::RightParen))
            },
            Err(e) => Err(e),
        }
    } else {
        Err(unexpected(ts, pos, "Expect expression."@))
    }
}

/// An expression between parentheses is a primary expression: the grouping
/// of that expression.
pub proof fn lemma_parenthesised(ts: Seq<TokenView>, pos: int)
    requires
        check(ts, pos, TokenType::LeftParen),
        expression(ts, pos + 1) is Ok,
        check(ts, pos + 1 + expression(ts, pos + 1)->Ok_0.1, TokenType::RightParen),
    ensures
        primary(ts, pos) == Ok::<(ExprView, nat), ParseErrorView>(
            (
                ExprView::Grouping(Box::new(expression(ts, pos + 1)->Ok_0.0)),
                (expression(ts, pos + 1)->Ok_0.1 + 2) as nat,
            ),
        ),
{
}

/// A unary expression: `!` or `-` in front of a unary expression, or a
/// primary expression.
pub open spec fn unary(ts: Seq<TokenView>, pos: int) -> Parsed<ExprView>
    decreases remaining(ts, pos), 1nat,
{
    if check(ts, pos, TokenType::Bang) || check(ts, pos, TokenType::Minus) {
        match unary(ts, pos + 1) {
            Ok((right, n)) => Ok((ExprView::Unary(ts[pos], Box::new(right)), (n + 1) as nat)),
            Err(e) => Err(e),
        }
    } else {
        primary(ts, pos)
    }
}

/// An operand of the operators of `level`: an expression of the next tighter
/// level.
pub open spec fn operand(ts: Seq<TokenView>, pos: int, level: Level) -> Parsed<ExprView>
    decreases remaining(ts, pos), 3 * level.looseness() + 2,
{
    match level {
        Level::Factor => unary(ts, pos),
        Level::Term => binary(ts, pos, Level::Factor),
        Level::Comparison => binary(ts, pos, Level::Term),
        Level::Equality => binary(ts, pos, Level::Comparison),
        Level::And => binary(ts, pos, Level::Equality),
        Level::Or => binary(ts, pos, Level::And),
    }
}

/// What follows the operands read so far at `level`: as long as an operator
/// of the level stands at `pos`, the tree read so far becomes the left
/// operand of that operator. `left` spans the `consumed` tokens before `pos`.
pub open spec fn binary_rest(
    ts: Seq<TokenView>,
    pos: int,
    level: Level,
    left: ExprView,
    consumed: nat,
) -> Parsed<ExprView>
    decreases remaining(ts, pos), 3 * level.looseness() + 3,
{
    if 0 <= pos < ts.len() && !at_end(ts, pos) && level.owns(ts[pos].token_type) {
        match operand(ts, pos + 1, level) {
            Ok((right, n)) => binary_rest(
                ts,
                pos + 1 + n,
                level,
                level.combine(left, ts[pos], right),
                (consumed + 1 + n) as nat,
            ),
            Err(e) => Err(e),
        }
    } else {
        Ok((left, consumed))
    }
}

/// A left-associative chain of operands joined by operators of `level`.
pub open spec fn binary(ts: Seq<TokenView>, pos: int, level: Level) -> Parsed<ExprView>
    decreases remaining(ts, pos), 3 * level.looseness() + 4,
{
    match operand(ts, pos, level) {
        Ok((left, n)) => binary_rest(ts, pos + n, level, left, n),
        Err(e) => Err(e),
    }
}

/// An assignment, which associates to the right, or a logical-or expression.
/// The target of an assignment is a variable or a property.
pub open spec fn assignment(ts: Seq<TokenView>, pos: int) -> Parsed<ExprView>
    decreases remaining(ts, pos), 20nat,
{
    match binary(ts, pos, Level::Or) {
        Ok((target, n)) => if check(ts, pos + n, TokenType::Equal) {
            match assignment(ts, pos + n + 1) {
                Ok((value, m)) => match target {
                    ExprView::Variable(name) => Ok(
                        (ExprView::Assignment(name, Box::new(value)), (n + 1 + m) as nat),
                    ),
                    ExprView::Get(object, name) => Ok(
                        (ExprView::SetProperty(object, name, Box::new(value)), (n + 1 + m) as nat),
                    ),
                    _ => Err(unexpected(ts, pos + n, "Invalid assignment target."@)),
                },
                Err(e) => Err(e),
            }
        } else {
            Ok((target, n))
        },
        Err(e) => Err(e),
    }
}

/// An expression.
pub open spec fn expression(ts: Seq<TokenView>, pos: int) -> Parsed<ExprView>
    decreases remaining(ts, pos), 21nat,
{
    assignment(ts, pos)
}

/// An expression and the semicolon that ends it.
pub open spec fn terminated_expression(ts: Seq<TokenView>, pos: int) -> Parsed<ExprView>
    decreases remaining(ts, pos), 22nat,
{
    match expression(ts, pos) {
        Ok((value, n)) => if check(ts, pos + n, TokenType::Semicolon) {
            Ok((value, (n + 1) as nat))
        } else {
            Err(expected(ts, pos + n, TokenType::Semicolon))
        },
        Err(e) => Err(e),
    }
}

/// An expression statement.
pub open spec fn expression_statement(ts: Seq<TokenView>, pos: int) -> Parsed<StmtView>
    decreases remaining(ts, pos), 23nat,
{
    match terminated_expression(ts, pos) {
        Ok((value, n)) => Ok((StmtView::Expression(value), n)),
        Err(e) => Err(e),
    }
}

/// A print statement, behind `print`.
pub open spec fn print_statement(ts: Seq<TokenView>, pos: int) -> Parsed<StmtView>
    decreases remaining(ts, pos), 23nat,
{
    match terminated_expression(ts, pos) {
        Ok((value, n)) => Ok((StmtView::Print(value), n)),
        Err(e) => Err(e),
    }
}

/// A variable declaration, behind `var`: a name, an optional initializer
/// behind `=`, and a semicolon.
pub open spec fn var_declaration(ts: Seq<TokenView>, pos: int) -> Parsed<StmtView>
    decreases remaining(ts, pos), 30nat,
{
    if !check(ts, pos, TokenType::Identifier) {
        Err(expected(ts, pos, TokenType::Identifier))
    } else if check(ts, pos + 1, TokenType::Equal) {
        match expression(ts, pos + 2) {
            Ok((initializer, n)) => if check(ts, pos + 2 + n, TokenType::Semicolon) {
                Ok((StmtView::Var(ts[pos], Some(initializer)), (n + 3) as nat))
            } else {
                Err(expected(ts, pos + 2 + n, TokenType::Semicolon))
            },
            Err(e) => Err(e),
        }
    } else if check(ts, pos + 1, TokenType::Semicolon) {
        Ok((StmtView::Var(ts[pos], None), 2))
    } else {
        Err(expected(ts, pos + 1, TokenType::Semicolon))
    }
}

/// A while statement, behind `while`: a parenthesised condition and a body.
pub open spec fn while_statement(ts: Seq<TokenView>, pos: int) -> Parsed<StmtView>
    decreases remaining(ts, pos), 31nat,
{
    if !check(ts, pos, TokenType::LeftParen) {
        Err(expected(ts, pos, TokenType::LeftParen))
    } else {
        match expression(ts, pos + 1) {
            Ok((test, n)) => if !check(ts, pos + 1 + n, TokenType::RightParen) {
                Err(expected(ts, pos + 1 + n, TokenType::RightParen))
            } else {
                match statement(ts, pos + 2 + n) {
                    Ok((body, m)) => Ok(
                        (StmtView::While(test, Box::new(body)), (n + 2 + m) as nat),
                    ),
                    Err(e) => Err(e),
                }
            },
            Err(e) => Err(e),
        }
    }
}

/// The branches of an if statement on `test`, from `pos` on: a statement,
/// and another behind `else` if `else` follows. An `else` belongs to the
/// nearest `if`.
pub open spec fn branches(ts: Seq<TokenView>, pos: int, test: ExprView) -> Parsed<StmtView>
    decreases remaining(ts, pos), 41nat,
{
    match statement(ts, pos) {
        Ok((then_branch, m)) => if check(ts, pos + m, TokenType::Else) {
            match statement(ts, pos + m + 1) {
                Ok((else_branch, k)) => Ok(
                    (
                        StmtView::If(test, Box::new(then_branch), Some(Box::new(else_branch))),
                        (m + 1 + k) as nat,
                    ),
                ),
                Err(e) => Err(e),
            }
        } else {
            Ok((StmtView::If(test, Box::new(then_branch), None), m))
        },
        Err(e) => Err(e),
    }
}

/// An if statement, behind `if`: a parenthesised condition and the branches.
pub open spec fn if_statement(ts: Seq<TokenView>, pos: int) -> Parsed<StmtView>
    decreases remaining(ts, pos), 31nat,
{
    if !check(ts, pos, TokenType::LeftParen) {
        Err(expected(ts, pos, TokenType::LeftParen))
    } else {
        match expression(ts, pos + 1) {
            Ok((test, n)) => if !check(ts, pos + 1 + n, TokenType::RightParen) {
                Err(expected(ts, pos + 1 + n, TokenType::RightParen))
            } else {
                match branches(ts, pos + 2 + n, test) {
                    Ok((s, m)) => Ok((s, (n + 2 + m) as nat)),
                    Err(e) => Err(e),
                }
            },
            Err(e) => Err(e),
        }
    }
}

/// The initializer clause of a for statement: a lone semicolon, a variable
/// declaration or an expression statement.
pub open spec fn for_initializer(ts: Seq<TokenView>, pos: int) -> Parsed<Option<StmtView>>
    decreases remaining(ts, pos), 30nat,
{
    if check(ts, pos, TokenType::Semicolon) {
        Ok((None, 1))
    } else if check(ts, pos, TokenType::Var) {
        match var_declaration(ts, pos + 1) {
            Ok((declaration, n)) => Ok((Some(declaration), (n + 1) as nat)),
            Err(e) => Err(e),
        }
    } else {
        match expression_statement(ts, pos) {
            Ok((statement, n)) => Ok((Some(statement), n)),
            Err(e) => Err(e),
        }
    }
}

/// The condition clause of a for statement and its semicolon. A missing
/// condition is the literal `true`.
pub open spec fn for_condition(ts: Seq<TokenView>, pos: int) -> Parsed<ExprView>
    decreases remaining(ts, pos), 30nat,
{
    if check(ts, pos, TokenType::Semicolon) {
        Ok((ExprView::Literal(Some(Value::Boolean(true))), 1))
    } else {
        terminated_expression(ts, pos)
    }
}

/// The increment clause of a for statement and the closing parenthesis.
pub open spec fn for_increment(ts: Seq<TokenView>, pos: int) -> Parsed<Option<ExprView>>
    decreases remaining(ts, pos), 30nat,
{
    if check(ts, pos, TokenType::RightParen) {
        Ok((None, 1))
    } else {
        match expression(ts, pos) {
            Ok((increment, n)) => if check(ts, pos + n, TokenType::RightParen) {
                Ok((Some(increment), (n + 1) as nat))
            } else {
                Err(expected(ts, pos + n, TokenType::RightParen))
            },
            Err(e) => Err(e),
        }
    }
}

/// The statement that a for statement stands for: the body, followed by the
/// increment if there is one, is the body of a while loop on the condition;
/// with an initializer, the initializer and that loop make a block.
pub open spec fn desugar_for(
    initializer: Option<StmtView>,
    test: ExprView,
    increment: Option<ExprView>,
    body: StmtView,
) -> StmtView {
    let repeated = match increment {
        Some(e) => StmtView::Block(seq![body, StmtView::Expression(e)]),
        None => body,
    };
    let looping = StmtView::While(test, Box::new(repeated));
    match initializer {
        Some(first) => StmtView::Block(seq![first, looping]),
        None => looping,
    }
}

/// A for statement, behind `for`.
pub open spec fn for_statement(ts: Seq<TokenView>, pos: int) -> Parsed<StmtView>
    decreases remaining(ts, pos), 31nat,
{
    if !check(ts, pos, TokenType::LeftParen) {
        Err(expected(ts, pos, TokenType::LeftParen))
    } else {
        match for_initializer(ts, pos + 1) {
            Ok((initializer, a)) => match for_condition(ts, pos + 1 + a) {
                Ok((test, b)) => match for_increment(ts, pos + 1 + a + b) {
                    Ok((increment, c)) => match statement(ts, pos + 1 + a + b + c) {
                        Ok((body, d)) => Ok(
                            (
                                desugar_for(initializer, test, increment, body),
                                (1 + a + b + c + d) as nat,
                            ),
                        ),
                        Err(e) => Err(e),
                    },
                    Err(e) => Err(e),
                },
                Err(e) => Err(e),
            },
            Err(e) => Err(e),
        }
    }
}

/// A statement.
pub open spec fn statement(ts: Seq<TokenView>, pos: int) -> Parsed<StmtView>
    decreases remaining(ts, pos), 40nat,
{
    if check(ts, pos, TokenType::If) {
        match if_statement(ts, pos + 1) {
            Ok((s, n)) => Ok((s, (n + 1) as nat)),
            Err(e) => Err(e),
        }
    } else if check(ts, pos, TokenType::Print) {
        match print_statement(ts, pos + 1) {
            Ok((s, n)) => Ok((s, (n + 1) as nat)),
            Err(e) => Err(e),
        }
    } else if check(ts, pos, TokenType::While) {
        match while_statement(ts, pos + 1) {
            Ok((s, n)) => Ok((s, (n + 1) as nat)),
            Err(e) => Err(e),
        }
    } else if check(ts, pos, TokenType::For) {
        match for_statement(ts, pos + 1) {
            Ok((s, n)) => Ok((s, (n + 1) as nat)),
            Err(e) => Err(e),
        }
    } else if check(ts, pos, TokenType::LeftBrace) {
        match block(ts, pos + 1) {
            Ok((statements, n)) => Ok((StmtView::Block(statements), (n + 1) as nat)),
            Err(e) => Err(e),
        }
    } else {
        expression_statement(ts, pos)
    }
}

/// The parameters of a function from `pos` on, where a parameter must
/// stand, behind the `count` parameters in `before`. A function has at most
/// 255 parameters.
pub open spec fn parameters(
    ts: Seq<TokenView>,
    pos: int,
    before: Seq<TokenView>,
    consumed: nat,
) -> Parsed<Seq<TokenView>>
    decreases remaining(ts, pos), 30nat,
{
    if before.len() >= 255 {
        Err(unexpected(ts, pos, "Cannot have more than 255 parameters."@))
    } else if !check(ts, pos, TokenType::Identifier) {
        Err(expected(ts, pos, TokenType::Identifier))
    } else if check(ts, pos + 1, TokenType::Comma) {
        parameters(ts, pos + 2, before.push(ts[pos]), (consumed + 2) as nat)
    } else {
        Ok((before.push(ts[pos]), (consumed + 1) as nat))
    }
}

/// A function declaration, behind `fun`: a name, the parenthesised
/// parameters, and the body block.
pub open spec fn function(ts: Seq<TokenView>, pos: int) -> Parsed<StmtView>
    decreases remaining(ts, pos), 31nat,
{
    if !check(ts, pos, TokenType::Identifier) {
        Err(expected(ts, pos, TokenType::Identifier))
    } else if !check(ts, pos + 1, TokenType::LeftParen) {
        Err(expected(ts, pos + 1, TokenType::LeftParen))
    } else {
        let listed = if check(ts, pos + 2, TokenType::RightParen) {
            Ok((Seq::empty(), 0nat))
        } else {
            parameters(ts, pos + 2, Seq::empty(), 0)
        };
        match listed {
            Ok((names, n)) => if !check(ts, pos + 2 + n, TokenType::RightParen) {
                Err(expected(ts, pos + 2 + n, TokenType::RightParen))
            } else if !check(ts, pos + 3 + n, TokenType::LeftBrace) {
                Err(expected(ts, pos + 3 + n, TokenType::LeftBrace))
            } else {
                match block(ts, pos + 4 + n) {
                    Ok((body, m)) => Ok(
                        (StmtView::Function(ts[pos], names, body), (4 + n + m) as nat),
                    ),
                    Err(e) => Err(e),
                }
            },
            Err(e) => Err(e),
        }
    }
}

/// A declaration.
pub open spec fn declaration(ts: Seq<TokenView>, pos: int) -> Parsed<StmtView>
    decreases remaining(ts, pos), 41nat,
{
    if check(ts, pos, TokenType::Var) {
        match var_declaration(ts, pos + 1) {
            Ok((s, n)) => Ok((s, (n + 1) as nat)),
            Err(e) => Err(e),
        }
    } else if check(ts, pos, TokenType::Fun) {
        match function(ts, pos + 1) {
            Ok((s, n)) => Ok((s, (n + 1) as nat)),
            Err(e) => Err(e),
        }
    } else {
        statement(ts, pos)
    }
}

/// A declaration spans at least one token.
pub proof fn lemma_declaration_spans_a_token(ts: Seq<TokenView>, pos: int)
    ensures
        declaration(ts, pos) matches Ok((_, n)) ==> n >= 1,
{
    reveal_with_fuel(statement, 2);
}

/// The rest of a block from `pos` on, behind the statements in `before`,
/// which span `consumed` tokens: declarations up to the closing brace.
///
/// A declaration spans at least one token
/// ([`lemma_declaration_spans_a_token`]), so the branch for one that spans
/// none is never taken.
pub open spec fn block_rest(
    ts: Seq<TokenView>,
    pos: int,
    before: Seq<StmtView>,
    consumed: nat,
) -> Parsed<Seq<StmtView>>
    decreases remaining(ts, pos), 42nat,
{
    if !check(ts, pos, TokenType::RightBrace) && !at_end(ts, pos) {
        match declaration(ts, pos) {
            Ok((s, n)) => if n > 0 {
                block_rest(ts, pos + n, before.push(s), (consumed + n) as nat)
            } else {
                Err(ParseErrorView::EndOfFile)
            },
            Err(e) => Err(e),
        }
    } else if check(ts, pos, TokenType::RightBrace) {
        Ok((before, (consumed + 1) as nat))
    } else {
        Err(expected(ts, pos, TokenType::RightBrace))
    }
}

/// A block, behind `{`: declarations up to the closing brace.
pub open spec fn block(ts: Seq<TokenView>, pos: int) -> Parsed<Seq<StmtView>>
    decreases remaining(ts, pos), 43nat,
{
    block_rest(ts, pos, Seq::empty(), 0)
}

/// The rest of a program from `pos` on, behind the statements in `before`:
/// declarations up to the end of input.
pub open spec fn program_rest(
    ts: Seq<TokenView>,
    pos: int,
    before: Seq<StmtView>,
    consumed: nat,
) -> Parsed<Seq<StmtView>>
    decreases remaining(ts, pos), 42nat,
{
    if !at_end(ts, pos) {
        match declaration(ts, pos) {
            Ok((s, n)) => if n > 0 {
                program_rest(ts, pos + n, before.push(s), (consumed + n) as nat)
            } else {
                Err(ParseErrorView::EndOfFile)
            },
            Err(e) => Err(e),
        }
    } else {
        Ok((before, consumed))
    }
}

/// A program: declarations up to the end of input.
pub open spec fn program(ts: Seq<TokenView>, pos: int) -> Parsed<Seq<StmtView>> {
    program_rest(ts, pos, Seq::empty(), 0)
}

} // verus!
