//! What the parser builds is what the evaluator takes.
//!
//! The grammar has `this`, `super` and function declarations, which the
//! evaluator does not run. Every other tree that the grammar gives is one
//! that the evaluator takes: its unary and binary expressions have the
//! operators that the evaluator knows.

use crate::expr::ExprView;
use crate::grammar::{
    assignment, binary, binary_rest, block, block_rest, branches, check, declaration,
    desugar_for, expression, expression_statement, for_condition, for_increment, for_initializer,
    for_statement, function, if_statement, operand, primary, print_statement, program,
    program_rest, remaining, statement, terminated_expression, unary, var_declaration,
    while_statement, Level,
};
use crate::scanner::{TokenType, TokenView};
use crate::semantics::{
    all_supported, expr_supported, is_binary_operator, lemma_block_supported, stmt_supported,
};
use crate::stmt::StmtView;
use vstd::prelude::*;

verus! {

/// An expression without `this`, `super`, calls and properties.
pub open spec fn expr_classless(e: ExprView) -> bool
    decreases e,
{
    match e {
        ExprView::Literal(_) => true,
        ExprView::Grouping(inner) => expr_classless(*inner),
        ExprView::Unary(_, right) => expr_classless(*right),
        ExprView::Variable(_) => true,
        ExprView::Assignment(_, value) => expr_classless(*value),
        ExprView::Logical(left, _, right) => expr_classless(*left) && expr_classless(*right),
        ExprView::Binary(left, _, right) => expr_classless(*left) && expr_classless(*right),
        _ => false,
    }
}

/// A statement without function, return and class statements, whose
/// expressions are without `this`, `super`, calls and properties.
pub open spec fn stmt_classless(s: StmtView) -> bool
    decreases s,
{
    match s {
        StmtView::Expression(e) => expr_classless(e),
        StmtView::Print(e) => expr_classless(e),
        StmtView::Var(_, initializer) => match initializer {
            Some(e) => expr_classless(e),
            None => true,
        },
        StmtView::Block(statements) => forall|i: int|
            0 <= i < statements.len() ==> stmt_classless(#[trigger] statements[i]),
        StmtView::If(test, then_branch, else_branch) => expr_classless(test) && stmt_classless(
            *then_branch,
        ) && match else_branch {
            Some(s) => stmt_classless(*s),
            None => true,
        },
        StmtView::While(test, body) => expr_classless(test) && stmt_classless(*body),
        _ => false,
    }
}

/// The evaluator takes the expression, unless it has `this`, `super`, a call
/// or a property.
pub open spec fn expr_fits(e: ExprView) -> bool {
    expr_classless(e) ==> expr_supported(e)
}

/// The evaluator takes the statement, unless it has a function, return or
/// class statement, `this`, `super`, a call or a property.
pub open spec fn stmt_fits(s: StmtView) -> bool {
    stmt_classless(s) ==> stmt_supported(s)
}

/// The evaluator takes each of the statements that has none of these.
pub open spec fn all_fit(statements: Seq<StmtView>) -> bool {
    forall|i: int| 0 <= i < statements.len() ==> stmt_fits(#[trigger] statements[i])
}

/// A block of statements that fit fits.
proof fn lemma_block_fits(statements: Seq<StmtView>)
    requires
        all_fit(statements),
    ensures
        stmt_fits(StmtView::Block(statements)),
{
    reveal_with_fuel(stmt_classless, 2);
    let block = StmtView::Block(statements);
    assert(block->Block_0 == statements);
    if stmt_classless(block) {
        assert forall|i: int| 0 <= i < statements.len() implies stmt_supported(
            #[trigger] statements[i],
        ) by {
            assert(stmt_classless(block->Block_0[i]));
            assert(stmt_fits(statements[i]));
        }
        lemma_block_supported(statements);
    }
}

/// One more statement that fits.
proof fn lemma_push_fits(before: Seq<StmtView>, s: StmtView)
    requires
        all_fit(before),
        stmt_fits(s),
    ensures
        all_fit(before.push(s)),
{
    assert forall|i: int| 0 <= i < before.push(s).len() implies stmt_fits(
        #[trigger] before.push(s)[i],
    ) by {
        if i < before.len() {
            assert(before.push(s)[i] == before[i]);
        }
    }
}

/// Primary expressions fit.
proof fn lemma_primary_fits(ts: Seq<TokenView>, pos: int)
    ensures
        primary(ts, pos) matches Ok((e, _)) ==> expr_fits(e),
    decreases remaining(ts, pos), 0nat,
{
    if check(ts, pos, TokenType::LeftParen) {
        lemma_expression_fits(ts, pos + 1);
    }
}

/// Unary expressions fit: their operator is `!` or `-`.
proof fn lemma_unary_fits(ts: Seq<TokenView>, pos: int)
    ensures
        unary(ts, pos) matches Ok((e, _)) ==> expr_fits(e),
    decreases remaining(ts, pos), 1nat,
{
    if check(ts, pos, TokenType::Bang) || check(ts, pos, TokenType::Minus) {
        lemma_unary_fits(ts, pos + 1);
    } else {
        lemma_primary_fits(ts, pos);
    }
}

/// The operands of every level fit.
proof fn lemma_operand_fits(ts: Seq<TokenView>, pos: int, level: Level)
    ensures
        operand(ts, pos, level) matches Ok((e, _)) ==> expr_fits(e),
    decreases remaining(ts, pos), 3 * level.looseness() + 2,
{
    match level {
        Level::Factor => lemma_unary_fits(ts, pos),
        Level::Term => lemma_binary_fits(ts, pos, Level::Factor),
        Level::Comparison => lemma_binary_fits(ts, pos, Level::Term),
        Level::Equality => lemma_binary_fits(ts, pos, Level::Comparison),
        Level::And => lemma_binary_fits(ts, pos, Level::Equality),
        Level::Or => lemma_binary_fits(ts, pos, Level::And),
    }
}

/// A chain of operators of one level fits: each operator is one of that level.
proof fn lemma_binary_rest_fits(
    ts: Seq<TokenView>,
    pos: int,
    level: Level,
    left: ExprView,
    consumed: nat,
)
    requires
        expr_fits(left),
    ensures
        binary_rest(ts, pos, level, left, consumed) matches Ok((e, _)) ==> expr_fits(e),
    decreases remaining(ts, pos), 3 * level.looseness() + 3,
{
    if 0 <= pos < ts.len() && !crate::grammar::at_end(ts, pos) && level.owns(ts[pos].token_type) {
        lemma_operand_fits(ts, pos + 1, level);
        match operand(ts, pos + 1, level) {
            Ok((right, n)) => {
                let joined = level.combine(left, ts[pos], right);
                assert(expr_fits(joined)) by {
                    if level != Level::And && level != Level::Or {
                        assert(is_binary_operator(ts[pos].token_type));
                    }
                }
                lemma_binary_rest_fits(ts, pos + 1 + n, level, joined, (consumed + 1 + n) as nat);
            },
            Err(_) => {},
        }
    }
}

/// The expressions of every level fit.
proof fn lemma_binary_fits(ts: Seq<TokenView>, pos: int, level: Level)
    ensures
        binary(ts, pos, level) matches Ok((e, _)) ==> expr_fits(e),
    decreases remaining(ts, pos), 3 * level.looseness() + 4,
{
    lemma_operand_fits(ts, pos, level);
    match operand(ts, pos, level) {
        Ok((left, n)) => {
            lemma_binary_rest_fits(ts, pos + n, level, left, n);
        },
        Err(_) => {},
    }
}

/// Assignments fit.
proof fn lemma_assignment_fits(ts: Seq<TokenView>, pos: int)
    ensures
        assignment(ts, pos) matches Ok((e, _)) ==> expr_fits(e),
    decreases remaining(ts, pos), 20nat,
{
    lemma_binary_fits(ts, pos, Level::Or);
    match binary(ts, pos, Level::Or) {
        Ok((target, n)) => {
            if check(ts, pos + n, TokenType::Equal) {
                lemma_assignment_fits(ts, pos + n + 1);
            }
        },
        Err(_) => {},
    }
}

/// The parser builds expressions that the evaluator takes, `this`, `super`,
/// calls and properties apart.
pub proof fn lemma_expression_fits(ts: Seq<TokenView>, pos: int)
    ensures
        expression(ts, pos) matches Ok((e, _)) ==> expr_fits(e),
    decreases remaining(ts, pos), 21nat,
{
    lemma_assignment_fits(ts, pos);
}

/// Expression and print statements fit.
proof fn lemma_terminated_expression_fits(ts: Seq<TokenView>, pos: int)
    ensures
        terminated_expression(ts, pos) matches Ok((e, _)) ==> expr_fits(e),
        expression_statement(ts, pos) matches Ok((s, _)) ==> stmt_fits(s),
        print_statement(ts, pos) matches Ok((s, _)) ==> stmt_fits(s),
{
    lemma_expression_fits(ts, pos);
}

/// Variable declarations fit.
proof fn lemma_var_declaration_fits(ts: Seq<TokenView>, pos: int)
    ensures
        var_declaration(ts, pos) matches Ok((s, _)) ==> stmt_fits(s),
{
    lemma_expression_fits(ts, pos + 2);
}

/// The clauses of a for statement fit.
proof fn lemma_for_clauses_fit(ts: Seq<TokenView>, pos: int)
    ensures
        for_initializer(ts, pos) matches Ok((Some(s), _)) ==> stmt_fits(s),
        for_condition(ts, pos) matches Ok((e, _)) ==> expr_fits(e),
        for_increment(ts, pos) matches Ok((Some(e), _)) ==> expr_fits(e),
{
    lemma_var_declaration_fits(ts, pos + 1);
    lemma_terminated_expression_fits(ts, pos);
    lemma_expression_fits(ts, pos);
}

/// The loop that a for statement stands for fits if its parts do.
proof fn lemma_desugar_for_fits(
    initializer: Option<StmtView>,
    test: ExprView,
    increment: Option<ExprView>,
    body: StmtView,
)
    requires
        initializer matches Some(s) ==> stmt_fits(s),
        expr_fits(test),
        increment matches Some(e) ==> expr_fits(e),
        stmt_fits(body),
    ensures
        stmt_fits(desugar_for(initializer, test, increment, body)),
{
    let repeated = match increment {
        Some(e) => StmtView::Block(seq![body, StmtView::Expression(e)]),
        None => body,
    };
    if increment is Some {
        let both = seq![body, StmtView::Expression(increment->Some_0)];
        assert(all_fit(both)) by {
            assert forall|i: int| 0 <= i < both.len() implies stmt_fits(#[trigger] both[i]) by {
                if i == 0 {
                    assert(both[0] == body);
                } else {
                    assert(both[1] == StmtView::Expression(increment->Some_0));
                }
            }
        }
        lemma_block_fits(both);
    }
    let looping = StmtView::While(test, Box::new(repeated));
    assert(stmt_fits(looping));
    if initializer is Some {
        let both = seq![initializer->Some_0, looping];
        assert(all_fit(both)) by {
            assert forall|i: int| 0 <= i < both.len() implies stmt_fits(#[trigger] both[i]) by {
                if i == 0 {
                    assert(both[0] == initializer->Some_0);
                } else {
                    assert(both[1] == looping);
                }
            }
        }
        lemma_block_fits(both);
    }
}

/// While statements fit.
proof fn lemma_while_statement_fits(ts: Seq<TokenView>, pos: int)
    ensures
        while_statement(ts, pos) matches Ok((s, _)) ==> stmt_fits(s),
    decreases remaining(ts, pos), 31nat,
{
    if check(ts, pos, TokenType::LeftParen) {
        lemma_expression_fits(ts, pos + 1);
        match expression(ts, pos + 1) {
            Ok((test, n)) => {
                if check(ts, pos + 1 + n, TokenType::RightParen) {
                    lemma_statement_fits(ts, pos + 2 + n);
                }
            },
            Err(_) => {},
        }
    }
}

/// The branches of an if statement fit.
proof fn lemma_branches_fit(ts: Seq<TokenView>, pos: int, test: ExprView)
    requires
        expr_fits(test),
    ensures
        branches(ts, pos, test) matches Ok((s, _)) ==> stmt_fits(s),
    decreases remaining(ts, pos), 41nat,
{
    lemma_statement_fits(ts, pos);
    match statement(ts, pos) {
        Ok((then_branch, m)) => {
            if check(ts, pos + m, TokenType::Else) {
                lemma_statement_fits(ts, pos + m + 1);
            }
        },
        Err(_) => {},
    }
}

/// If statements fit.
proof fn lemma_if_statement_fits(ts: Seq<TokenView>, pos: int)
    ensures
        if_statement(ts, pos) matches Ok((s, _)) ==> stmt_fits(s),
    decreases remaining(ts, pos), 31nat,
{
    if check(ts, pos, TokenType::LeftParen) {
        lemma_expression_fits(ts, pos + 1);
        match expression(ts, pos + 1) {
            Ok((test, n)) => {
                if check(ts, pos + 1 + n, TokenType::RightParen) {
                    lemma_branches_fit(ts, pos + 2 + n, test);
                }
            },
            Err(_) => {},
        }
    }
}

/// For statements fit.
proof fn lemma_for_statement_fits(ts: Seq<TokenView>, pos: int)
    ensures
        for_statement(ts, pos) matches Ok((s, _)) ==> stmt_fits(s),
    decreases remaining(ts, pos), 31nat,
{
    if check(ts, pos, TokenType::LeftParen) {
        lemma_for_clauses_fit(ts, pos + 1);
        match for_initializer(ts, pos + 1) {
            Ok((initializer, a)) => {
                lemma_for_clauses_fit(ts, pos + 1 + a);
                match for_condition(ts, pos + 1 + a) {
                    Ok((test, b)) => {
                        lemma_for_clauses_fit(ts, pos + 1 + a + b);
                        match for_increment(ts, pos + 1 + a + b) {
                            Ok((increment, c)) => {
                                lemma_statement_fits(ts, pos + 1 + a + b + c);
                                match statement(ts, pos + 1 + a + b + c) {
                                    Ok((body, d)) => {
                                        lemma_desugar_for_fits(initializer, test, increment, body);
                                    },
                                    Err(_) => {},
                                }
                            },
                            Err(_) => {},
                        }
                    },
                    Err(_) => {},
                }
            },
            Err(_) => {},
        }
    }
}

/// Statements fit.
proof fn lemma_statement_fits(ts: Seq<TokenView>, pos: int)
    ensures
        statement(ts, pos) matches Ok((s, _)) ==> stmt_fits(s),
    decreases remaining(ts, pos), 40nat,
{
    if check(ts, pos, TokenType::If) {
        lemma_if_statement_fits(ts, pos + 1);
    } else if check(ts, pos, TokenType::Print) {
        lemma_terminated_expression_fits(ts, pos + 1);
    } else if check(ts, pos, TokenType::While) {
        lemma_while_statement_fits(ts, pos + 1);
    } else if check(ts, pos, TokenType::For) {
        lemma_for_statement_fits(ts, pos + 1);
    } else if check(ts, pos, TokenType::LeftBrace) {
        lemma_block_rest_fits(ts, pos + 1, Seq::empty(), 0);
        match block(ts, pos + 1) {
            Ok((statements, _)) => {
                lemma_block_fits(statements);
            },
            Err(_) => {},
        }
    } else {
        lemma_terminated_expression_fits(ts, pos);
    }
}

/// Declarations fit: a function declaration is none that the evaluator could be asked to take.
proof fn lemma_declaration_fits(ts: Seq<TokenView>, pos: int)
    ensures
        declaration(ts, pos) matches Ok((s, _)) ==> stmt_fits(s),
    decreases remaining(ts, pos), 41nat,
{
    if check(ts, pos, TokenType::Var) {
        lemma_var_declaration_fits(ts, pos + 1);
    } else if check(ts, pos, TokenType::Fun) {
        assert(function(ts, pos + 1) matches Ok((s, _)) ==> s is Function);
    } else {
        lemma_statement_fits(ts, pos);
    }
}

/// The statements of a block fit.
proof fn lemma_block_rest_fits(ts: Seq<TokenView>, pos: int, before: Seq<StmtView>, consumed: nat)
    requires
        all_fit(before),
    ensures
        block_rest(ts, pos, before, consumed) matches Ok((statements, _)) ==> all_fit(statements),
    decreases remaining(ts, pos), 42nat,
{
    if !check(ts, pos, TokenType::RightBrace) && !crate::grammar::at_end(ts, pos) {
        lemma_declaration_fits(ts, pos);
        match declaration(ts, pos) {
            Ok((s, n)) => {
                if n > 0 {
                    lemma_push_fits(before, s);
                    lemma_block_rest_fits(ts, pos + n, before.push(s), (consumed + n) as nat);
                }
            },
            Err(_) => {},
        }
    }
}

/// The statements of a program fit.
proof fn lemma_program_rest_fits(
    ts: Seq<TokenView>,
    pos: int,
    before: Seq<StmtView>,
    consumed: nat,
)
    requires
        all_fit(before),
    ensures
        program_rest(ts, pos, before, consumed) matches Ok((statements, _)) ==> all_fit(
            statements,
        ),
    decreases remaining(ts, pos),
{
    if !crate::grammar::at_end(ts, pos) {
        lemma_declaration_fits(ts, pos);
        match declaration(ts, pos) {
            Ok((s, n)) => {
                if n > 0 {
                    lemma_push_fits(before, s);
                    lemma_program_rest_fits(ts, pos + n, before.push(s), (consumed + n) as nat);
                }
            },
            Err(_) => {},
        }
    }
}

/// The evaluator takes every program that the parser builds and that has no
/// function, `this` or `super` in it.
pub proof fn lemma_parsed_programs_are_supported(ts: Seq<TokenView>, pos: int)
    requires
        program(ts, pos) is Ok,
        forall|i: int|
            0 <= i < program(ts, pos)->Ok_0.0.len() ==> stmt_classless(
                #[trigger] program(ts, pos)->Ok_0.0[i],
            ),
    ensures
        all_supported(program(ts, pos)->Ok_0.0),
{
    lemma_program_rest_fits(ts, pos, Seq::empty(), 0);
    let statements = program(ts, pos)->Ok_0.0;
    assert forall|i: int| 0 <= i < statements.len() implies stmt_supported(
        #[trigger] statements[i],
    ) by {
        assert(stmt_fits(statements[i]));
    }
}

} // verus!
