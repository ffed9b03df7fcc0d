//! What expressions evaluate to and what statements do, and that the
//! machine of [`crate::semantics`] computes it.
//!
//! [`value`] defines the value of an expression by recursion on the
//! expression, for a host whose arithmetic is given as a function.
//! [`lemma_machine_evaluates`] shows that the machine, driven by that host,
//! gets from "about to evaluate the expression" to "its value is on top of
//! the stack" (or to the error) in [`steps`] transitions.
//!
//! [`execution`] defines what a statement does: how it ends, how it leaves
//! the scopes, and what it prints. A loop need not end, so the definition
//! bounds the number of iterations of each loop and gives nothing for a
//! program that needs more. [`lemma_machine_executes`] shows that the
//! machine does what the definition says, for every bound under which the
//! program ends.

use crate::environment::{assigned, defined, entered, lookup, Scope};
use crate::expr::ExprView;
use crate::grammar::{check, expression, lemma_parenthesised, primary};
use crate::interpreter::RuntimeErrorView;
use crate::number::spec_negate;
use crate::scanner::{TokenType, TokenView, Value};
use crate::semantics::{
    all_supported, binary_outcome, display, expr_supported, failed, lemma_assigned_len,
    lemma_block_supported, settles, step, stmt_supported, truthy, ActionView, Arithmetic,
    EventView, FrameView, OutcomeView, State,
};
use crate::stmt::StmtView;
use vstd::prelude::*;

verus! {

/// A host, as the functions it computes.
pub struct Host {
    /// The result of arithmetic on two numbers.
    pub compute: spec_fn(Arithmetic, u64, u64) -> u64,
    /// The decimal rendering of a number.
    pub render: spec_fn(u64) -> Seq<char>,
}

/// What evaluating an expression gives: its value or an error, and the
/// scopes as the evaluation left them.
pub struct Evaluated {
    pub result: Result<Value, RuntimeErrorView>,
    pub scopes: Seq<Scope>,
}

/// What a unary operator makes of its operand: `-` negates a number, `!`
/// gives whether the operand is falsy.
pub open spec fn unary_result(operator: TokenView, v: Value) -> Result<Value, RuntimeErrorView> {
    if operator.token_type == TokenType::Minus {
        match v {
            Value::Number(n) => Ok(Value::Number(spec_negate(n))),
            _ => Err(RuntimeErrorView::UnexpectedType(operator, "Operand must be a number."@)),
        }
    } else {
        Ok(Value::Boolean(!truthy(v)))
    }
}

/// What a binary operator makes of its operands, with the arithmetic of
/// `host`.
pub open spec fn binary_result(operator: TokenView, left: Value, right: Value, host: Host) -> Result<
    Value,
    RuntimeErrorView,
> {
    match binary_outcome(operator, left, right) {
        OutcomeView::Value(v) => Ok(v),
        OutcomeView::Request(kind, a, b) => Ok(Value::Number((host.compute)(kind, a, b))),
        OutcomeView::Error(e) => Err(e),
    }
}

/// The value of an expression in `scopes`.
///
/// A literal is its value; a grouping is what it holds; a variable is
/// looked up; an assignment evaluates its right side, assigns it and is
/// that value; `and` and `or` evaluate the right operand only if the left
/// one does not settle the result, and are the value of the operand that
/// decided; a binary expression evaluates the left operand, then the right
/// one. The first error ends the evaluation.
pub open spec fn value(e: ExprView, scopes: Seq<Scope>, host: Host) -> Evaluated
    decreases e,
{
    match e {
        ExprView::Literal(literal) => Evaluated {
            result: Ok(
                match literal {
                    Some(v) => v,
                    None => Value::Nil,
                },
            ),
            scopes,
        },
        ExprView::Grouping(inner) => value(*inner, scopes, host),
        ExprView::Unary(operator, right) => {
            let r = value(*right, scopes, host);
            match r.result {
                Ok(v) => Evaluated { result: unary_result(operator, v), scopes: r.scopes },
                Err(_) => r,
            }
        },
        ExprView::Variable(name) => Evaluated {
            result: match lookup(scopes, name.lexeme) {
                Some(v) => Ok(v),
                None => Err(RuntimeErrorView::UndefinedVariable(name)),
            },
            scopes,
        },
        ExprView::Assignment(name, right) => {
            let r = value(*right, scopes, host);
            match r.result {
                Ok(v) => match lookup(r.scopes, name.lexeme) {
                    Some(_) => Evaluated {
                        result: Ok(v),
                        scopes: assigned(r.scopes, name.lexeme, v),
                    },
                    None => Evaluated {
                        result: Err(RuntimeErrorView::UndefinedVariable(name)),
                        scopes: r.scopes,
                    },
                },
                Err(_) => r,
            }
        },
        ExprView::Logical(left, operator, right) => {
            let l = value(*left, scopes, host);
            match l.result {
                Ok(v) => if settles(operator, v) {
                    l
                } else {
                    value(*right, l.scopes, host)
                },
                Err(_) => l,
            }
        },
        ExprView::Binary(left, operator, right) => {
            let l = value(*left, scopes, host);
            match l.result {
                Ok(a) => {
                    let r = value(*right, l.scopes, host);
                    match r.result {
                        Ok(b) => Evaluated {
                            result: binary_result(operator, a, b, host),
                            scopes: r.scopes,
                        },
                        Err(_) => r,
                    }
                },
                Err(_) => l,
            }
        },
        _ => Evaluated { result: Ok(Value::Nil), scopes },
    }
}

/// The number of transitions in which the machine evaluates an expression.
pub open spec fn steps(e: ExprView, scopes: Seq<Scope>, host: Host) -> nat
    decreases e,
{
    match e {
        ExprView::Grouping(inner) => 1 + steps(*inner, scopes, host),
        ExprView::Unary(operator, right) => {
            let r = value(*right, scopes, host);
            1 + steps(*right, scopes, host) + if r.result is Ok {
                1nat
            } else {
                0nat
            }
        },
        ExprView::Assignment(name, right) => {
            let r = value(*right, scopes, host);
            1 + steps(*right, scopes, host) + if r.result is Ok {
                1nat
            } else {
                0nat
            }
        },
        ExprView::Logical(left, operator, right) => {
            let l = value(*left, scopes, host);
            1 + steps(*left, scopes, host) + match l.result {
                Ok(v) => if settles(operator, v) {
                    1
                } else {
                    1 + steps(*right, l.scopes, host)
                },
                Err(_) => 0,
            }
        },
        ExprView::Binary(left, operator, right) => {
            let l = value(*left, scopes, host);
            1 + steps(*left, scopes, host) + match l.result {
                Ok(a) => {
                    let r = value(*right, l.scopes, host);
                    steps(*right, l.scopes, host) + match r.result {
                        Ok(b) => if binary_outcome(operator, a, b) is Request {
                            2nat
                        } else {
                            1nat
                        },
                        Err(_) => 0nat,
                    }
                },
                Err(_) => 0,
            }
        },
        _ => 1,
    }
}

/// A machine under way with its host: its state, the event that the host
/// hands to the next step, the lines printed so far, and the error that
/// ended the program, if one did.
pub struct Progress {
    pub state: State,
    pub event: EventView,
    pub output: Seq<Seq<char>>,
    pub error: Option<RuntimeErrorView>,
}

/// The event with which `host` answers an action.
pub open spec fn answer(action: ActionView, host: Host) -> EventView {
    match action {
        ActionView::Compute(kind, a, b) => EventView::Number((host.compute)(kind, a, b)),
        ActionView::Render(n) => EventView::Text((host.render)(n)),
        _ => EventView::Resume,
    }
}

/// One step of the machine and what `host` makes of its action.
pub open spec fn advance(p: Progress, host: Host) -> Progress {
    let (state, action) = step(p.state, p.event);
    Progress {
        state,
        event: answer(action, host),
        output: match action {
            ActionView::Print(line) => p.output.push(line),
            _ => p.output,
        },
        error: match action {
            ActionView::Finished(Err(e)) => Some(e),
            _ => p.error,
        },
    }
}

/// `n` steps of the machine with `host`.
pub open spec fn advance_by(p: Progress, host: Host, n: nat) -> Progress
    decreases n,
{
    if n == 0 {
        p
    } else {
        advance_by(advance(p, host), host, (n - 1) as nat)
    }
}

/// Where the machine is once it has evaluated the expression of its top
/// frame: the frame is gone and the value is on top of the stack, or the
/// program has ended with the error.
pub open spec fn landed(p: Progress, r: Evaluated) -> Progress {
    match r.result {
        Ok(v) => Progress {
            state: p.state.popped().with_scopes(r.scopes).push_value(v),
            event: EventView::Resume,
            ..p
        },
        Err(e) => Progress {
            state: failed(p.state.with_scopes(r.scopes), e).0,
            event: EventView::Resume,
            error: Some(e),
            ..p
        },
    }
}

/// Steps add up.
pub proof fn lemma_advance_by_add(p: Progress, host: Host, n: nat, m: nat)
    ensures
        advance_by(p, host, n + m) == advance_by(advance_by(p, host, n), host, m),
    decreases n,
{
    if n > 0 {
        lemma_advance_by_add(advance(p, host), host, (n - 1) as nat, m);
    }
}

/// One step is one step.
pub proof fn lemma_advance_by_one(p: Progress, host: Host)
    ensures
        advance_by(p, host, 1) == advance(p, host),
{
    reveal_with_fuel(advance_by, 2);
}

/// Pushing and taking undo each other.
pub proof fn lemma_stack(s: State, f: FrameView, v: Value, w: Value)
    ensures
        s.push(f).popped() == s,
        s.push(f).frames.last() == f,
        s.push(f).frames.len() > 0,
        s.push_value(v).drop_values(1) == s,
        s.push_value(v).top() == v,
        s.push_value(v).push_value(w).drop_values(2) == s,
        s.push_value(v).push_value(w).second() == v,
        s.push_value(v).push_value(w).top() == w,
{
    assert(s.push(f).frames.drop_last() =~= s.frames);
    assert(s.push_value(v).values.subrange(0, s.push_value(v).values.len() - 1) =~= s.values);
    let both = s.push_value(v).push_value(w);
    assert(both.values.subrange(0, both.values.len() - 2) =~= s.values);
}

/// Applying a binary operator: from a state with the operator's frame on
/// top of its two operands, one transition, or two if the host computes,
/// put the result in their place or end the program with the error.
pub proof fn lemma_machine_applies(
    q: Progress,
    operands: State,
    operator: TokenView,
    a: Value,
    b: Value,
    host: Host,
)
    requires
        q.state == operands.push_value(a).push_value(b).push(FrameView::Binary(operator)),
        q.event == EventView::Resume,
    ensures
        advance_by(
            q,
            host,
            if binary_outcome(operator, a, b) is Request {
                2
            } else {
                1
            },
        ) == (match binary_result(operator, a, b, host) {
            Ok(v) => Progress { state: operands.push_value(v), ..q },
            Err(e) => Progress { state: failed(operands, e).0, error: Some(e), ..q },
        }),
{
    lemma_stack(operands, FrameView::Binary(operator), a, b);
    lemma_stack(
        operands.push_value(a).push_value(b),
        FrameView::Binary(operator),
        Value::Nil,
        Value::Nil,
    );
    assert(q.state.popped().drop_values(2) == operands);
    let next = advance(q, host);
    lemma_advance_by_one(q, host);
    if binary_outcome(operator, a, b) is Request {
        lemma_advance_by_add(q, host, 1, 1);
        lemma_advance_by_one(next, host);
        assert(next.state == q.state);
    }
}

/// The machine evaluates expressions: from a state whose top frame is the
/// evaluation of `e`, `steps(e)` transitions with `host` lead to the state
/// that has the value of `e` on top of the stack and the scopes as the
/// evaluation left them, or, if the evaluation fails, to the end of the
/// program with its error. Nothing is printed on the way.
pub proof fn lemma_machine_evaluates(e: ExprView, p: Progress, host: Host)
    requires
        expr_supported(e),
        p.state.frames.len() > 0,
        p.state.frames.last() == FrameView::Evaluate(e),
    ensures
        advance_by(p, host, steps(e, p.state.scopes, host)) == landed(
            p,
            value(e, p.state.scopes, host),
        ),
    decreases e, 1nat,
{
    let s = p.state;
    let rest = s.popped();
    let scopes = s.scopes;
    let first = advance(p, host);
    let total = steps(e, scopes, host);
    assert(total >= 1);
    assert(advance_by(p, host, total) == advance_by(first, host, (total - 1) as nat));
    match e {
        ExprView::Literal(literal) => {
            assert(advance_by(first, host, 0) == first);
        },
        ExprView::Variable(name) => {
            assert(advance_by(first, host, 0) == first);
        },
        ExprView::Grouping(inner) => {
            lemma_stack(rest, FrameView::Evaluate(*inner), Value::Nil, Value::Nil);
            lemma_machine_evaluates(*inner, first, host);
        },
        ExprView::Unary(_, _) => {
            lemma_machine_evaluates_unary(e, p, host);
        },
        ExprView::Assignment(_, _) => {
            lemma_machine_evaluates_assignment(e, p, host);
        },
        ExprView::Logical(_, _, _) => {
            lemma_machine_evaluates_logical(e, p, host);
        },
        ExprView::Binary(_, _, _) => {
            lemma_machine_evaluates_binary(e, p, host);
        },
        _ => {},
    }
}

/// The machine evaluates unary expressions.
proof fn lemma_machine_evaluates_unary(e: ExprView, p: Progress, host: Host)
    requires
        e is Unary,
        expr_supported(e),
        p.state.frames.len() > 0,
        p.state.frames.last() == FrameView::Evaluate(e),
    ensures
        advance_by(p, host, steps(e, p.state.scopes, host)) == landed(
            p,
            value(e, p.state.scopes, host),
        ),
    decreases e, 0nat,
{
    let s = p.state;
    let rest = s.popped();
    let scopes = s.scopes;
    let first = advance(p, host);
    let total = steps(e, scopes, host);
    assert(total >= 1);
    assert(advance_by(p, host, total) == advance_by(first, host, (total - 1) as nat));
    match e {
        ExprView::Unary(operator, right) => {
            let pending = rest.push(FrameView::Unary(operator));
            lemma_stack(pending, FrameView::Evaluate(*right), Value::Nil, Value::Nil);
            lemma_stack(rest, FrameView::Unary(operator), Value::Nil, Value::Nil);
            lemma_machine_evaluates(*right, first, host);
            let r = value(*right, scopes, host);
            let n = steps(*right, scopes, host);
            let second = landed(first, r);
            match r.result {
                Ok(v) => {
                    lemma_advance_by_add(first, host, n, 1);
                    lemma_advance_by_one(second, host);
                    lemma_stack(rest.with_scopes(r.scopes), FrameView::Discard, v, Value::Nil);
                    assert(second.state.popped() == rest.with_scopes(r.scopes).push_value(v));
                    assert(advance(second, host) == landed(p, value(e, scopes, host)));
                },
                Err(_) => {},
            }
        },
        _ => {},
    }
}

/// The machine evaluates assignments.
proof fn lemma_machine_evaluates_assignment(e: ExprView, p: Progress, host: Host)
    requires
        e is Assignment,
        expr_supported(e),
        p.state.frames.len() > 0,
        p.state.frames.last() == FrameView::Evaluate(e),
    ensures
        advance_by(p, host, steps(e, p.state.scopes, host)) == landed(
            p,
            value(e, p.state.scopes, host),
        ),
    decreases e, 0nat,
{
    let s = p.state;
    let rest = s.popped();
    let scopes = s.scopes;
    let first = advance(p, host);
    let total = steps(e, scopes, host);
    assert(total >= 1);
    assert(advance_by(p, host, total) == advance_by(first, host, (total - 1) as nat));
    match e {
        ExprView::Assignment(name, right) => {
            let pending = rest.push(FrameView::Assign(name));
            lemma_stack(pending, FrameView::Evaluate(*right), Value::Nil, Value::Nil);
            lemma_stack(rest, FrameView::Assign(name), Value::Nil, Value::Nil);
            lemma_machine_evaluates(*right, first, host);
            let r = value(*right, scopes, host);
            let n = steps(*right, scopes, host);
            let second = landed(first, r);
            match r.result {
                Ok(v) => {
                    lemma_advance_by_add(first, host, n, 1);
                    lemma_advance_by_one(second, host);
                    lemma_stack(rest.with_scopes(r.scopes), FrameView::Discard, v, Value::Nil);
                    assert(second.state.popped() == rest.with_scopes(r.scopes).push_value(v));
                    assert(advance(second, host) == landed(p, value(e, scopes, host)));
                },
                Err(_) => {},
            }
        },
        _ => {},
    }
}

/// The machine evaluates `and` and `or`.
proof fn lemma_machine_evaluates_logical(e: ExprView, p: Progress, host: Host)
    requires
        e is Logical,
        expr_supported(e),
        p.state.frames.len() > 0,
        p.state.frames.last() == FrameView::Evaluate(e),
    ensures
        advance_by(p, host, steps(e, p.state.scopes, host)) == landed(
            p,
            value(e, p.state.scopes, host),
        ),
    decreases e, 0nat,
{
    let s = p.state;
    let rest = s.popped();
    let scopes = s.scopes;
    let first = advance(p, host);
    let total = steps(e, scopes, host);
    assert(total >= 1);
    assert(advance_by(p, host, total) == advance_by(first, host, (total - 1) as nat));
    match e {
        ExprView::Logical(left, operator, right) => {
            let pending = rest.push(FrameView::Logical(operator, *right));
            lemma_stack(pending, FrameView::Evaluate(*left), Value::Nil, Value::Nil);
            lemma_stack(rest, FrameView::Logical(operator, *right), Value::Nil, Value::Nil);
            lemma_machine_evaluates(*left, first, host);
            let l = value(*left, scopes, host);
            let n = steps(*left, scopes, host);
            let second = landed(first, l);
            match l.result {
                Ok(v) => {
                    lemma_stack(rest.with_scopes(l.scopes), FrameView::Discard, v, Value::Nil);
                    assert(second.state.popped() == rest.with_scopes(l.scopes).push_value(v));
                    let third = advance(second, host);
                    lemma_advance_by_one(second, host);
                    if settles(operator, v) {
                        lemma_advance_by_add(first, host, n, 1);
                        assert(third == landed(p, l));
                    } else {
                        let m = steps(*right, l.scopes, host);
                        lemma_advance_by_add(first, host, n, 1 + m);
                        lemma_advance_by_add(second, host, 1, m);
                        lemma_stack(
                            rest.with_scopes(l.scopes),
                            FrameView::Evaluate(*right),
                            Value::Nil,
                            Value::Nil,
                        );
                        assert(third.state == rest.with_scopes(l.scopes).push(
                            FrameView::Evaluate(*right),
                        ));
                        lemma_machine_evaluates(*right, third, host);
                        let r = value(*right, l.scopes, host);
                        assert(landed(third, r) == landed(p, r));
                    }
                },
                Err(_) => {},
            }
        },
        _ => {},
    }
}

/// The machine evaluates binary expressions.
proof fn lemma_machine_evaluates_binary(e: ExprView, p: Progress, host: Host)
    requires
        e is Binary,
        expr_supported(e),
        p.state.frames.len() > 0,
        p.state.frames.last() == FrameView::Evaluate(e),
    ensures
        advance_by(p, host, steps(e, p.state.scopes, host)) == landed(
            p,
            value(e, p.state.scopes, host),
        ),
    decreases e, 0nat,
{
    let s = p.state;
    let rest = s.popped();
    let scopes = s.scopes;
    let first = advance(p, host);
    let total = steps(e, scopes, host);
    assert(total >= 1);
    assert(advance_by(p, host, total) == advance_by(first, host, (total - 1) as nat));
    match e {
        ExprView::Binary(left, operator, right) => {
            let apply = rest.push(FrameView::Binary(operator));
            let then_right = apply.push(FrameView::Evaluate(*right));
            lemma_stack(then_right, FrameView::Evaluate(*left), Value::Nil, Value::Nil);
            lemma_stack(apply, FrameView::Evaluate(*right), Value::Nil, Value::Nil);
            lemma_stack(rest, FrameView::Binary(operator), Value::Nil, Value::Nil);
            lemma_machine_evaluates(*left, first, host);
            let l = value(*left, scopes, host);
            let n = steps(*left, scopes, host);
            let second = landed(first, l);
            match l.result {
                Ok(a) => {
                    let m = steps(*right, l.scopes, host);
                    let r = value(*right, l.scopes, host);
                    lemma_stack(
                        apply.with_scopes(l.scopes).push_value(a),
                        FrameView::Evaluate(*right),
                        Value::Nil,
                        Value::Nil,
                    );
                    assert(second.state == apply.with_scopes(l.scopes).push_value(a).push(
                        FrameView::Evaluate(*right),
                    ));
                    lemma_machine_evaluates(*right, second, host);
                    let third = landed(second, r);
                    match r.result {
                        Ok(b) => {
                            let operands = rest.with_scopes(r.scopes);
                            let k: nat = if binary_outcome(operator, a, b) is Request {
                                2
                            } else {
                                1
                            };
                            lemma_stack(apply.with_scopes(r.scopes), FrameView::Discard, a, b);
                            assert(third.state == operands.push_value(a).push_value(b).push(
                                FrameView::Binary(operator),
                            ));
                            lemma_machine_applies(third, operands, operator, a, b, host);
                            lemma_advance_by_add(first, host, n, m + k);
                            lemma_advance_by_add(second, host, m, k);
                        },
                        Err(_) => {
                            lemma_advance_by_add(first, host, n, m);
                            assert(third == landed(p, r));
                        },
                    }
                },
                Err(_) => {},
            }
        },
        _ => {},
    }
}

/// What executing statements gives: how they ended, the scopes as they left
/// them, and the lines they printed.
pub struct Executed {
    pub result: Result<(), RuntimeErrorView>,
    pub scopes: Seq<Scope>,
    pub output: Seq<Seq<char>>,
}

/// The end of statements that ran through and printed nothing.
pub open spec fn done(scopes: Seq<Scope>) -> Executed {
    Executed { result: Ok(()), scopes, output: Seq::empty() }
}

/// The end of a statement by an error, with nothing printed.
pub open spec fn stopped(e: RuntimeErrorView, scopes: Seq<Scope>) -> Executed {
    Executed { result: Err(e), scopes, output: Seq::empty() }
}

/// What follows `first`, with the lines of `first` in front.
pub open spec fn followed(first: Executed, rest: Option<Executed>) -> Option<Executed> {
    match rest {
        Some(x) => Some(Executed { output: first.output + x.output, ..x }),
        None => None,
    }
}

/// The line that prints a value: a number as `host` renders it, `nil`,
/// `true` or `false`, or the characters of a string.
pub open spec fn printed(v: Value, host: Host) -> Seq<char> {
    match v {
        Value::Number(n) => (host.render)(n),
        _ => display(v)->Some_0,
    }
}

/// What a statement does in `scopes`, if no loop takes more than `fuel`
/// iterations; `None` if one does.
///
/// An expression statement evaluates and drops its value; a print
/// statement prints it; a declaration binds the value of its initializer,
/// or `nil`; a block runs its statements in a new scope and closes that
/// scope, also after an error; an if statement runs the branch that its
/// condition selects. The first error ends the statement.
pub open spec fn execution(s: StmtView, scopes: Seq<Scope>, host: Host, fuel: nat) -> Option<
    Executed,
>
    decreases fuel, s, 0nat,
{
    match s {
        StmtView::Expression(e) => {
            let r = value(e, scopes, host);
            match r.result {
                Ok(_) => Some(done(r.scopes)),
                Err(error) => Some(stopped(error, r.scopes)),
            }
        },
        StmtView::Print(e) => {
            let r = value(e, scopes, host);
            match r.result {
                Ok(v) => Some(
                    Executed { result: Ok(()), scopes: r.scopes, output: seq![printed(v, host)] },
                ),
                Err(error) => Some(stopped(error, r.scopes)),
            }
        },
        StmtView::Var(name, initializer) => match initializer {
            Some(e) => {
                let r = value(e, scopes, host);
                match r.result {
                    Ok(v) => Some(done(defined(r.scopes, name.lexeme, v))),
                    Err(error) => Some(stopped(error, r.scopes)),
                }
            },
            None => Some(done(defined(scopes, name.lexeme, Value::Nil))),
        },
        StmtView::Block(statements) => match sequence(statements, entered(scopes), host, fuel) {
            Some(x) => Some(Executed { scopes: x.scopes.drop_first(), ..x }),
            None => None,
        },
        StmtView::If(test, then_branch, else_branch) => {
            let r = value(test, scopes, host);
            match r.result {
                Ok(v) => if truthy(v) {
                    execution(*then_branch, r.scopes, host, fuel)
                } else {
                    match else_branch {
                        Some(b) => execution(*b, r.scopes, host, fuel),
                        None => Some(done(r.scopes)),
                    }
                },
                Err(error) => Some(stopped(error, r.scopes)),
            }
        },
        StmtView::While(test, body) => iteration(test, *body, scopes, host, fuel),
        _ => Some(done(scopes)),
    }
}

/// What a loop does from the evaluation of its condition on: as long as the
/// condition is truthy, the body runs and the condition is evaluated again.
pub open spec fn iteration(
    test: ExprView,
    body: StmtView,
    scopes: Seq<Scope>,
    host: Host,
    fuel: nat,
) -> Option<Executed>
    decreases fuel, body, 1nat,
{
    if fuel == 0 {
        None
    } else {
        let r = value(test, scopes, host);
        match r.result {
            Ok(v) => if truthy(v) {
                match execution(body, r.scopes, host, fuel) {
                    Some(x) => match x.result {
                        Ok(_) => followed(
                            x,
                            iteration(test, body, x.scopes, host, (fuel - 1) as nat),
                        ),
                        Err(_) => Some(x),
                    },
                    None => None,
                }
            } else {
                Some(done(r.scopes))
            },
            Err(error) => Some(stopped(error, r.scopes)),
        }
    }
}

/// What statements do one after the other. The first error ends them.
pub open spec fn sequence(statements: Seq<StmtView>, scopes: Seq<Scope>, host: Host, fuel: nat) -> Option<
    Executed,
>
    decreases fuel, statements, 0nat,
{
    if statements.len() == 0 {
        Some(done(scopes))
    } else {
        match execution(statements[0], scopes, host, fuel) {
            Some(x) => match x.result {
                Ok(_) => followed(x, sequence(statements.drop_first(), x.scopes, host, fuel)),
                Err(_) => Some(x),
            },
            None => None,
        }
    }
}

/// The bound on the iterations is only a bound: what a statement does under
/// one bound it does under every larger one.
pub proof fn lemma_more_fuel(s: StmtView, scopes: Seq<Scope>, host: Host, fuel: nat, more: nat)
    requires
        execution(s, scopes, host, fuel) is Some,
        fuel <= more,
    ensures
        execution(s, scopes, host, more) == execution(s, scopes, host, fuel),
    decreases fuel, s, 0nat,
{
    match s {
        StmtView::Block(statements) => {
            lemma_more_fuel_sequence(statements, entered(scopes), host, fuel, more);
        },
        StmtView::If(test, then_branch, else_branch) => {
            let r = value(test, scopes, host);
            match r.result {
                Ok(v) => {
                    if truthy(v) {
                        lemma_more_fuel(*then_branch, r.scopes, host, fuel, more);
                    } else if else_branch is Some {
                        lemma_more_fuel(*else_branch->Some_0, r.scopes, host, fuel, more);
                    }
                },
                Err(_) => {},
            }
        },
        StmtView::While(test, body) => {
            lemma_more_fuel_iteration(test, *body, scopes, host, fuel, more);
        },
        _ => {},
    }
}

/// What a loop does under one bound it does under every larger one.
pub proof fn lemma_more_fuel_iteration(
    test: ExprView,
    body: StmtView,
    scopes: Seq<Scope>,
    host: Host,
    fuel: nat,
    more: nat,
)
    requires
        iteration(test, body, scopes, host, fuel) is Some,
        fuel <= more,
    ensures
        iteration(test, body, scopes, host, more) == iteration(test, body, scopes, host, fuel),
    decreases fuel, body, 1nat,
{
    let r = value(test, scopes, host);
    match r.result {
        Ok(v) => {
            if truthy(v) {
                lemma_more_fuel(body, r.scopes, host, fuel, more);
                let x = execution(body, r.scopes, host, fuel)->Some_0;
                if x.result is Ok {
                    lemma_more_fuel_iteration(
                        test,
                        body,
                        x.scopes,
                        host,
                        (fuel - 1) as nat,
                        (more - 1) as nat,
                    );
                }
            }
        },
        Err(_) => {},
    }
}

/// What statements do under one bound they do under every larger one.
pub proof fn lemma_more_fuel_sequence(
    statements: Seq<StmtView>,
    scopes: Seq<Scope>,
    host: Host,
    fuel: nat,
    more: nat,
)
    requires
        sequence(statements, scopes, host, fuel) is Some,
        fuel <= more,
    ensures
        sequence(statements, scopes, host, more) == sequence(statements, scopes, host, fuel),
    decreases fuel, statements, 0nat,
{
    if statements.len() > 0 {
        lemma_more_fuel(statements[0], scopes, host, fuel, more);
        let x = execution(statements[0], scopes, host, fuel)->Some_0;
        if x.result is Ok {
            lemma_more_fuel_sequence(statements.drop_first(), x.scopes, host, fuel, more);
        }
    }
}

/// Evaluating an expression opens and closes no scope.
pub proof fn lemma_value_keeps_depth(e: ExprView, scopes: Seq<Scope>, host: Host)
    ensures
        value(e, scopes, host).scopes.len() == scopes.len(),
    decreases e,
{
    match e {
        ExprView::Grouping(inner) => {
            lemma_value_keeps_depth(*inner, scopes, host);
        },
        ExprView::Unary(_, right) => {
            lemma_value_keeps_depth(*right, scopes, host);
        },
        ExprView::Assignment(name, right) => {
            lemma_value_keeps_depth(*right, scopes, host);
            let r = value(*right, scopes, host);
            if r.result is Ok {
                lemma_assigned_len(r.scopes, name.lexeme, r.result->Ok_0);
            }
        },
        ExprView::Logical(left, _, right) => {
            lemma_value_keeps_depth(*left, scopes, host);
            lemma_value_keeps_depth(*right, value(*left, scopes, host).scopes, host);
        },
        ExprView::Binary(left, _, right) => {
            lemma_value_keeps_depth(*left, scopes, host);
            lemma_value_keeps_depth(*right, value(*left, scopes, host).scopes, host);
        },
        _ => {},
    }
}

/// A statement leaves as many scopes as it found, however it ends: every
/// scope that a block opens is closed again.
pub proof fn lemma_execution_keeps_depth(s: StmtView, scopes: Seq<Scope>, host: Host, fuel: nat)
    requires
        scopes.len() >= 1,
        execution(s, scopes, host, fuel) is Some,
    ensures
        execution(s, scopes, host, fuel)->Some_0.scopes.len() == scopes.len(),
    decreases fuel, s, 0nat,
{
    match s {
        StmtView::Expression(e) => {
            lemma_value_keeps_depth(e, scopes, host);
        },
        StmtView::Print(e) => {
            lemma_value_keeps_depth(e, scopes, host);
        },
        StmtView::Var(name, initializer) => {
            if initializer is Some {
                lemma_value_keeps_depth(initializer->Some_0, scopes, host);
            }
        },
        StmtView::Block(statements) => {
            lemma_sequence_keeps_depth(statements, entered(scopes), host, fuel);
        },
        StmtView::If(test, then_branch, else_branch) => {
            lemma_value_keeps_depth(test, scopes, host);
            let r = value(test, scopes, host);
            match r.result {
                Ok(v) => {
                    if truthy(v) {
                        lemma_execution_keeps_depth(*then_branch, r.scopes, host, fuel);
                    } else if else_branch is Some {
                        lemma_execution_keeps_depth(*else_branch->Some_0, r.scopes, host, fuel);
                    }
                },
                Err(_) => {},
            }
        },
        StmtView::While(test, body) => {
            lemma_iteration_keeps_depth(test, *body, scopes, host, fuel);
        },
        _ => {},
    }
}

/// A loop leaves as many scopes as it found.
pub proof fn lemma_iteration_keeps_depth(
    test: ExprView,
    body: StmtView,
    scopes: Seq<Scope>,
    host: Host,
    fuel: nat,
)
    requires
        scopes.len() >= 1,
        iteration(test, body, scopes, host, fuel) is Some,
    ensures
        iteration(test, body, scopes, host, fuel)->Some_0.scopes.len() == scopes.len(),
    decreases fuel, body, 1nat,
{
    lemma_value_keeps_depth(test, scopes, host);
    let r = value(test, scopes, host);
    match r.result {
        Ok(v) => {
            if truthy(v) {
                lemma_execution_keeps_depth(body, r.scopes, host, fuel);
                let x = execution(body, r.scopes, host, fuel)->Some_0;
                if x.result is Ok {
                    lemma_iteration_keeps_depth(test, body, x.scopes, host, (fuel - 1) as nat);
                }
            }
        },
        Err(_) => {},
    }
}

/// Statements leave as many scopes as they found.
pub proof fn lemma_sequence_keeps_depth(
    statements: Seq<StmtView>,
    scopes: Seq<Scope>,
    host: Host,
    fuel: nat,
)
    requires
        scopes.len() >= 1,
        sequence(statements, scopes, host, fuel) is Some,
    ensures
        sequence(statements, scopes, host, fuel)->Some_0.scopes.len() == scopes.len(),
    decreases fuel, statements, 0nat,
{
    if statements.len() > 0 {
        lemma_execution_keeps_depth(statements[0], scopes, host, fuel);
        let x = execution(statements[0], scopes, host, fuel)->Some_0;
        if x.result is Ok {
            lemma_sequence_keeps_depth(statements.drop_first(), x.scopes, host, fuel);
        }
    }
}

/// Two chains of scopes hold the same names, scope by scope.
pub open spec fn same_names(after: Seq<Scope>, before: Seq<Scope>) -> bool {
    &&& after.len() == before.len()
    &&& forall|i: int| 0 <= i < before.len() ==> (#[trigger] after[i]).dom() == before[i].dom()
}

/// Two chains of scopes hold the same names in every scope around the
/// innermost one.
pub open spec fn same_outer_names(after: Seq<Scope>, before: Seq<Scope>) -> bool {
    &&& after.len() == before.len()
    &&& forall|i: int| 1 <= i < before.len() ==> (#[trigger] after[i]).dom() == before[i].dom()
}

/// An assignment declares nothing: every scope holds the names it held.
pub proof fn lemma_assigned_keeps_names(scopes: Seq<Scope>, name: Seq<char>, v: Value)
    ensures
        same_names(assigned(scopes, name, v), scopes),
    decreases scopes.len(),
{
    if scopes.len() > 0 {
        if scopes[0].dom().contains(name) {
            assert(scopes[0].insert(name, v).dom() =~= scopes[0].dom());
        } else {
            lemma_assigned_keeps_names(scopes.drop_first(), name, v);
            let changed = assigned(scopes, name, v);
            assert forall|i: int| 0 <= i < scopes.len() implies (#[trigger] changed[i]).dom()
                == scopes[i].dom() by {
                if i > 0 {
                    assert(changed[i] == assigned(scopes.drop_first(), name, v)[i - 1]);
                    assert(scopes[i] == scopes.drop_first()[i - 1]);
                }
            }
        }
    }
}

/// Evaluating an expression declares nothing: every scope holds the names
/// it held.
pub proof fn lemma_value_keeps_names(e: ExprView, scopes: Seq<Scope>, host: Host)
    ensures
        same_names(value(e, scopes, host).scopes, scopes),
    decreases e,
{
    match e {
        ExprView::Grouping(inner) => {
            lemma_value_keeps_names(*inner, scopes, host);
        },
        ExprView::Unary(_, right) => {
            lemma_value_keeps_names(*right, scopes, host);
        },
        ExprView::Assignment(name, right) => {
            lemma_value_keeps_names(*right, scopes, host);
            let r = value(*right, scopes, host);
            if r.result is Ok {
                lemma_assigned_keeps_names(r.scopes, name.lexeme, r.result->Ok_0);
            }
        },
        ExprView::Logical(left, _, right) => {
            lemma_value_keeps_names(*left, scopes, host);
            lemma_value_keeps_names(*right, value(*left, scopes, host).scopes, host);
        },
        ExprView::Binary(left, _, right) => {
            lemma_value_keeps_names(*left, scopes, host);
            lemma_value_keeps_names(*right, value(*left, scopes, host).scopes, host);
        },
        _ => {},
    }
}

/// A statement declares names in the innermost scope only, and a block
/// declares none that outlives it: behind a block every scope holds the
/// names it held in front of it, however the block ends.
pub proof fn lemma_execution_keeps_names(s: StmtView, scopes: Seq<Scope>, host: Host, fuel: nat)
    requires
        scopes.len() >= 1,
        execution(s, scopes, host, fuel) is Some,
    ensures
        same_outer_names(execution(s, scopes, host, fuel)->Some_0.scopes, scopes),
        s is Block ==> same_names(execution(s, scopes, host, fuel)->Some_0.scopes, scopes),
    decreases fuel, s, 0nat,
{
    match s {
        StmtView::Expression(e) => {
            lemma_value_keeps_names(e, scopes, host);
        },
        StmtView::Print(e) => {
            lemma_value_keeps_names(e, scopes, host);
        },
        StmtView::Var(name, initializer) => {
            if initializer is Some {
                lemma_value_keeps_names(initializer->Some_0, scopes, host);
            }
        },
        StmtView::Block(statements) => {
            lemma_sequence_keeps_names(statements, entered(scopes), host, fuel);
            let x = sequence(statements, entered(scopes), host, fuel)->Some_0;
            let after = x.scopes.drop_first();
            assert forall|i: int| 0 <= i < scopes.len() implies (#[trigger] after[i]).dom()
                == scopes[i].dom() by {
                assert(after[i] == x.scopes[i + 1]);
                assert(entered(scopes)[i + 1] == scopes[i]);
            }
        },
        StmtView::If(test, then_branch, else_branch) => {
            lemma_value_keeps_names(test, scopes, host);
            let r = value(test, scopes, host);
            match r.result {
                Ok(v) => {
                    if truthy(v) {
                        lemma_execution_keeps_names(*then_branch, r.scopes, host, fuel);
                    } else if else_branch is Some {
                        lemma_execution_keeps_names(*else_branch->Some_0, r.scopes, host, fuel);
                    }
                },
                Err(_) => {},
            }
        },
        StmtView::While(test, body) => {
            lemma_iteration_keeps_names(test, *body, scopes, host, fuel);
        },
        _ => {},
    }
}

/// A loop declares names in the innermost scope only.
pub proof fn lemma_iteration_keeps_names(
    test: ExprView,
    body: StmtView,
    scopes: Seq<Scope>,
    host: Host,
    fuel: nat,
)
    requires
        scopes.len() >= 1,
        iteration(test, body, scopes, host, fuel) is Some,
    ensures
        same_outer_names(iteration(test, body, scopes, host, fuel)->Some_0.scopes, scopes),
    decreases fuel, body, 1nat,
{
    lemma_value_keeps_names(test, scopes, host);
    let r = value(test, scopes, host);
    match r.result {
        Ok(v) => {
            if truthy(v) {
                lemma_execution_keeps_names(body, r.scopes, host, fuel);
                let x = execution(body, r.scopes, host, fuel)->Some_0;
                if x.result is Ok {
                    lemma_iteration_keeps_names(test, body, x.scopes, host, (fuel - 1) as nat);
                }
            }
        },
        Err(_) => {},
    }
}

/// Statements declare names in the innermost scope only.
pub proof fn lemma_sequence_keeps_names(
    statements: Seq<StmtView>,
    scopes: Seq<Scope>,
    host: Host,
    fuel: nat,
)
    requires
        scopes.len() >= 1,
        sequence(statements, scopes, host, fuel) is Some,
    ensures
        same_outer_names(sequence(statements, scopes, host, fuel)->Some_0.scopes, scopes),
    decreases fuel, statements, 0nat,
{
    if statements.len() > 0 {
        lemma_execution_keeps_names(statements[0], scopes, host, fuel);
        let x = execution(statements[0], scopes, host, fuel)->Some_0;
        if x.result is Ok {
            lemma_sequence_keeps_names(statements.drop_first(), x.scopes, host, fuel);
        }
    }
}

/// Where the machine is once the statements that it was about to execute
/// are done: `base` is the state without their frames, and the scopes and
/// the output are as the statements left them; or the program has ended with
/// their error.
pub open spec fn finished(base: State, p: Progress, x: Executed) -> Progress {
    match x.result {
        Ok(_) => Progress {
            state: base.with_scopes(x.scopes),
            event: EventView::Resume,
            output: p.output + x.output,
            error: p.error,
        },
        Err(e) => Progress {
            state: failed(base.with_scopes(x.scopes), e).0,
            event: EventView::Resume,
            output: p.output + x.output,
            error: Some(e),
        },
    }
}

/// The machine executes statements: from a state whose top frame is the
/// execution of `s`, some number of transitions with `host` lead to the
/// state that `s` leaves behind, with the lines of `s` printed; or, if `s`
/// fails, to the end of the program with its error. This holds whenever no
/// loop of `s` takes more than `fuel` iterations, for every `fuel`.
#[verifier::rlimit(40)]
pub proof fn lemma_machine_executes(s: StmtView, p: Progress, host: Host, fuel: nat) -> (n: nat)
    requires
        stmt_supported(s),
        p.state.frames.len() > 0,
        p.state.frames.last() == FrameView::Execute(s),
        p.state.scopes.len() >= 1,
        execution(s, p.state.scopes, host, fuel) is Some,
    ensures
        advance_by(p, host, n) == finished(
            p.state.popped(),
            p,
            execution(s, p.state.scopes, host, fuel)->Some_0,
        ),
    decreases fuel, s, 0nat,
{
    let rest = p.state.popped();
    let scopes = p.state.scopes;
    let first = advance(p, host);
    let x = execution(s, scopes, host, fuel)->Some_0;
    let goal = finished(rest, p, x);
    lemma_advance_by_one(p, host);
    assert(p.output + Seq::<Seq<char>>::empty() =~= p.output);
    match s {
        StmtView::Expression(e) => {
            let pending = rest.push(FrameView::Discard);
            lemma_stack(pending, FrameView::Evaluate(e), Value::Nil, Value::Nil);
            lemma_stack(rest, FrameView::Discard, Value::Nil, Value::Nil);
            lemma_machine_evaluates(e, first, host);
            let r = value(e, scopes, host);
            let k = steps(e, scopes, host);
            let second = landed(first, r);
            lemma_advance_by_add(p, host, 1, k);
            match r.result {
                Ok(v) => {
                    lemma_stack(rest.with_scopes(r.scopes), FrameView::Discard, v, Value::Nil);
                    assert(second.state == rest.with_scopes(r.scopes).push_value(v).push(
                        FrameView::Discard,
                    ));
                    lemma_advance_by_add(p, host, 1 + k, 1);
                    lemma_advance_by_one(second, host);
                    assert(advance(second, host) == goal);
                    1 + k + 1
                },
                Err(_) => {
                    assert(second == goal);
                    1 + k
                },
            }
        },
        StmtView::Print(e) => {
            let pending = rest.push(FrameView::Print);
            lemma_stack(pending, FrameView::Evaluate(e), Value::Nil, Value::Nil);
            lemma_stack(rest, FrameView::Print, Value::Nil, Value::Nil);
            lemma_machine_evaluates(e, first, host);
            let r = value(e, scopes, host);
            let k = steps(e, scopes, host);
            let second = landed(first, r);
            lemma_advance_by_add(p, host, 1, k);
            match r.result {
                Ok(v) => {
                    lemma_stack(rest.with_scopes(r.scopes), FrameView::Print, v, Value::Nil);
                    assert(second.state == rest.with_scopes(r.scopes).push_value(v).push(
                        FrameView::Print,
                    ));
                    assert(second.state.popped().drop_values(1) == rest.with_scopes(r.scopes));
                    assert(p.output.push(printed(v, host)) =~= p.output + seq![printed(v, host)]);
                    lemma_advance_by_add(p, host, 1 + k, 1);
                    lemma_advance_by_one(second, host);
                    let third = advance(second, host);
                    if v is Number {
                        lemma_advance_by_add(p, host, 1 + k + 1, 1);
                        lemma_advance_by_one(third, host);
                        assert(third.state == second.state);
                        assert(advance(third, host) == goal);
                        1 + k + 2
                    } else {
                        assert(third == goal);
                        1 + k + 1
                    }
                },
                Err(_) => {
                    assert(second == goal);
                    1 + k
                },
            }
        },
        StmtView::Var(name, initializer) => {
            match initializer {
                Some(e) => {
                    let pending = rest.push(FrameView::Define(name));
                    lemma_stack(pending, FrameView::Evaluate(e), Value::Nil, Value::Nil);
                    lemma_stack(rest, FrameView::Define(name), Value::Nil, Value::Nil);
                    lemma_machine_evaluates(e, first, host);
                    let r = value(e, scopes, host);
                    let k = steps(e, scopes, host);
                    let second = landed(first, r);
                    lemma_advance_by_add(p, host, 1, k);
                    match r.result {
                        Ok(v) => {
                            lemma_stack(
                                rest.with_scopes(r.scopes),
                                FrameView::Define(name),
                                v,
                                Value::Nil,
                            );
                            assert(second.state == rest.with_scopes(r.scopes).push_value(v).push(
                                FrameView::Define(name),
                            ));
                            assert(second.state.popped().drop_values(1) == rest.with_scopes(
                                r.scopes,
                            ));
                            lemma_advance_by_add(p, host, 1 + k, 1);
                            lemma_advance_by_one(second, host);
                            assert(advance(second, host) == goal);
                            1 + k + 1
                        },
                        Err(_) => {
                            assert(second == goal);
                            1 + k
                        },
                    }
                },
                None => {
                    assert(first == goal);
                    1
                },
            }
        },
        StmtView::Block(statements) => {
            lemma_block_supported(statements);
            let inside = rest.with_scopes(entered(scopes));
            let closing = inside.push(FrameView::Leave);
            lemma_stack(closing, FrameView::Sequence(statements), Value::Nil, Value::Nil);
            lemma_stack(inside, FrameView::Leave, Value::Nil, Value::Nil);
            assert(first.state == closing.push(FrameView::Sequence(statements)));
            let k = lemma_machine_runs(statements, first, host, fuel);
            let y = sequence(statements, entered(scopes), host, fuel)->Some_0;
            lemma_sequence_keeps_depth(statements, entered(scopes), host, fuel);
            let second = finished(closing, first, y);
            lemma_advance_by_add(p, host, 1, k);
            match y.result {
                Ok(_) => {
                    lemma_stack(
                        rest.with_scopes(y.scopes),
                        FrameView::Leave,
                        Value::Nil,
                        Value::Nil,
                    );
                    assert(second.state == rest.with_scopes(y.scopes).push(FrameView::Leave));
                    lemma_advance_by_add(p, host, 1 + k, 1);
                    lemma_advance_by_one(second, host);
                    assert(advance(second, host) == goal);
                    1 + k + 1
                },
                Err(e) => {
                    assert(y.scopes.drop_first().subrange(
                        y.scopes.drop_first().len() - 1,
                        y.scopes.drop_first().len() as int,
                    ) =~= y.scopes.subrange(y.scopes.len() - 1, y.scopes.len() as int));
                    assert(second == goal);
                    1 + k
                },
            }
        },
        StmtView::If(test, then_branch, else_branch) => {
            let branch = FrameView::Branch(
                *then_branch,
                match else_branch {
                    Some(b) => Some(*b),
                    None => None,
                },
            );
            let pending = rest.push(branch);
            lemma_stack(pending, FrameView::Evaluate(test), Value::Nil, Value::Nil);
            lemma_stack(rest, branch, Value::Nil, Value::Nil);
            lemma_machine_evaluates(test, first, host);
            lemma_value_keeps_depth(test, scopes, host);
            let r = value(test, scopes, host);
            let k = steps(test, scopes, host);
            let second = landed(first, r);
            lemma_advance_by_add(p, host, 1, k);
            match r.result {
                Ok(v) => {
                    let decided = rest.with_scopes(r.scopes);
                    lemma_stack(decided, branch, v, Value::Nil);
                    assert(second.state == decided.push_value(v).push(branch));
                    assert(second.state.popped().drop_values(1) == decided);
                    lemma_advance_by_add(p, host, 1 + k, 1);
                    lemma_advance_by_one(second, host);
                    let third = advance(second, host);
                    if truthy(v) {
                        lemma_stack(
                            decided,
                            FrameView::Execute(*then_branch),
                            Value::Nil,
                            Value::Nil,
                        );
                        let m = lemma_machine_executes(*then_branch, third, host, fuel);
                        lemma_advance_by_add(p, host, 1 + k + 1, m);
                        assert(finished(decided, third, x) == goal);
                        1 + k + 1 + m
                    } else {
                        match else_branch {
                            Some(b) => {
                                lemma_stack(
                                    decided,
                                    FrameView::Execute(*b),
                                    Value::Nil,
                                    Value::Nil,
                                );
                                let m = lemma_machine_executes(*b, third, host, fuel);
                                lemma_advance_by_add(p, host, 1 + k + 1, m);
                                assert(finished(decided, third, x) == goal);
                                1 + k + 1 + m
                            },
                            None => {
                                assert(third == goal);
                                1 + k + 1
                            },
                        }
                    }
                },
                Err(_) => {
                    assert(second == goal);
                    1 + k
                },
            }
        },
        StmtView::While(test, body) => {
            let looping = rest.push(FrameView::Loop(test, *body));
            lemma_stack(looping, FrameView::Evaluate(test), Value::Nil, Value::Nil);
            lemma_stack(rest, FrameView::Loop(test, *body), Value::Nil, Value::Nil);
            assert(first.state == looping.push(FrameView::Evaluate(test)));
            assert(first.state.frames[first.state.frames.len() - 2] == FrameView::Loop(
                test,
                *body,
            ));
            let k = lemma_machine_iterates(test, *body, first, host, fuel);
            lemma_advance_by_add(p, host, 1, k);
            assert(finished(rest, first, x) == goal);
            1 + k
        },
        _ => {
            assert(false);
            0
        },
    }
}

/// The machine runs loops: from a state that is about to evaluate the
/// condition of a loop, it gets to the state behind the loop, or to the
/// error that ended it.
pub proof fn lemma_machine_iterates(
    test: ExprView,
    body: StmtView,
    p: Progress,
    host: Host,
    fuel: nat,
) -> (n: nat)
    requires
        expr_supported(test),
        stmt_supported(body),
        p.state.frames.len() >= 2,
        p.state.frames.last() == FrameView::Evaluate(test),
        p.state.frames[p.state.frames.len() - 2] == FrameView::Loop(test, body),
        p.state.scopes.len() >= 1,
        iteration(test, body, p.state.scopes, host, fuel) is Some,
    ensures
        advance_by(p, host, n) == finished(
            p.state.popped().popped(),
            p,
            iteration(test, body, p.state.scopes, host, fuel)->Some_0,
        ),
    decreases fuel, body, 1nat,
{
    let looping = p.state.popped();
    let rest = looping.popped();
    let scopes = p.state.scopes;
    let x = iteration(test, body, scopes, host, fuel)->Some_0;
    let goal = finished(rest, p, x);
    assert(looping.frames.last() == FrameView::Loop(test, body));
    assert(looping == rest.push(FrameView::Loop(test, body))) by {
        assert(looping.frames =~= rest.frames.push(FrameView::Loop(test, body)));
    }
    assert(p.output + Seq::<Seq<char>>::empty() =~= p.output);
    lemma_machine_evaluates(test, p, host);
    lemma_value_keeps_depth(test, scopes, host);
    let r = value(test, scopes, host);
    let k = steps(test, scopes, host);
    let second = landed(p, r);
    match r.result {
        Ok(v) => {
            let decided = rest.with_scopes(r.scopes);
            lemma_stack(decided, FrameView::Loop(test, body), v, Value::Nil);
            assert(second.state == decided.push_value(v).push(FrameView::Loop(test, body)));
            lemma_advance_by_add(p, host, k, 1);
            lemma_advance_by_one(second, host);
            let third = advance(second, host);
            if truthy(v) {
                let again = decided.push(FrameView::Loop(test, body)).push(
                    FrameView::Evaluate(test),
                );
                assert(second.state.drop_values(1) == decided.push(FrameView::Loop(test, body)));
                lemma_stack(again, FrameView::Execute(body), Value::Nil, Value::Nil);
                assert(third.state == again.push(FrameView::Execute(body)));
                let m = lemma_machine_executes(body, third, host, fuel);
                lemma_execution_keeps_depth(body, r.scopes, host, fuel);
                let y = execution(body, r.scopes, host, fuel)->Some_0;
                let fourth = finished(again, third, y);
                lemma_advance_by_add(p, host, k + 1, m);
                match y.result {
                    Ok(_) => {
                        let next = rest.with_scopes(y.scopes).push(
                            FrameView::Loop(test, body),
                        );
                        lemma_stack(next, FrameView::Evaluate(test), Value::Nil, Value::Nil);
                        lemma_stack(
                            rest.with_scopes(y.scopes),
                            FrameView::Loop(test, body),
                            Value::Nil,
                            Value::Nil,
                        );
                        assert(fourth.state == next.push(FrameView::Evaluate(test)));
                        assert(fourth.state.frames[fourth.state.frames.len() - 2]
                            == FrameView::Loop(test, body));
                        let j = lemma_machine_iterates(
                            test,
                            body,
                            fourth,
                            host,
                            (fuel - 1) as nat,
                        );
                        let z = iteration(test, body, y.scopes, host, (fuel - 1) as nat)->Some_0;
                        lemma_advance_by_add(p, host, k + 1 + m, j);
                        assert((p.output + y.output) + z.output =~= p.output + (y.output
                            + z.output));
                        assert(finished(rest.with_scopes(y.scopes), fourth, z) == goal);
                        k + 1 + m + j
                    },
                    Err(_) => {
                        assert(fourth == goal);
                        k + 1 + m
                    },
                }
            } else {
                assert(second.state.popped().drop_values(1) == decided);
                assert(third == goal);
                k + 1
            }
        },
        Err(_) => {
            assert(second == goal);
            k
        },
    }
}

/// The machine runs statements one after the other.
pub proof fn lemma_machine_runs(statements: Seq<StmtView>, p: Progress, host: Host, fuel: nat) -> (n:
    nat)
    requires
        all_supported(statements),
        p.state.frames.len() > 0,
        p.state.frames.last() == FrameView::Sequence(statements),
        p.state.scopes.len() >= 1,
        sequence(statements, p.state.scopes, host, fuel) is Some,
    ensures
        advance_by(p, host, n) == finished(
            p.state.popped(),
            p,
            sequence(statements, p.state.scopes, host, fuel)->Some_0,
        ),
    decreases fuel, statements, 0nat,
{
    let rest = p.state.popped();
    let scopes = p.state.scopes;
    let first = advance(p, host);
    let x = sequence(statements, scopes, host, fuel)->Some_0;
    let goal = finished(rest, p, x);
    lemma_advance_by_one(p, host);
    assert(p.output + Seq::<Seq<char>>::empty() =~= p.output);
    if statements.len() == 0 {
        assert(first == goal);
        1
    } else {
        let tail = statements.drop_first();
        assert(all_supported(tail)) by {
            assert forall|i: int| 0 <= i < tail.len() implies stmt_supported(#[trigger] tail[i]) by {
                assert(tail[i] == statements[i + 1]);
            }
        }
        let later = rest.push(FrameView::Sequence(tail));
        lemma_stack(later, FrameView::Execute(statements[0]), Value::Nil, Value::Nil);
        lemma_stack(rest, FrameView::Sequence(tail), Value::Nil, Value::Nil);
        assert(first.state == later.push(FrameView::Execute(statements[0])));
        let k = lemma_machine_executes(statements[0], first, host, fuel);
        lemma_execution_keeps_depth(statements[0], scopes, host, fuel);
        let y = execution(statements[0], scopes, host, fuel)->Some_0;
        let second = finished(later, first, y);
        lemma_advance_by_add(p, host, 1, k);
        match y.result {
            Ok(_) => {
                lemma_stack(
                    rest.with_scopes(y.scopes),
                    FrameView::Sequence(tail),
                    Value::Nil,
                    Value::Nil,
                );
                assert(second.state == rest.with_scopes(y.scopes).push(FrameView::Sequence(tail)));
                let m = lemma_machine_runs(tail, second, host, fuel);
                let z = sequence(tail, y.scopes, host, fuel)->Some_0;
                lemma_advance_by_add(p, host, 1 + k, m);
                assert((p.output + y.output) + z.output =~= p.output + (y.output + z.output));
                assert(finished(rest.with_scopes(y.scopes), second, z) == goal);
                1 + k + m
            },
            Err(_) => {
                assert(second == goal);
                1 + k
            },
        }
    }
}

/// Parentheses change nothing: a parenthesised expression has the value of
/// the expression inside, and leaves the scopes as that one does.
pub proof fn lemma_grouping_has_the_value_inside(inner: ExprView, scopes: Seq<Scope>, host: Host)
    ensures
        value(ExprView::Grouping(Box::new(inner)), scopes, host) == value(inner, scopes, host),
{
}

/// Parentheses around an expression change neither what it evaluates to nor
/// what it does to the variables: the primary expression that the parser
/// reads from `(`, the tokens of an expression and `)` has the value of
/// that expression.
pub proof fn lemma_parentheses_are_transparent(
    ts: Seq<TokenView>,
    pos: int,
    scopes: Seq<Scope>,
    host: Host,
)
    requires
        check(ts, pos, TokenType::LeftParen),
        expression(ts, pos + 1) is Ok,
        check(ts, pos + 1 + expression(ts, pos + 1)->Ok_0.1, TokenType::RightParen),
    ensures
        primary(ts, pos) is Ok,
        value(primary(ts, pos)->Ok_0.0, scopes, host) == value(
            expression(ts, pos + 1)->Ok_0.0,
            scopes,
            host,
        ),
{
    lemma_parenthesised(ts, pos);
}

/// A program does what its statements do: from the state in which the
/// statements of a program have just been scheduled and nothing else is
/// pending, some number of transitions with `host` print the lines of the
/// program and lead to the end: either the program raised its error on the
/// way, or nothing is pending any more and the next transition reports the
/// end without error.
pub proof fn lemma_machine_runs_programs(
    statements: Seq<StmtView>,
    idle: State,
    host: Host,
    fuel: nat,
) -> (n: nat)
    requires
        all_supported(statements),
        idle.frames.len() == 0,
        idle.scopes.len() >= 1,
        sequence(statements, idle.scopes, host, fuel) is Some,
    ensures
        ({
            let start = Progress {
                state: idle.push(FrameView::Sequence(statements)),
                event: EventView::Resume,
                output: Seq::empty(),
                error: None,
            };
            let x = sequence(statements, idle.scopes, host, fuel)->Some_0;
            let end = advance_by(start, host, n);
            &&& end.output == x.output
            &&& end.state.frames.len() == 0
            &&& end.error == match x.result {
                Ok(_) => None,
                Err(e) => Some(e),
            }
            &&& x.result is Ok ==> end.state.scopes == x.scopes
            &&& step(end.state, end.event).1 == ActionView::Finished(Ok(()))
        }),
{
    let start = Progress {
        state: idle.push(FrameView::Sequence(statements)),
        event: EventView::Resume,
        output: Seq::empty(),
        error: None,
    };
    lemma_stack(idle, FrameView::Sequence(statements), Value::Nil, Value::Nil);
    let n = lemma_machine_runs(statements, start, host, fuel);
    let x = sequence(statements, idle.scopes, host, fuel)->Some_0;
    assert(Seq::<Seq<char>>::empty() + x.output =~= x.output);
    n
}

/// A left operand that settles `and` or `or` is the value of the whole
/// expression, whatever the right operand is: the right operand is not
/// evaluated, so it cannot fail and cannot change a variable.
pub proof fn lemma_settled_operand_decides(
    left: ExprView,
    operator: TokenView,
    right: ExprView,
    scopes: Seq<Scope>,
    host: Host,
)
    requires
        value(left, scopes, host).result is Ok,
        settles(operator, value(left, scopes, host).result->Ok_0),
    ensures
        value(ExprView::Logical(Box::new(left), operator, Box::new(right)), scopes, host) == value(
            left,
            scopes,
            host,
        ),
{
}

} // verus!
