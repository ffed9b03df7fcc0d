//! What running a program means: an abstract machine with a stack of
//! pending work, a stack of values and a chain of scopes.
//!
//! [`step`] is one transition of the machine. The machine itself neither
//! computes with floating-point numbers nor writes output: it hands such work
//! to its host as an [`ActionView`] and takes the answer as an
//! [`EventView`]. Handing the machine an event it did not ask for changes
//! nothing: it asks again.

use crate::environment::{assigned, defined, entered, lookup, Scope};
use crate::expr::ExprView;
use crate::interpreter::RuntimeErrorView;
use crate::number::{spec_equal, spec_is_zero, spec_less, spec_less_equal, spec_negate};
use crate::scanner::{TokenType, TokenView, Value};
use crate::stmt::StmtView;
use vstd::prelude::*;

verus! {

/// The arithmetic that the host computes on two numbers.
#[derive(Debug, PartialEq, Eq, Clone, Copy, Structural)]
pub enum Arithmetic {
    Add,
    Subtract,
    Multiply,
    Divide,
}

/// One piece of pending work.
pub enum FrameView {
    /// Execute a statement.
    Execute(StmtView),
    /// Execute statements one after the other.
    Sequence(Seq<StmtView>),
    /// Evaluate an expression and push its value.
    Evaluate(ExprView),
    /// Drop the value on top.
    Discard,
    /// Print the value on top.
    Print,
    /// Declare the variable with the value on top.
    Define(TokenView),
    /// Execute the first statement if the value on top is truthy, else the
    /// second if there is one.
    Branch(StmtView, Option<StmtView>),
    /// Run the body and test the condition again if the value on top is
    /// truthy, else end the loop.
    Loop(ExprView, StmtView),
    /// Close the innermost scope.
    Leave,
    /// Apply a unary operator to the value on top.
    Unary(TokenView),
    /// Apply a binary operator to the two values on top.
    Binary(TokenView),
    /// Assign the value on top to a variable, and leave it on top.
    Assign(TokenView),
    /// Keep the value on top as the result of `and` or `or`, or evaluate the
    /// right operand in its place.
    Logical(TokenView, ExprView),
}

/// The state of the machine. The top of each stack is its last element; the
/// innermost scope is the first.
pub struct State {
    pub scopes: Seq<Scope>,
    pub frames: Seq<FrameView>,
    pub values: Seq<Value>,
}

/// What the host hands to the machine with a step.
pub enum EventView {
    /// Nothing: go on.
    Resume,
    /// The result of the arithmetic that was asked for.
    Number(u64),
    /// The rendering of the number that was asked for.
    Text(Seq<char>),
}

/// What the machine asks of its host after a step.
pub enum ActionView {
    /// Nothing: step again.
    Continue,
    /// Compute on two numbers and hand the result back.
    Compute(Arithmetic, u64, u64),
    /// Render a number in decimal and hand the text back.
    Render(u64),
    /// Write a line of output.
    Print(Seq<char>),
    /// The program is over: it ran to its end, or it raised an error.
    Finished(Result<(), RuntimeErrorView>),
}

/// Only `nil` and `false` are falsy.
pub open spec fn truthy(v: Value) -> bool {
    match v {
        Value::Nil => false,
        Value::Boolean(b) => b,
        _ => true,
    }
}

/// Values of one type are equal if they are the same; values of different
/// types never are. Numbers are equal as IEEE-754 has it.
pub open spec fn equal_values(a: Value, b: Value) -> bool {
    match (a, b) {
        (Value::Nil, Value::Nil) => true,
        (Value::Number(x), Value::Number(y)) => spec_equal(x, y),
        (Value::String(s), Value::String(t)) => s == t,
        (Value::Boolean(x), Value::Boolean(y)) => x == y,
        _ => false,
    }
}

/// The text that prints a value other than a number; a number is rendered by
/// the host.
pub open spec fn display(v: Value) -> Option<Seq<char>> {
    match v {
        Value::Nil => Some("nil"@),
        Value::Boolean(b) => Some(
            if b {
                "true"@
            } else {
                "false"@
            },
        ),
        Value::String(s) => Some(s),
        Value::Number(_) => None,
    }
}

/// The operators of unary expressions.
pub open spec fn is_unary_operator(t: TokenType) -> bool {
    t == TokenType::Minus || t == TokenType::Bang
}

/// The operators of binary expressions.
pub open spec fn is_binary_operator(t: TokenType) -> bool {
    t == TokenType::Minus || t == TokenType::Slash || t == TokenType::Star || t == TokenType::Plus
        || t == TokenType::Greater || t == TokenType::GreaterEqual || t == TokenType::Less || t
        == TokenType::LessEqual || t == TokenType::BangEqual || t == TokenType::EqualEqual
}

/// The expressions that the machine evaluates: literals, groupings,
/// variables, assignments, and unary, binary and logical expressions with
/// their operators.
pub open spec fn expr_supported(e: ExprView) -> bool
    decreases e,
{
    match e {
        ExprView::Literal(_) => true,
        ExprView::Grouping(inner) => expr_supported(*inner),
        ExprView::Unary(operator, right) => is_unary_operator(operator.token_type)
            && expr_supported(*right),
        ExprView::Variable(_) => true,
        ExprView::Assignment(_, value) => expr_supported(*value),
        ExprView::Logical(left, _, right) => expr_supported(*left) && expr_supported(*right),
        ExprView::Binary(left, operator, right) => is_binary_operator(operator.token_type)
            && expr_supported(*left) && expr_supported(*right),
        _ => false,
    }
}

/// The statements that the machine executes: expression and print
/// statements, variable declarations, blocks, and if and while statements.
pub open spec fn stmt_supported(s: StmtView) -> bool
    decreases s,
{
    match s {
        StmtView::Expression(e) => expr_supported(e),
        StmtView::Print(e) => expr_supported(e),
        StmtView::Var(_, initializer) => match initializer {
            Some(e) => expr_supported(e),
            None => true,
        },
        StmtView::Block(statements) => forall|i: int|
            0 <= i < statements.len() ==> stmt_supported(#[trigger] statements[i]),
        StmtView::If(test, then_branch, else_branch) => expr_supported(test) && stmt_supported(
            *then_branch,
        ) && match else_branch {
            Some(s) => stmt_supported(*s),
            None => true,
        },
        StmtView::While(test, body) => expr_supported(test) && stmt_supported(*body),
        _ => false,
    }
}

/// Every statement of the sequence is one that the machine executes.
pub open spec fn all_supported(statements: Seq<StmtView>) -> bool {
    forall|i: int| 0 <= i < statements.len() ==> stmt_supported(#[trigger] statements[i])
}

/// A block is executed if each of its statements is.
pub proof fn lemma_block_supported(statements: Seq<StmtView>)
    ensures
        stmt_supported(StmtView::Block(statements)) == all_supported(statements),
{
    reveal_with_fuel(stmt_supported, 2);
    let block = StmtView::Block(statements);
    assert(block->Block_0 == statements);
    if all_supported(statements) {
        assert forall|i: int| 0 <= i < statements.len() implies stmt_supported(
            #[trigger] block->Block_0[i],
        ) by {
            assert(stmt_supported(statements[i]));
        }
    }
    if stmt_supported(block) {
        assert forall|i: int| 0 <= i < statements.len() implies stmt_supported(
            #[trigger] statements[i],
        ) by {
            assert(stmt_supported(block->Block_0[i]));
        }
    }
}

/// The frames that can be pending: their statements, expressions and
/// operators are ones that the machine takes.
pub open spec fn frame_supported(f: FrameView) -> bool {
    match f {
        FrameView::Execute(s) => stmt_supported(s),
        FrameView::Sequence(statements) => all_supported(statements),
        FrameView::Evaluate(e) => expr_supported(e),
        FrameView::Branch(then_branch, else_branch) => stmt_supported(then_branch)
            && match else_branch {
            Some(s) => stmt_supported(s),
            None => true,
        },
        FrameView::Loop(test, body) => expr_supported(test) && stmt_supported(body),
        FrameView::Unary(operator) => is_unary_operator(operator.token_type),
        FrameView::Binary(operator) => is_binary_operator(operator.token_type),
        FrameView::Logical(_, right) => expr_supported(right),
        _ => true,
    }
}

/// The number of values that a frame takes from the stack.
pub open spec fn takes(f: FrameView) -> nat {
    match f {
        FrameView::Execute(_) | FrameView::Sequence(_) | FrameView::Evaluate(_)
        | FrameView::Leave => 0,
        FrameView::Binary(_) => 2,
        _ => 1,
    }
}

/// The number of values that a frame, and the work it starts, leaves on the
/// stack.
pub open spec fn gives(f: FrameView) -> nat {
    match f {
        FrameView::Evaluate(_) | FrameView::Unary(_) | FrameView::Binary(_) | FrameView::Assign(_) | FrameView::Logical(_, _) => 1,
        _ => 0,
    }
}

/// With `depth` values on the stack, every pending frame finds the values
/// it takes, and none is left at the end.
pub open spec fn balanced(frames: Seq<FrameView>, depth: int) -> bool
    decreases frames.len(),
{
    if frames.len() == 0 {
        depth == 0
    } else {
        let f = frames.last();
        depth >= takes(f) && balanced(frames.drop_last(), depth - takes(f) + gives(f))
    }
}

/// The number of scopes that the pending frames will close.
pub open spec fn closings(frames: Seq<FrameView>) -> nat
    decreases frames.len(),
{
    if frames.len() == 0 {
        0
    } else {
        closings(frames.drop_last()) + if frames.last() is Leave {
            1nat
        } else {
            0nat
        }
    }
}

impl State {
    /// The invariant of the machine: the scopes are the outermost one and
    /// one for each pending close, the value stack suits the pending frames,
    /// and the frames hold only what the machine takes.
    pub open spec fn wf(self) -> bool {
        &&& self.scopes.len() == 1 + closings(self.frames)
        &&& balanced(self.frames, self.values.len() as int)
        &&& forall|i: int| 0 <= i < self.frames.len() ==> frame_supported(#[trigger] self.frames[i])
    }

    /// The state without its top frame.
    pub open spec fn popped(self) -> State {
        State { frames: self.frames.drop_last(), ..self }
    }

    /// The state with `f` on top of the frames.
    pub open spec fn push(self, f: FrameView) -> State {
        State { frames: self.frames.push(f), ..self }
    }

    /// The state with `v` on top of the values.
    pub open spec fn push_value(self, v: Value) -> State {
        State { values: self.values.push(v), ..self }
    }

    /// The state without its `n` top values.
    pub open spec fn drop_values(self, n: int) -> State {
        State { values: self.values.subrange(0, self.values.len() - n), ..self }
    }

    /// The state with other scopes.
    pub open spec fn with_scopes(self, scopes: Seq<Scope>) -> State {
        State { scopes, ..self }
    }

    /// The value on top.
    pub open spec fn top(self) -> Value {
        self.values.last()
    }

    /// The value under the top.
    pub open spec fn second(self) -> Value {
        self.values[self.values.len() - 2]
    }
}

/// The state in which nothing is declared and nothing is pending.
pub open spec fn initial() -> State {
    State { scopes: seq![Map::empty()], frames: Seq::empty(), values: Seq::empty() }
}

/// The end of a program by an error: nothing stays pending, no value stays,
/// and every scope but the outermost is closed.
pub open spec fn failed(s: State, error: RuntimeErrorView) -> (State, ActionView) {
    (
        State {
            scopes: s.scopes.subrange(s.scopes.len() - 1, s.scopes.len() as int),
            frames: Seq::empty(),
            values: Seq::empty(),
        },
        ActionView::Finished(Err(error)),
    )
}

/// Starts a statement, with the frame that held it gone.
pub open spec fn execute(s: State, statement: StmtView) -> State {
    match statement {
        StmtView::Expression(e) => s.push(FrameView::Discard).push(FrameView::Evaluate(e)),
        StmtView::Print(e) => s.push(FrameView::Print).push(FrameView::Evaluate(e)),
        StmtView::Var(name, initializer) => match initializer {
            Some(e) => s.push(FrameView::Define(name)).push(FrameView::Evaluate(e)),
            None => s.with_scopes(defined(s.scopes, name.lexeme, Value::Nil)),
        },
        StmtView::Block(statements) => s.with_scopes(entered(s.scopes)).push(
            FrameView::Leave,
        ).push(FrameView::Sequence(statements)),
        StmtView::If(test, then_branch, else_branch) => s.push(
            FrameView::Branch(
                *then_branch,
                match else_branch {
                    Some(b) => Some(*b),
                    None => None,
                },
            ),
        ).push(FrameView::Evaluate(test)),
        StmtView::While(test, body) => s.push(FrameView::Loop(test, *body)).push(
            FrameView::Evaluate(test),
        ),
        _ => s,
    }
}

/// Starts an expression, with the frame that held it gone.
pub open spec fn evaluate(s: State, e: ExprView) -> (State, ActionView) {
    match e {
        ExprView::Literal(value) => (
            s.push_value(
                match value {
                    Some(v) => v,
                    None => Value::Nil,
                },
            ),
            ActionView::Continue,
        ),
        ExprView::Grouping(inner) => (s.push(FrameView::Evaluate(*inner)), ActionView::Continue),
        ExprView::Unary(operator, right) => (
            s.push(FrameView::Unary(operator)).push(FrameView::Evaluate(*right)),
            ActionView::Continue,
        ),
        ExprView::Variable(name) => match lookup(s.scopes, name.lexeme) {
            Some(v) => (s.push_value(v), ActionView::Continue),
            None => failed(s, RuntimeErrorView::UndefinedVariable(name)),
        },
        ExprView::Assignment(name, value) => (
            s.push(FrameView::Assign(name)).push(FrameView::Evaluate(*value)),
            ActionView::Continue,
        ),
        ExprView::Logical(left, operator, right) => (
            s.push(FrameView::Logical(operator, *right)).push(FrameView::Evaluate(*left)),
            ActionView::Continue,
        ),
        ExprView::Binary(left, operator, right) => (
            s.push(FrameView::Binary(operator)).push(FrameView::Evaluate(*right)).push(
                FrameView::Evaluate(*left),
            ),
            ActionView::Continue,
        ),
        _ => (s, ActionView::Continue),
    }
}

/// Applies a unary operator to the value on top, with its frame gone.
pub open spec fn apply_unary(s: State, operator: TokenView) -> (State, ActionView) {
    if operator.token_type == TokenType::Minus {
        match s.top() {
            Value::Number(n) => (
                s.drop_values(1).push_value(Value::Number(spec_negate(n))),
                ActionView::Continue,
            ),
            _ => failed(
                s,
                RuntimeErrorView::UnexpectedType(operator, "Operand must be a number."@),
            ),
        }
    } else {
        (s.drop_values(1).push_value(Value::Boolean(!truthy(s.top()))), ActionView::Continue)
    }
}

/// Asks the host for arithmetic on the two numbers on top, or, with the
/// answer in hand, puts it in their place. `s` still has the frame of the
/// operator on top.
pub open spec fn compute(s: State, kind: Arithmetic, a: u64, b: u64, event: EventView) -> (
    State,
    ActionView,
) {
    match event {
        EventView::Number(r) => (
            s.popped().drop_values(2).push_value(Value::Number(r)),
            ActionView::Continue,
        ),
        _ => (s, ActionView::Compute(kind, a, b)),
    }
}

/// What a binary operator makes of its operands.
pub enum OutcomeView {
    /// The result.
    Value(Value),
    /// Arithmetic on two numbers, which the host computes.
    Request(Arithmetic, u64, u64),
    /// An error.
    Error(RuntimeErrorView),
}

/// What the operator of a token of category `t` makes of two numbers.
pub open spec fn numeric_outcome(operator: TokenView, a: u64, b: u64) -> OutcomeView {
    let t = operator.token_type;
    if t == TokenType::Minus {
        OutcomeView::Request(Arithmetic::Subtract, a, b)
    } else if t == TokenType::Star {
        OutcomeView::Request(Arithmetic::Multiply, a, b)
    } else if t == TokenType::Slash {
        if spec_is_zero(b) {
            OutcomeView::Error(RuntimeErrorView::DivisionByZero(operator))
        } else {
            OutcomeView::Request(Arithmetic::Divide, a, b)
        }
    } else if t == TokenType::Greater {
        OutcomeView::Value(Value::Boolean(spec_less(b, a)))
    } else if t == TokenType::GreaterEqual {
        OutcomeView::Value(Value::Boolean(spec_less_equal(b, a)))
    } else if t == TokenType::Less {
        OutcomeView::Value(Value::Boolean(spec_less(a, b)))
    } else {
        OutcomeView::Value(Value::Boolean(spec_less_equal(a, b)))
    }
}

/// What a binary operator makes of its left and right operands.
///
/// `==` and `!=` take any two values. `+` adds two numbers and joins two
/// strings. `-`, `*`, `/` and the comparisons take two numbers, and a
/// division by zero is an error.
pub open spec fn binary_outcome(operator: TokenView, left: Value, right: Value) -> OutcomeView {
    let t = operator.token_type;
    if t == TokenType::EqualEqual {
        OutcomeView::Value(Value::Boolean(equal_values(left, right)))
    } else if t == TokenType::BangEqual {
        OutcomeView::Value(Value::Boolean(!equal_values(left, right)))
    } else if t == TokenType::Plus {
        match (left, right) {
            (Value::Number(a), Value::Number(b)) => OutcomeView::Request(Arithmetic::Add, a, b),
            (Value::String(l), Value::String(r)) => OutcomeView::Value(Value::String(l + r)),
            _ => OutcomeView::Error(
                RuntimeErrorView::InvalidOperand(
                    operator,
                    "Operands must be two numbers or two strings."@,
                ),
            ),
        }
    } else {
        match (left, right) {
            (Value::Number(a), Value::Number(b)) => numeric_outcome(operator, a, b),
            _ => OutcomeView::Error(
                RuntimeErrorView::UnexpectedType(operator, "Operands must be numbers."@),
            ),
        }
    }
}

/// Applies a binary operator to the two values on top: the left operand
/// under the right one. `s` still has the frame of the operator on top.
pub open spec fn apply_binary(s: State, operator: TokenView, event: EventView) -> (
    State,
    ActionView,
) {
    match binary_outcome(operator, s.second(), s.top()) {
        OutcomeView::Value(v) => (
            s.popped().drop_values(2).push_value(v),
            ActionView::Continue,
        ),
        OutcomeView::Request(kind, a, b) => compute(s, kind, a, b, event),
        OutcomeView::Error(e) => failed(s, e),
    }
}

/// Prints the value on top. A number is first rendered by the host. `s`
/// still has the print frame on top.
pub open spec fn print(s: State, event: EventView) -> (State, ActionView) {
    match display(s.top()) {
        Some(text) => (s.popped().drop_values(1), ActionView::Print(text)),
        None => match event {
            EventView::Text(text) => (s.popped().drop_values(1), ActionView::Print(text)),
            _ => (s, ActionView::Render(s.top()->Number_0)),
        },
    }
}

/// Whether the left operand of `and` or `or` settles the result: a truthy
/// one settles `or`, a falsy one settles `and`.
pub open spec fn settles(operator: TokenView, left: Value) -> bool {
    if operator.token_type == TokenType::Or {
        truthy(left)
    } else {
        !truthy(left)
    }
}

/// One transition of the machine.
pub open spec fn step(s: State, event: EventView) -> (State, ActionView) {
    if s.frames.len() == 0 {
        (s, ActionView::Finished(Ok(())))
    } else {
        let rest = s.popped();
        match s.frames.last() {
            FrameView::Execute(statement) => (execute(rest, statement), ActionView::Continue),
            FrameView::Sequence(statements) => if statements.len() == 0 {
                (rest, ActionView::Continue)
            } else {
                (
                    rest.push(FrameView::Sequence(statements.drop_first())).push(
                        FrameView::Execute(statements[0]),
                    ),
                    ActionView::Continue,
                )
            },
            FrameView::Evaluate(e) => evaluate(rest, e),
            FrameView::Discard => (rest.drop_values(1), ActionView::Continue),
            FrameView::Print => print(s, event),
            FrameView::Define(name) => (
                rest.drop_values(1).with_scopes(defined(s.scopes, name.lexeme, s.top())),
                ActionView::Continue,
            ),
            FrameView::Branch(then_branch, else_branch) => if truthy(s.top()) {
                (rest.drop_values(1).push(FrameView::Execute(then_branch)), ActionView::Continue)
            } else {
                match else_branch {
                    Some(b) => (
                        rest.drop_values(1).push(FrameView::Execute(b)),
                        ActionView::Continue,
                    ),
                    None => (rest.drop_values(1), ActionView::Continue),
                }
            },
            FrameView::Loop(test, body) => if truthy(s.top()) {
                (
                    s.drop_values(1).push(FrameView::Evaluate(test)).push(FrameView::Execute(body)),
                    ActionView::Continue,
                )
            } else {
                (rest.drop_values(1), ActionView::Continue)
            },
            FrameView::Leave => (rest.with_scopes(s.scopes.drop_first()), ActionView::Continue),
            FrameView::Unary(operator) => apply_unary(rest, operator),
            FrameView::Binary(operator) => apply_binary(s, operator, event),
            FrameView::Assign(name) => match lookup(s.scopes, name.lexeme) {
                Some(_) => (
                    rest.with_scopes(assigned(s.scopes, name.lexeme, s.top())),
                    ActionView::Continue,
                ),
                None => failed(s, RuntimeErrorView::UndefinedVariable(name)),
            },
            FrameView::Logical(operator, right) => if settles(operator, s.top()) {
                (rest, ActionView::Continue)
            } else {
                (rest.drop_values(1).push(FrameView::Evaluate(right)), ActionView::Continue)
            },
        }
    }
}

/// What a frame on top of others means for the invariant.
pub proof fn lemma_push(frames: Seq<FrameView>, f: FrameView, depth: int)
    ensures
        balanced(frames.push(f), depth) == (depth >= takes(f) && balanced(
            frames,
            depth - takes(f) + gives(f),
        )),
        closings(frames.push(f)) == closings(frames) + if f is Leave {
            1nat
        } else {
            0nat
        },
{
    assert(frames.push(f).drop_last() =~= frames);
}

/// Declaring and assigning keep the number of scopes.
pub proof fn lemma_assigned_len(scopes: Seq<Scope>, name: Seq<char>, value: Value)
    ensures
        assigned(scopes, name, value).len() == scopes.len(),
    decreases scopes.len(),
{
    if scopes.len() > 0 && !scopes[0].dom().contains(name) {
        lemma_assigned_len(scopes.drop_first(), name, value);
    }
}

/// The invariant of the machine holds after every step.
pub proof fn lemma_step_preserves_wf(s: State, event: EventView)
    requires
        s.wf(),
    ensures
        step(s, event).0.wf(),
{
    if s.frames.len() > 0 {
        let top = s.frames.last();
        let rest = s.frames.drop_last();
        let depth = s.values.len() as int;
        assert(s.frames =~= rest.push(top));
        lemma_push(rest, top, depth);
        assert(frame_supported(s.frames[s.frames.len() - 1]));
        assert forall|i: int| 0 <= i < rest.len() implies frame_supported(#[trigger] rest[i]) by {
            assert(rest[i] == s.frames[i]);
        }
        let after = step(s, event).0;
        match top {
            FrameView::Execute(statement) => {
                match statement {
                    StmtView::Expression(e) => {
                        lemma_push(rest, FrameView::Discard, depth + 1);
                        lemma_push(rest.push(FrameView::Discard), FrameView::Evaluate(e), depth);
                    },
                    StmtView::Print(e) => {
                        lemma_push(rest, FrameView::Print, depth + 1);
                        lemma_push(rest.push(FrameView::Print), FrameView::Evaluate(e), depth);
                    },
                    StmtView::Var(name, initializer) => {
                        match initializer {
                            Some(e) => {
                                lemma_push(rest, FrameView::Define(name), depth + 1);
                                lemma_push(
                                    rest.push(FrameView::Define(name)),
                                    FrameView::Evaluate(e),
                                    depth,
                                );
                            },
                            None => {},
                        }
                    },
                    StmtView::Block(statements) => {
                        lemma_push(rest, FrameView::Leave, depth);
                        lemma_push(
                            rest.push(FrameView::Leave),
                            FrameView::Sequence(statements),
                            depth,
                        );
                    },
                    StmtView::If(test, then_branch, else_branch) => {
                        let branch = FrameView::Branch(
                            *then_branch,
                            match else_branch {
                                Some(b) => Some(*b),
                                None => None,
                            },
                        );
                        lemma_push(rest, branch, depth + 1);
                        lemma_push(rest.push(branch), FrameView::Evaluate(test), depth);
                    },
                    StmtView::While(test, body) => {
                        let looping = FrameView::Loop(test, *body);
                        lemma_push(rest, looping, depth + 1);
                        lemma_push(rest.push(looping), FrameView::Evaluate(test), depth);
                    },
                    _ => {},
                }
            },
            FrameView::Sequence(statements) => {
                if statements.len() > 0 {
                    let tail = FrameView::Sequence(statements.drop_first());
                    assert(all_supported(statements.drop_first())) by {
                        assert forall|i: int|
                            0 <= i < statements.drop_first().len() implies stmt_supported(
                            #[trigger] statements.drop_first()[i],
                        ) by {
                            assert(statements.drop_first()[i] == statements[i + 1]);
                        }
                    }
                    lemma_push(rest, tail, depth);
                    lemma_push(rest.push(tail), FrameView::Execute(statements[0]), depth);
                }
            },
            FrameView::Evaluate(e) => {
                match e {
                    ExprView::Grouping(inner) => {
                        lemma_push(rest, FrameView::Evaluate(*inner), depth);
                    },
                    ExprView::Unary(operator, right) => {
                        lemma_push(rest, FrameView::Unary(operator), depth + 1);
                        lemma_push(
                            rest.push(FrameView::Unary(operator)),
                            FrameView::Evaluate(*right),
                            depth,
                        );
                    },
                    ExprView::Assignment(name, value) => {
                        lemma_push(rest, FrameView::Assign(name), depth + 1);
                        lemma_push(
                            rest.push(FrameView::Assign(name)),
                            FrameView::Evaluate(*value),
                            depth,
                        );
                    },
                    ExprView::Logical(left, operator, right) => {
                        let f = FrameView::Logical(operator, *right);
                        lemma_push(rest, f, depth + 1);
                        lemma_push(rest.push(f), FrameView::Evaluate(*left), depth);
                    },
                    ExprView::Binary(left, operator, right) => {
                        let f = FrameView::Binary(operator);
                        lemma_push(rest, f, depth + 2);
                        lemma_push(rest.push(f), FrameView::Evaluate(*right), depth + 1);
                        lemma_push(
                            rest.push(f).push(FrameView::Evaluate(*right)),
                            FrameView::Evaluate(*left),
                            depth,
                        );
                    },
                    _ => {},
                }
            },
            FrameView::Define(name) => {},
            FrameView::Branch(then_branch, else_branch) => {
                lemma_push(rest, FrameView::Execute(then_branch), depth - 1);
                match else_branch {
                    Some(b) => {
                        lemma_push(rest, FrameView::Execute(b), depth - 1);
                    },
                    None => {},
                }
            },
            FrameView::Loop(test, body) => {
                lemma_push(s.frames, FrameView::Evaluate(test), depth - 1);
                lemma_push(
                    s.frames.push(FrameView::Evaluate(test)),
                    FrameView::Execute(body),
                    depth - 1,
                );
            },
            FrameView::Assign(name) => {
                lemma_assigned_len(s.scopes, name.lexeme, s.top());
            },
            FrameView::Logical(operator, right) => {
                lemma_push(rest, FrameView::Evaluate(right), depth - 1);
            },
            _ => {},
        }
    }
}

/// The state after the events of `events`, one step each.
pub open spec fn run(s: State, events: Seq<EventView>) -> State
    decreases events.len(),
{
    if events.len() == 0 {
        s
    } else {
        run(step(s, events[0]).0, events.drop_first())
    }
}

/// The invariant of the machine holds after any number of steps.
pub proof fn lemma_run_preserves_wf(s: State, events: Seq<EventView>)
    requires
        s.wf(),
    ensures
        run(s, events).wf(),
    decreases events.len(),
{
    if events.len() > 0 {
        lemma_step_preserves_wf(s, events[0]);
        lemma_run_preserves_wf(step(s, events[0]).0, events.drop_first());
    }
}

/// Parentheses change nothing: whatever the host answers, the machine that
/// is about to evaluate a parenthesised expression is, one step later, the
/// machine that is about to evaluate the expression inside, so that both
/// go through the same states from there on and push the same value.
pub proof fn lemma_grouping_is_transparent(
    s: State,
    inner: ExprView,
    first: EventView,
    events: Seq<EventView>,
)
    ensures
        step(s.push(FrameView::Evaluate(ExprView::Grouping(Box::new(inner)))), first) == (
            s.push(FrameView::Evaluate(inner)),
            ActionView::Continue,
        ),
        run(
            s.push(FrameView::Evaluate(ExprView::Grouping(Box::new(inner)))),
            seq![first] + events,
        ) == run(s.push(FrameView::Evaluate(inner)), events),
{
    let grouped = s.push(FrameView::Evaluate(ExprView::Grouping(Box::new(inner))));
    assert(grouped.popped() == s) by {
        assert(grouped.frames.drop_last() =~= s.frames);
    }
    let all = seq![first] + events;
    assert(all[0] == first);
    assert(all.drop_first() =~= events);
}

/// The right operand of `and` and `or` is not evaluated when the left one
/// settles the result: the left value stays as the result and the right
/// operand is dropped with the frame that held it.
pub proof fn lemma_short_circuit(
    s: State,
    operator: TokenView,
    right: ExprView,
    event: EventView,
)
    requires
        s.values.len() > 0,
        settles(operator, s.top()),
    ensures
        step(s.push(FrameView::Logical(operator, right)), event) == (s, ActionView::Continue),
{
    let pending = s.push(FrameView::Logical(operator, right));
    assert(pending.frames.drop_last() =~= s.frames);
}

} // verus!
