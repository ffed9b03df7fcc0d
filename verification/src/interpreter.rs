//! Runtime errors and the evaluator.
//!
//! The evaluator is the machine that [`crate::semantics`] defines. Its host
//! drives it: the host calls [`Interpreter::step`], does what the returned
//! [`Action`] asks, and hands the answer to the next step as an [`Event`],
//! until a step returns [`Action::Finished`].

use crate::environment::Environment;
use crate::expr::Expr;
use crate::number;
use crate::scanner::{LiteralValue, Token, TokenType, TokenView, Value};
use crate::semantics;
use crate::semantics::{
    all_supported, expr_supported, stmt_supported, ActionView, Arithmetic, EventView, FrameView,
    OutcomeView, State,
};
use crate::stmt::{stmt_views, Stmt};
use crate::text::{decimal, decimal_string};
use vstd::prelude::*;
use vstd::slice::slice_subrange;

verus! {

/// An error raised while a program runs. Each carries the token it is
/// reported at.
#[derive(Debug, PartialEq)]
pub enum RuntimeError {
    /// A division whose divisor is zero; the token is the operator.
    DivisionByZero(Token),
    /// A variable that no scope of the chain holds; the token is its name.
    UndefinedVariable(Token),
    /// An operand of the wrong type; the token is the operator.
    UnexpectedType(Token, String),
    /// Operands that `+` does not take; the token is the operator.
    InvalidOperand(Token, String),
}

/// The mathematical content of a [`RuntimeError`].
pub enum RuntimeErrorView {
    DivisionByZero(TokenView),
    UndefinedVariable(TokenView),
    UnexpectedType(TokenView, Seq<char>),
    InvalidOperand(TokenView, Seq<char>),
}

impl View for RuntimeError {
    type V = RuntimeErrorView;

    open spec fn view(&self) -> RuntimeErrorView {
        match self {
            RuntimeError::DivisionByZero(token) => RuntimeErrorView::DivisionByZero(token@),
            RuntimeError::UndefinedVariable(token) => RuntimeErrorView::UndefinedVariable(token@),
            RuntimeError::UnexpectedType(token, message) => RuntimeErrorView::UnexpectedType(
                token@,
                message@,
            ),
            RuntimeError::InvalidOperand(token, message) => RuntimeErrorView::InvalidOperand(
                token@,
                message@,
            ),
        }
    }
}

impl Clone for RuntimeError {
    fn clone(&self) -> (r: Self)
        ensures
            r == *self,
    {
        match self {
            RuntimeError::DivisionByZero(token) => RuntimeError::DivisionByZero(token.clone()),
            RuntimeError::UndefinedVariable(token) => RuntimeError::UndefinedVariable(
                token.clone(),
            ),
            RuntimeError::UnexpectedType(token, message) => RuntimeError::UnexpectedType(
                token.clone(),
                message.clone(),
            ),
            RuntimeError::InvalidOperand(token, message) => RuntimeError::InvalidOperand(
                token.clone(),
                message.clone(),
            ),
        }
    }
}

impl RuntimeErrorView {
    /// The message of the error: the line first, then what went wrong.
    pub open spec fn message(self) -> Seq<char> {
        match self {
            RuntimeErrorView::DivisionByZero(token) => "Line "@ + decimal(token.line)
                + ": Runtime Error:Division by zero: "@ + token.lexeme,
            RuntimeErrorView::UndefinedVariable(token) => "Line "@ + decimal(token.line)
                + ": Runtime Error: Undefined variable '"@ + token.lexeme + "'"@,
            RuntimeErrorView::UnexpectedType(token, message) => "Line "@ + decimal(token.line)
                + ": Runtime Error: Unexpected type for '"@ + token.lexeme + "': "@ + message,
            RuntimeErrorView::InvalidOperand(token, message) => "Line "@ + decimal(token.line)
                + ": Runtime Error: Invalid operand for '"@ + token.lexeme + "': "@ + message,
        }
    }
}

impl RuntimeError {
    /// The message of the error.
    pub fn to_string(&self) -> (r: String)
        ensures
            r@ == self@.message(),
    {
        match self {
            RuntimeError::DivisionByZero(token) => {
                let mut s = String::from_str("Line ");
                s.append(decimal_string(token.line).as_str());
                s.append(": Runtime Error:Division by zero: ");
                s.append(token.lexeme.as_str());
                assert(s@ =~= self@.message());
                s
            },
            RuntimeError::UndefinedVariable(token) => {
                let mut s = String::from_str("Line ");
                s.append(decimal_string(token.line).as_str());
                s.append(": Runtime Error: Undefined variable '");
                s.append(token.lexeme.as_str());
                s.append("'");
                assert(s@ =~= self@.message());
                s
            },
            RuntimeError::UnexpectedType(token, message) => {
                let mut s = String::from_str("Line ");
                s.append(decimal_string(token.line).as_str());
                s.append(": Runtime Error: Unexpected type for '");
                s.append(token.lexeme.as_str());
                s.append("': ");
                s.append(message.as_str());
                assert(s@ =~= self@.message());
                s
            },
            RuntimeError::InvalidOperand(token, message) => {
                let mut s = String::from_str("Line ");
                s.append(decimal_string(token.line).as_str());
                s.append(": Runtime Error: Invalid operand for '");
                s.append(token.lexeme.as_str());
                s.append("': ");
                s.append(message.as_str());
                assert(s@ =~= self@.message());
                s
            },
        }
    }
}

/// What the host hands to the evaluator with a step.
#[derive(Debug, PartialEq)]
pub enum Event {
    /// Nothing: go on.
    Resume,
    /// The result of the arithmetic that was asked for.
    Number(u64),
    /// The rendering of the number that was asked for.
    Text(String),
}

impl View for Event {
    type V = EventView;

    open spec fn view(&self) -> EventView {
        match self {
            Event::Resume => EventView::Resume,
            Event::Number(n) => EventView::Number(*n),
            Event::Text(t) => EventView::Text(t@),
        }
    }
}

/// What the evaluator asks of its host after a step.
#[derive(Debug, PartialEq)]
pub enum Action {
    /// Nothing: step again.
    Continue,
    /// Compute on two numbers and hand the result back as [`Event::Number`].
    Compute(Arithmetic, u64, u64),
    /// Render a number in decimal and hand the text back as [`Event::Text`].
    Render(u64),
    /// Write a line of output.
    Print(String),
    /// The program is over: it ran to its end, or it raised an error.
    Finished(Result<(), RuntimeError>),
}

impl View for Action {
    type V = ActionView;

    open spec fn view(&self) -> ActionView {
        match self {
            Action::Continue => ActionView::Continue,
            Action::Compute(kind, a, b) => ActionView::Compute(*kind, *a, *b),
            Action::Render(n) => ActionView::Render(*n),
            Action::Print(text) => ActionView::Print(text@),
            Action::Finished(result) => ActionView::Finished(
                match result {
                    Ok(_) => Ok(()),
                    Err(error) => Err(error@),
                },
            ),
        }
    }
}

/// What a binary operator makes of its operands.
#[derive(Debug, PartialEq)]
pub enum Outcome {
    /// The result.
    Value(LiteralValue),
    /// Arithmetic on two numbers, which the host computes.
    Request(Arithmetic, u64, u64),
    /// An error.
    Error(RuntimeError),
}

impl View for Outcome {
    type V = OutcomeView;

    open spec fn view(&self) -> OutcomeView {
        match self {
            Outcome::Value(v) => OutcomeView::Value(v@),
            Outcome::Request(kind, a, b) => OutcomeView::Request(*kind, *a, *b),
            Outcome::Error(error) => OutcomeView::Error(error@),
        }
    }
}

/// Whether a value counts as true.
pub fn is_truthy(value: &LiteralValue) -> (r: bool)
    ensures
        r == semantics::truthy(value@),
{
    match value {
        LiteralValue::Nil => false,
        LiteralValue::Boolean(b) => *b,
        _ => true,
    }
}

/// Whether two values are equal.
pub fn is_equal(a: &LiteralValue, b: &LiteralValue) -> (r: bool)
    ensures
        r == semantics::equal_values(a@, b@),
{
    match (a, b) {
        (LiteralValue::Nil, LiteralValue::Nil) => true,
        (LiteralValue::Number(na), LiteralValue::Number(nb)) => number::equal(*na, *nb),
        (LiteralValue::String(sa), LiteralValue::String(sb)) => *sa == *sb,
        (LiteralValue::Boolean(ba), LiteralValue::Boolean(bb)) => *ba == *bb,
        _ => false,
    }
}

/// The text that prints a value other than a number; `None` for a number,
/// which the host renders.
pub fn stringify(value: &LiteralValue) -> (r: Option<String>)
    ensures
        match (semantics::display(value@), r) {
            (Some(text), Some(found)) => found@ == text,
            (None, None) => true,
            _ => false,
        },
{
    match value {
        LiteralValue::Nil => Some(String::from_str("nil")),
        LiteralValue::Number(_) => None,
        LiteralValue::String(s) => Some(s.clone()),
        LiteralValue::Boolean(b) => if *b {
            Some(String::from_str("true"))
        } else {
            Some(String::from_str("false"))
        },
    }
}

/// The two operands as numbers, or the error of `operator` for an operand
/// that is no number.
pub fn check_number_operands(operator: &Token, left: &LiteralValue, right: &LiteralValue) -> (r:
    Result<(u64, u64), RuntimeError>)
    ensures
        match (left@, right@) {
            (Value::Number(a), Value::Number(b)) => r == Ok::<(u64, u64), RuntimeError>((a, b)),
            _ => r is Err && r->Err_0@ == RuntimeErrorView::UnexpectedType(
                operator@,
                "Operands must be numbers."@,
            ),
        },
{
    match (left, right) {
        (LiteralValue::Number(a), LiteralValue::Number(b)) => Ok((*a, *b)),
        _ => Err(
            RuntimeError::UnexpectedType(
                operator.clone(),
                String::from_str("Operands must be numbers."),
            ),
        ),
    }
}

/// What the binary operator `operator` makes of `left` and `right`.
pub fn binary_outcome(operator: &Token, left: &LiteralValue, right: &LiteralValue) -> (r: Outcome)
    requires
        semantics::is_binary_operator(operator.token_type),
    ensures
        r@ == semantics::binary_outcome(operator@, left@, right@),
{
    match operator.token_type {
        TokenType::EqualEqual => Outcome::Value(LiteralValue::Boolean(is_equal(left, right))),
        TokenType::BangEqual => Outcome::Value(LiteralValue::Boolean(!is_equal(left, right))),
        TokenType::Plus => match (left, right) {
            (LiteralValue::Number(a), LiteralValue::Number(b)) => Outcome::Request(
                Arithmetic::Add,
                *a,
                *b,
            ),
            (LiteralValue::String(l), LiteralValue::String(r)) => Outcome::Value(
                LiteralValue::String(l.clone().concat(r.as_str())),
            ),
            _ => Outcome::Error(
                RuntimeError::InvalidOperand(
                    operator.clone(),
                    String::from_str("Operands must be two numbers or two strings."),
                ),
            ),
        },
        kind => match check_number_operands(operator, left, right) {
            Err(error) => Outcome::Error(error),
            Ok((a, b)) => match kind {
                TokenType::Minus => Outcome::Request(Arithmetic::Subtract, a, b),
                TokenType::Star => Outcome::Request(Arithmetic::Multiply, a, b),
                TokenType::Slash => if number::is_zero(b) {
                    Outcome::Error(RuntimeError::DivisionByZero(operator.clone()))
                } else {
                    Outcome::Request(Arithmetic::Divide, a, b)
                },
                TokenType::Greater => Outcome::Value(LiteralValue::Boolean(number::less(b, a))),
                TokenType::GreaterEqual => Outcome::Value(
                    LiteralValue::Boolean(number::less_equal(b, a)),
                ),
                TokenType::Less => Outcome::Value(LiteralValue::Boolean(number::less(a, b))),
                _ => Outcome::Value(LiteralValue::Boolean(number::less_equal(a, b))),
            },
        },
    }
}

/// Whether the machine evaluates the expression.
pub fn expr_is_supported(e: &Expr) -> (r: bool)
    ensures
        r == expr_supported(e@),
    decreases e,
{
    match e {
        Expr::Literal(_) => true,
        Expr::Grouping(inner) => expr_is_supported(inner),
        Expr::Unary(operator, right) => (operator.token_type == TokenType::Minus
            || operator.token_type == TokenType::Bang) && expr_is_supported(right),
        Expr::Variable(_) => true,
        Expr::Assignment(_, value) => expr_is_supported(value),
        Expr::Logical(left, _, right) => expr_is_supported(left) && expr_is_supported(right),
        Expr::Binary(left, operator, right) => is_binary(operator.token_type) && expr_is_supported(
            left,
        ) && expr_is_supported(right),
        _ => false,
    }
}

/// Whether a token of category `t` is the operator of a binary expression.
fn is_binary(t: TokenType) -> (r: bool)
    ensures
        r == semantics::is_binary_operator(t),
{
    match t {
        TokenType::Minus | TokenType::Slash | TokenType::Star | TokenType::Plus
        | TokenType::Greater | TokenType::GreaterEqual | TokenType::Less | TokenType::LessEqual
        | TokenType::BangEqual | TokenType::EqualEqual => true,
        _ => false,
    }
}

/// Whether the machine executes the statement.
pub fn stmt_is_supported(s: &Stmt) -> (r: bool)
    ensures
        r == stmt_supported(s@),
    decreases s,
{
    match s {
        Stmt::Expression(e) => expr_is_supported(e),
        Stmt::Print(e) => expr_is_supported(e),
        Stmt::Var(_, initializer) => match initializer {
            Some(e) => expr_is_supported(e),
            None => true,
        },
        Stmt::Block(statements) => {
            let mut i: usize = 0;
            assert(s@ == crate::stmt::StmtView::Block(stmt_views(statements@)));
            while i < statements.len()
                invariant
                    i <= statements.len(),
                    decreases_to!(s => statements@),
                    s@ == crate::stmt::StmtView::Block(stmt_views(statements@)),
                    forall|k: int| 0 <= k < i ==> stmt_supported(#[trigger] stmt_views(statements@)[k]),
                decreases statements.len() - i,
            {
                assert(decreases_to!(statements@ => statements@[i as int]));
                if !stmt_is_supported(&statements[i]) {
                    proof {
                        let ss = stmt_views(statements@);
                        assert(0 <= i < ss.len());
                        assert(!stmt_supported(ss[i as int]));
                        semantics::lemma_block_supported(ss);
                    }
                    return false;
                }
                i += 1;
            }
            proof {
                semantics::lemma_block_supported(stmt_views(statements@));
            }
            true
        },
        Stmt::If(test, then_branch, else_branch) => expr_is_supported(test) && stmt_is_supported(
            then_branch,
        ) && match else_branch {
            Some(other) => stmt_is_supported(other),
            None => true,
        },
        Stmt::While(test, body) => expr_is_supported(test) && stmt_is_supported(body),
        _ => false,
    }
}

/// Whether the machine executes every statement of the program.
pub fn program_is_supported(statements: &[Stmt]) -> (r: bool)
    ensures
        r == all_supported(stmt_views(statements@)),
{
    let mut i: usize = 0;
    while i < statements.len()
        invariant
            i <= statements.len(),
            forall|k: int| 0 <= k < i ==> stmt_supported(#[trigger] stmt_views(statements@)[k]),
        decreases statements.len() - i,
    {
        if !stmt_is_supported(&statements[i]) {
            assert(!stmt_supported(stmt_views(statements@)[i as int]));
            return false;
        }
        i += 1;
    }
    true
}

/// The number of statements at the start of the program that the machine
/// executes: all of them, or those in front of the first that it does not
/// execute.
pub fn supported_prefix(statements: &[Stmt]) -> (n: usize)
    ensures
        n <= statements@.len(),
        all_supported(stmt_views(statements@).take(n as int)),
        n < statements@.len() ==> !stmt_supported(stmt_views(statements@)[n as int]),
{
    let mut i: usize = 0;
    while i < statements.len() && stmt_is_supported(&statements[i])
        invariant
            i <= statements.len(),
            forall|k: int| 0 <= k < i ==> stmt_supported(#[trigger] stmt_views(statements@)[k]),
        decreases statements.len() - i,
    {
        i += 1;
    }
    assert forall|k: int| 0 <= k < stmt_views(statements@).take(i as int).len() implies stmt_supported(
        #[trigger] stmt_views(statements@).take(i as int)[k],
    ) by {
        assert(stmt_views(statements@).take(i as int)[k] == stmt_views(statements@)[k]);
    }
    i
}

/// One piece of pending work. The statements and expressions are those of
/// the program, which outlives the evaluator.
#[derive(Clone, Copy)]
enum Frame<'a> {
    Execute(&'a Stmt),
    Sequence(&'a [Stmt]),
    Evaluate(&'a Expr),
    Discard,
    Print,
    Define(&'a Token),
    Branch(&'a Stmt, Option<&'a Stmt>),
    Loop(&'a Expr, &'a Stmt),
    Leave,
    Unary(&'a Token),
    Binary(&'a Token),
    Assign(&'a Token),
    Logical(&'a Token, &'a Expr),
}

impl<'a> View for Frame<'a> {
    type V = FrameView;

    closed spec fn view(&self) -> FrameView {
        match self {
            Frame::Execute(s) => FrameView::Execute(s@),
            Frame::Sequence(statements) => FrameView::Sequence(stmt_views(statements@)),
            Frame::Evaluate(e) => FrameView::Evaluate(e@),
            Frame::Discard => FrameView::Discard,
            Frame::Print => FrameView::Print,
            Frame::Define(name) => FrameView::Define(name@),
            Frame::Branch(then_branch, else_branch) => FrameView::Branch(
                then_branch@,
                match else_branch {
                    Some(s) => Some(s@),
                    None => None,
                },
            ),
            Frame::Loop(test, body) => FrameView::Loop(test@, body@),
            Frame::Leave => FrameView::Leave,
            Frame::Unary(operator) => FrameView::Unary(operator@),
            Frame::Binary(operator) => FrameView::Binary(operator@),
            Frame::Assign(name) => FrameView::Assign(name@),
            Frame::Logical(operator, right) => FrameView::Logical(operator@, right@),
        }
    }
}

/// The evaluator: the scopes of the running program, its pending work and
/// the values of the expressions under evaluation.
pub struct Interpreter<'a> {
    environment: Environment,
    frames: Vec<Frame<'a>>,
    values: Vec<LiteralValue>,
}

impl<'a> View for Interpreter<'a> {
    type V = State;

    closed spec fn view(&self) -> State {
        State {
            scopes: self.environment@,
            frames: self.frames@.map_values(|f: Frame<'a>| f@),
            values: self.values@.map_values(|v: LiteralValue| v@),
        }
    }
}

impl<'a> Interpreter<'a> {
    /// An evaluator with one empty scope and nothing to do.
    pub fn new() -> (r: Self)
        ensures
            r@ == semantics::initial(),
            r@.wf(),
    {
        let r = Interpreter {
            environment: Environment::new(None),
            frames: Vec::new(),
            values: Vec::new(),
        };
        assert(r@.scopes =~= semantics::initial().scopes);
        assert(r@.frames =~= semantics::initial().frames);
        assert(r@.values =~= semantics::initial().values);
        r
    }

    /// Schedules the statements of a program: the next steps execute them in
    /// order, in the scopes that the evaluator holds.
    pub fn interpret(&mut self, statements: &'a [Stmt])
        requires
            old(self)@.wf(),
            all_supported(stmt_views(statements@)),
        ensures
            final(self)@ == old(self)@.push(FrameView::Sequence(stmt_views(statements@))),
            final(self)@.wf(),
    {
        proof {
            semantics::lemma_push(
                self@.frames,
                FrameView::Sequence(stmt_views(statements@)),
                self@.values.len() as int,
            );
        }
        self.push_frame(Frame::Sequence(statements));
    }

    /// Makes one transition.
    pub fn step(&mut self, event: Event) -> (action: Action)
        requires
            old(self)@.wf(),
        ensures
            final(self)@.wf(),
            (final(self)@, action@) == semantics::step(old(self)@, event@),
    {
        proof {
            semantics::lemma_step_preserves_wf(self@, event@);
        }
        if self.frames.len() == 0 {
            return Action::Finished(Ok(()));
        }
        let frame = self.top_frame();
        proof {
            let frames = self@.frames;
            assert(semantics::frame_supported(frames[frames.len() - 1]));
            assert(semantics::balanced(frames, self@.values.len() as int));
        }
        match frame {
            Frame::Execute(statement) => {
                self.pop_frame();
                self.execute(statement);
                Action::Continue
            },
            Frame::Sequence(statements) => {
                self.pop_frame();
                let n: usize = statements.len();
                if n > 0 {
                    let rest = slice_subrange(statements, 1, n);
                    assert(stmt_views(rest@) =~= stmt_views(statements@).drop_first());
                    self.push_frame(Frame::Sequence(rest));
                    self.push_frame(Frame::Execute(&statements[0]));
                }
                Action::Continue
            },
            Frame::Evaluate(e) => {
                self.pop_frame();
                self.evaluate(e)
            },
            Frame::Discard => {
                self.pop_frame();
                self.pop_value();
                Action::Continue
            },
            Frame::Print => self.print(event),
            Frame::Define(name) => {
                self.pop_frame();
                let value = self.pop_value();
                self.environment.define(name.lexeme.clone(), value);
                Action::Continue
            },
            Frame::Branch(then_branch, else_branch) => {
                self.pop_frame();
                let value = self.pop_value();
                if is_truthy(&value) {
                    self.push_frame(Frame::Execute(then_branch));
                } else {
                    match else_branch {
                        Some(other) => {
                            self.push_frame(Frame::Execute(other));
                        },
                        None => {},
                    }
                }
                Action::Continue
            },
            Frame::Loop(test, body) => {
                let value = self.pop_value();
                if is_truthy(&value) {
                    self.push_frame(Frame::Evaluate(test));
                    self.push_frame(Frame::Execute(body));
                } else {
                    self.pop_frame();
                }
                Action::Continue
            },
            Frame::Leave => {
                self.pop_frame();
                self.environment.leave();
                Action::Continue
            },
            Frame::Unary(operator) => {
                self.pop_frame();
                self.apply_unary(operator)
            },
            Frame::Binary(operator) => self.apply_binary(operator, event),
            Frame::Assign(name) => {
                self.pop_frame();
                let value = self.top_value().clone();
                match self.environment.assign(name, value) {
                    Ok(_) => Action::Continue,
                    Err(error) => self.fail(error),
                }
            },
            Frame::Logical(operator, right) => {
                self.pop_frame();
                let settled = if operator.token_type == TokenType::Or {
                    is_truthy(self.top_value())
                } else {
                    !is_truthy(self.top_value())
                };
                if !settled {
                    self.pop_value();
                    self.push_frame(Frame::Evaluate(right));
                }
                Action::Continue
            },
        }
    }

    /// Starts a statement.
    fn execute(&mut self, statement: &'a Stmt)
        requires
            stmt_supported(statement@),
        ensures
            final(self)@ == semantics::execute(old(self)@, statement@),
    {
        match statement {
            Stmt::Expression(e) => {
                self.push_frame(Frame::Discard);
                self.push_frame(Frame::Evaluate(e));
            },
            Stmt::Print(e) => {
                self.push_frame(Frame::Print);
                self.push_frame(Frame::Evaluate(e));
            },
            Stmt::Var(name, initializer) => {
                match initializer {
                    Some(e) => {
                        self.push_frame(Frame::Define(name));
                        self.push_frame(Frame::Evaluate(e));
                    },
                    None => {
                        self.environment.define(name.lexeme.clone(), LiteralValue::Nil);
                    },
                }
            },
            Stmt::Block(statements) => {
                self.environment.enter();
                self.push_frame(Frame::Leave);
                self.push_frame(Frame::Sequence(statements.as_slice()));
            },
            Stmt::If(test, then_branch, else_branch) => {
                let other: Option<&'a Stmt> = match else_branch {
                    Some(b) => Some(&**b),
                    None => None,
                };
                self.push_frame(Frame::Branch(then_branch, other));
                self.push_frame(Frame::Evaluate(test));
            },
            Stmt::While(test, body) => {
                self.push_frame(Frame::Loop(test, body));
                self.push_frame(Frame::Evaluate(test));
            },
            _ => {
                assert(false);
            },
        }
    }

    /// Starts an expression.
    fn evaluate(&mut self, expression: &'a Expr) -> (action: Action)
        requires
            expr_supported(expression@),
        ensures
            (final(self)@, action@) == semantics::evaluate(old(self)@, expression@),
    {
        match expression {
            Expr::Literal(value) => {
                let v = match value {
                    Some(v) => v.clone(),
                    None => LiteralValue::Nil,
                };
                self.push_value(v);
                Action::Continue
            },
            Expr::Grouping(inner) => {
                self.push_frame(Frame::Evaluate(inner));
                Action::Continue
            },
            Expr::Unary(operator, right) => {
                self.push_frame(Frame::Unary(operator));
                self.push_frame(Frame::Evaluate(right));
                Action::Continue
            },
            Expr::Variable(name) => self.evaluate_variable(name),
            Expr::Assignment(name, value) => {
                self.push_frame(Frame::Assign(name));
                self.push_frame(Frame::Evaluate(value));
                Action::Continue
            },
            Expr::Logical(left, operator, right) => {
                self.push_frame(Frame::Logical(operator, right));
                self.push_frame(Frame::Evaluate(left));
                Action::Continue
            },
            Expr::Binary(left, operator, right) => {
                self.push_frame(Frame::Binary(operator));
                self.push_frame(Frame::Evaluate(right));
                self.push_frame(Frame::Evaluate(left));
                Action::Continue
            },
            _ => {
                assert(false);
                Action::Continue
            },
        }
    }

    /// The value of the variable that `name` names, from the innermost scope
    /// that holds it.
    pub fn lookup_variable(&self, name: &Token) -> (r: Result<LiteralValue, RuntimeError>)
        ensures
            match (crate::environment::lookup(self@.scopes, name.lexeme@), r) {
                (Some(value), Ok(found)) => found@ == value,
                (None, Err(error)) => error@ == RuntimeErrorView::UndefinedVariable(name@),
                _ => false,
            },
    {
        self.environment.get(name)
    }

    /// Pushes the value of a variable, or fails if no scope holds it.
    fn evaluate_variable(&mut self, name: &Token) -> (action: Action)
        ensures
            (final(self)@, action@) == semantics::evaluate(
                old(self)@,
                crate::expr::ExprView::Variable(name@),
            ),
    {
        match self.environment.get(name) {
            Ok(value) => {
                self.push_value(value);
                Action::Continue
            },
            Err(error) => self.fail(error),
        }
    }

    /// Applies a unary operator to the value on top.
    fn apply_unary(&mut self, operator: &Token) -> (action: Action)
        requires
            old(self)@.values.len() > 0,
            semantics::is_unary_operator(operator.token_type),
        ensures
            (final(self)@, action@) == semantics::apply_unary(old(self)@, operator@),
    {
        if operator.token_type == TokenType::Minus {
            match self.top_value() {
                LiteralValue::Number(n) => {
                    let negated = number::negate(*n);
                    self.pop_value();
                    self.push_value(LiteralValue::Number(negated));
                    Action::Continue
                },
                _ => self.fail(
                    RuntimeError::UnexpectedType(
                        operator.clone(),
                        String::from_str("Operand must be a number."),
                    ),
                ),
            }
        } else {
            let value = self.pop_value();
            self.push_value(LiteralValue::Boolean(!is_truthy(&value)));
            Action::Continue
        }
    }

    /// Applies the binary operator of the frame on top to the two values on
    /// top.
    fn apply_binary(&mut self, operator: &Token, event: Event) -> (action: Action)
        requires
            old(self)@.frames.len() > 0,
            old(self)@.values.len() >= 2,
            semantics::is_binary_operator(operator.token_type),
        ensures
            (final(self)@, action@) == semantics::apply_binary(old(self)@, operator@, event@),
    {
        let n: usize = self.values.len();
        let outcome = binary_outcome(operator, &self.values[n - 2], &self.values[n - 1]);
        match outcome {
            Outcome::Value(v) => {
                self.pop_frame();
                self.pop_value();
                self.pop_value();
                self.push_value(v);
                assert(final(self)@.values =~= old(self)@.popped().drop_values(2).push_value(
                    v@,
                ).values);
                Action::Continue
            },
            Outcome::Request(kind, a, b) => match event {
                Event::Number(r) => {
                    self.pop_frame();
                    self.pop_value();
                    self.pop_value();
                    self.push_value(LiteralValue::Number(r));
                    assert(final(self)@.values =~= old(self)@.popped().drop_values(
                        2,
                    ).push_value(Value::Number(r)).values);
                    Action::Continue
                },
                _ => Action::Compute(kind, a, b),
            },
            Outcome::Error(error) => self.fail(error),
        }
    }

    /// Prints the value on top, for the print frame on top.
    fn print(&mut self, event: Event) -> (action: Action)
        requires
            old(self)@.frames.len() > 0,
            old(self)@.values.len() > 0,
        ensures
            (final(self)@, action@) == semantics::print(old(self)@, event@),
    {
        match stringify(self.top_value()) {
            Some(text) => {
                self.pop_frame();
                self.pop_value();
                Action::Print(text)
            },
            None => match event {
                Event::Text(text) => {
                    self.pop_frame();
                    self.pop_value();
                    Action::Print(text)
                },
                _ => match self.top_value() {
                    LiteralValue::Number(n) => Action::Render(*n),
                    _ => {
                        assert(false);
                        Action::Continue
                    },
                },
            },
        }
    }

    /// Ends the program with an error: drops the pending work and the
    /// values, and closes every scope but the outermost.
    fn fail(&mut self, error: RuntimeError) -> (action: Action)
        ensures
            (final(self)@, action@) == semantics::failed(old(self)@, error@),
    {
        let ghost scopes = self.environment@;
        let ghost mut closed: int = 0;
        proof {
            self.environment.lemma_nonempty();
            assert(scopes.subrange(0, scopes.len() as int) =~= scopes);
        }
        while self.environment.is_enclosed()
            invariant
                0 <= closed < scopes.len(),
                self.environment@ == scopes.subrange(closed, scopes.len() as int),
            decreases scopes.len() - closed,
        {
            self.environment.leave();
            proof {
                assert(scopes.subrange(closed, scopes.len() as int).drop_first()
                    =~= scopes.subrange(closed + 1, scopes.len() as int));
                closed = closed + 1;
            }
        }
        self.frames.clear();
        self.values.clear();
        assert(final(self)@.frames =~= Seq::empty());
        assert(final(self)@.values =~= Seq::empty());
        Action::Finished(Err(error))
    }

    /// The frame on top.
    fn top_frame(&self) -> (f: Frame<'a>)
        requires
            self.frames.len() > 0,
        ensures
            f@ == self@.frames.last(),
    {
        self.frames[self.frames.len() - 1]
    }

    /// Takes the frame on top.
    fn pop_frame(&mut self)
        requires
            old(self)@.frames.len() > 0,
        ensures
            final(self)@ == old(self)@.popped(),
    {
        self.frames.pop();
        assert(final(self)@.frames =~= old(self)@.frames.drop_last());
    }

    /// Puts a frame on top.
    fn push_frame(&mut self, frame: Frame<'a>)
        ensures
            final(self)@ == old(self)@.push(frame@),
    {
        self.frames.push(frame);
        assert(final(self)@.frames =~= old(self)@.frames.push(frame@));
    }

    /// The value on top.
    fn top_value(&self) -> (v: &LiteralValue)
        requires
            self@.values.len() > 0,
        ensures
            v@ == self@.top(),
    {
        &self.values[self.values.len() - 1]
    }

    /// Takes the value on top.
    fn pop_value(&mut self) -> (v: LiteralValue)
        requires
            old(self)@.values.len() > 0,
        ensures
            final(self)@ == old(self)@.drop_values(1),
            v@ == old(self)@.top(),
    {
        let v = self.values.pop().unwrap();
        assert(final(self)@.values =~= old(self)@.values.subrange(
            0,
            old(self)@.values.len() - 1,
        ));
        v
    }

    /// Puts a value on top.
    fn push_value(&mut self, value: LiteralValue)
        ensures
            final(self)@ == old(self)@.push_value(value@),
    {
        self.values.push(value);
        assert(final(self)@.values =~= old(self)@.values.push(value@));
    }
}

} // verus!
