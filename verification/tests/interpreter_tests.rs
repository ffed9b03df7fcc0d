use lox::error::InterpreterError;
use lox::interpreter::{
    binary_outcome, check_number_operands, is_equal, is_truthy, program_is_supported,
    stmt_is_supported, supported_prefix,
    Action, Event, Interpreter, Outcome, RuntimeError,
};
use lox::parser::Parser;
use lox::scanner::{attach_numbers, LiteralValue, ParseError, Scanner, Token, TokenType};
use lox::semantics::Arithmetic;
use lox::stmt::Stmt;

fn parse(source: &str) -> Vec<Stmt> {
    let mut scanner = Scanner::new(source.to_string());
    let tokens = scanner.scan_tokens().unwrap();
    let values: Vec<Option<u64>> = tokens
        .iter()
        .map(|token| token.lexeme.parse::<f64>().ok().map(f64::to_bits))
        .collect();
    let tokens = attach_numbers(tokens, &values);
    let mut parser = Parser::new(tokens);
    parser.parse().unwrap()
}

fn compute(kind: Arithmetic, a: u64, b: u64) -> u64 {
    let (a, b) = (f64::from_bits(a), f64::from_bits(b));
    let r = match kind {
        Arithmetic::Add => a + b,
        Arithmetic::Subtract => a - b,
        Arithmetic::Multiply => a * b,
        Arithmetic::Divide => a / b,
    };
    r.to_bits()
}

fn drive(interpreter: &mut Interpreter, output: &mut Vec<String>) -> Result<(), RuntimeError> {
    let mut event = Event::Resume;
    let mut steps: u64 = 0;
    loop {
        steps += 1;
        assert!(steps < 1_000_000, "the program does not end");
        match interpreter.step(event) {
            Action::Continue => event = Event::Resume,
            Action::Compute(kind, a, b) => event = Event::Number(compute(kind, a, b)),
            Action::Render(n) => event = Event::Text(format!("{}", f64::from_bits(n))),
            Action::Print(line) => {
                output.push(line);
                event = Event::Resume;
            }
            Action::Finished(result) => return result,
        }
    }
}

fn run(source: &str) -> (Vec<String>, Result<(), RuntimeError>) {
    let program = parse(source);
    assert!(program_is_supported(&program));
    let mut interpreter = Interpreter::new();
    interpreter.interpret(&program);
    let mut output = Vec::new();
    let result = drive(&mut interpreter, &mut output);
    (output, result)
}

fn prints(source: &str) -> Vec<String> {
    let (output, result) = run(source);
    assert_eq!(result, Ok(()));
    output
}

fn value_of(expression: &str) -> Result<LiteralValue, RuntimeError> {
    let program = parse(&format!("var result = {};", expression));
    let mut interpreter = Interpreter::new();
    interpreter.interpret(&program);
    let mut output = Vec::new();
    drive(&mut interpreter, &mut output)?;
    interpreter.lookup_variable(&name("result"))
}

fn name(text: &str) -> Token {
    Token::new(TokenType::Identifier, text.to_string(), None, 1)
}

fn number(x: f64) -> LiteralValue {
    LiteralValue::Number(x.to_bits())
}

fn string(s: &str) -> LiteralValue {
    LiteralValue::String(s.to_string())
}

#[test]
fn precedence_in_arithmetic() {
    assert_eq!(value_of("1 + 2 * 3"), Ok(number(7.0)));
    assert_eq!(value_of("(1 + 2) * 3"), Ok(number(9.0)));
    assert_eq!(value_of("10 - 4 - 3"), Ok(number(3.0)));
    assert_eq!(value_of("2 * 3 - 8 / 4"), Ok(number(4.0)));
}

#[test]
fn grouping_is_transparent() {
    for expression in ["1 + 2 * 3", "\"a\" + \"b\"", "!nil", "1 < 2", "-(3)", "nil"] {
        assert_eq!(value_of(&format!("({})", expression)), value_of(expression));
        assert_eq!(value_of(&format!("(({}))", expression)), value_of(expression));
    }
    assert_eq!(value_of("(1 / 0)"), value_of("1 / 0"));
}

#[test]
fn plus_adds_numbers_and_joins_strings() {
    assert_eq!(value_of("\"a\" + \"b\""), Ok(string("ab")));
    assert_eq!(value_of("1.5 + 2.25"), Ok(number(3.75)));
    assert_eq!(value_of("\"\" + \"\""), Ok(string("")));
}

#[test]
fn plus_on_mixed_operands_is_an_error() {
    match value_of("\"a\" + 1") {
        Err(RuntimeError::InvalidOperand(token, message)) => {
            assert_eq!(token.token_type, TokenType::Plus);
            assert_eq!(message, "Operands must be two numbers or two strings.");
        }
        other => panic!("unexpected result {:?}", other),
    }
    assert!(matches!(value_of("1 + \"a\""), Err(RuntimeError::InvalidOperand(_, _))));
    assert!(matches!(value_of("nil + nil"), Err(RuntimeError::InvalidOperand(_, _))));
    assert!(matches!(value_of("true + 1"), Err(RuntimeError::InvalidOperand(_, _))));
}

#[test]
fn division() {
    assert_eq!(value_of("1 / 2"), Ok(number(0.5)));
    assert_eq!(value_of("7 / 2"), Ok(number(3.5)));
}

#[test]
fn division_by_zero_is_an_error() {
    match value_of("1 / 0") {
        Err(RuntimeError::DivisionByZero(token)) => {
            assert_eq!(token.token_type, TokenType::Slash);
            assert_eq!(token.lexeme, "/");
        }
        other => panic!("unexpected result {:?}", other),
    }
    assert!(matches!(value_of("0 / 0"), Err(RuntimeError::DivisionByZero(_))));
    assert!(matches!(value_of("1 / -0"), Err(RuntimeError::DivisionByZero(_))));
    assert!(matches!(value_of("1 / (2 - 2)"), Err(RuntimeError::DivisionByZero(_))));
}

#[test]
fn arithmetic_needs_numbers() {
    for expression in ["\"a\" - 1", "1 * nil", "true / 2", "\"a\" / 0", "1 < \"b\"", "nil >= nil"] {
        match value_of(expression) {
            Err(RuntimeError::UnexpectedType(_, message)) => {
                assert_eq!(message, "Operands must be numbers.")
            }
            other => panic!("unexpected result {:?} for {}", other, expression),
        }
    }
}

#[test]
fn unary_operators() {
    assert_eq!(value_of("-3"), Ok(number(-3.0)));
    assert_eq!(value_of("--3"), Ok(number(3.0)));
    assert_eq!(value_of("-0"), Ok(number(-0.0)));
    assert_eq!(value_of("!true"), Ok(LiteralValue::Boolean(false)));
    assert_eq!(value_of("!nil"), Ok(LiteralValue::Boolean(true)));
    assert_eq!(value_of("!0"), Ok(LiteralValue::Boolean(false)));
    assert_eq!(value_of("!\"\""), Ok(LiteralValue::Boolean(false)));
    match value_of("-\"a\"") {
        Err(RuntimeError::UnexpectedType(token, message)) => {
            assert_eq!(token.token_type, TokenType::Minus);
            assert_eq!(message, "Operand must be a number.");
        }
        other => panic!("unexpected result {:?}", other),
    }
}

#[test]
fn comparisons() {
    assert_eq!(value_of("1 < 2"), Ok(LiteralValue::Boolean(true)));
    assert_eq!(value_of("2 < 1"), Ok(LiteralValue::Boolean(false)));
    assert_eq!(value_of("2 > 1"), Ok(LiteralValue::Boolean(true)));
    assert_eq!(value_of("1 > 1"), Ok(LiteralValue::Boolean(false)));
    assert_eq!(value_of("1 >= 1"), Ok(LiteralValue::Boolean(true)));
    assert_eq!(value_of("0 >= 1"), Ok(LiteralValue::Boolean(false)));
}

#[test]
fn less_or_equal_is_less_or_equal() {
    assert_eq!(value_of("1 <= 2"), Ok(LiteralValue::Boolean(true)));
    assert_eq!(value_of("2 <= 2"), Ok(LiteralValue::Boolean(true)));
    assert_eq!(value_of("3 <= 2"), Ok(LiteralValue::Boolean(false)));
    assert_eq!(value_of("-1 <= 0"), Ok(LiteralValue::Boolean(true)));
}

#[test]
fn equality() {
    assert_eq!(value_of("1 == 1"), Ok(LiteralValue::Boolean(true)));
    assert_eq!(value_of("1 != 1"), Ok(LiteralValue::Boolean(false)));
    assert_eq!(value_of("\"a\" == \"a\""), Ok(LiteralValue::Boolean(true)));
    assert_eq!(value_of("\"a\" == \"b\""), Ok(LiteralValue::Boolean(false)));
    assert_eq!(value_of("nil == nil"), Ok(LiteralValue::Boolean(true)));
    assert_eq!(value_of("true == true"), Ok(LiteralValue::Boolean(true)));
    assert_eq!(value_of("true != false"), Ok(LiteralValue::Boolean(true)));
    assert_eq!(value_of("0 == -0"), Ok(LiteralValue::Boolean(true)));
}

#[test]
fn values_of_different_types_are_never_equal() {
    assert_eq!(value_of("1 == \"1\""), Ok(LiteralValue::Boolean(false)));
    assert_eq!(value_of("nil == false"), Ok(LiteralValue::Boolean(false)));
    assert_eq!(value_of("0 == false"), Ok(LiteralValue::Boolean(false)));
    assert_eq!(value_of("\"\" != nil"), Ok(LiteralValue::Boolean(true)));
}

#[test]
fn shadowing() {
    assert_eq!(prints("var x = 1; { var x = 2; print x; } print x;"), vec!["2", "1"]);
}

#[test]
fn inner_scope_sees_and_changes_outer_variables() {
    assert_eq!(prints("var x = 1; { x = x + 1; print x; } print x;"), vec!["2", "2"]);
}

#[test]
fn assignment_to_an_undeclared_name_is_an_error() {
    let (output, result) = run("y = 5;");
    assert!(output.is_empty());
    match result {
        Err(RuntimeError::UndefinedVariable(token)) => assert_eq!(token.lexeme, "y"),
        other => panic!("unexpected result {:?}", other),
    }
}

#[test]
fn assignment_changes_a_declared_variable() {
    let program = parse("var y = 5; y = 6;");
    let mut interpreter = Interpreter::new();
    interpreter.interpret(&program);
    let mut output = Vec::new();
    assert_eq!(drive(&mut interpreter, &mut output), Ok(()));
    assert_eq!(interpreter.lookup_variable(&name("y")), Ok(number(6.0)));
}

#[test]
fn assignment_is_an_expression() {
    assert_eq!(prints("var a; var b; print a = b = 3; print a; print b;"), vec!["3", "3", "3"]);
}

#[test]
fn reading_an_undeclared_variable_is_an_error() {
    let (output, result) = run("print 1; print z; print 2;");
    assert_eq!(output, vec!["1"]);
    match result {
        Err(RuntimeError::UndefinedVariable(token)) => assert_eq!(token.lexeme, "z"),
        other => panic!("unexpected result {:?}", other),
    }
}

#[test]
fn a_variable_without_initializer_is_nil() {
    assert_eq!(prints("var x; print x;"), vec!["nil"]);
}

#[test]
fn short_circuit() {
    assert_eq!(run("false and (1/0);").1, Ok(()));
    assert_eq!(run("true or (1/0);").1, Ok(()));
    assert_eq!(run("nil and (1/0);").1, Ok(()));
    assert!(matches!(run("true and (1/0);").1, Err(RuntimeError::DivisionByZero(_))));
    assert!(matches!(run("false or (1/0);").1, Err(RuntimeError::DivisionByZero(_))));
}

#[test]
fn logical_operators_give_an_operand_not_a_boolean() {
    assert_eq!(value_of("1 or 2"), Ok(number(1.0)));
    assert_eq!(value_of("nil or \"x\""), Ok(string("x")));
    assert_eq!(value_of("nil and 2"), Ok(LiteralValue::Nil));
    assert_eq!(value_of("1 and 2"), Ok(number(2.0)));
    assert_eq!(value_of("false or false"), Ok(LiteralValue::Boolean(false)));
    assert_eq!(value_of("0 and \"\""), Ok(string("")));
}

#[test]
fn for_loop() {
    assert_eq!(prints("for (var i = 0; i < 3; i = i + 1) print i;"), vec!["0", "1", "2"]);
}

#[test]
fn for_loop_variable_is_local_to_the_loop() {
    let (output, result) = run("for (var i = 0; i < 1; i = i + 1) print i; print i;");
    assert_eq!(output, vec!["0"]);
    assert!(matches!(result, Err(RuntimeError::UndefinedVariable(_))));
}

#[test]
fn while_loop() {
    assert_eq!(
        prints("var i = 3; while (i > 0) { print i; i = i - 1; } print \"done\";"),
        vec!["3", "2", "1", "done"]
    );
    assert_eq!(prints("while (false) print 1;"), Vec::<String>::new());
    assert_eq!(prints("while (nil) print 1;"), Vec::<String>::new());
}

#[test]
fn an_error_inside_a_loop_ends_it() {
    let (output, result) = run("var i = 2; while (true) { print 1 / i; i = i - 1; }");
    assert_eq!(output, vec!["0.5", "1"]);
    assert!(matches!(result, Err(RuntimeError::DivisionByZero(_))));
}

#[test]
fn if_statement() {
    assert_eq!(prints("if (1 < 2) print \"yes\"; else print \"no\";"), vec!["yes"]);
    assert_eq!(prints("if (1 > 2) print \"yes\"; else print \"no\";"), vec!["no"]);
    assert_eq!(prints("if (nil) print \"yes\";"), Vec::<String>::new());
    assert_eq!(prints("if (0) print \"zero is truthy\";"), vec!["zero is truthy"]);
    assert_eq!(prints("if (\"\") print \"empty is truthy\";"), vec!["empty is truthy"]);
}

#[test]
fn print_renders_values() {
    assert_eq!(
        prints("print nil; print true; print false; print \"text\"; print 7; print 0.5; print -2.25; print 1 / 3;"),
        vec!["nil", "true", "false", "text", "7", "0.5", "-2.25", "0.3333333333333333"]
    );
}

#[test]
fn statements_run_in_order_and_stop_at_the_first_error() {
    let (output, result) = run("print 1; print 2; print -\"x\"; print 3;");
    assert_eq!(output, vec!["1", "2"]);
    assert!(matches!(result, Err(RuntimeError::UnexpectedType(_, _))));
}

#[test]
fn operands_are_evaluated_left_to_right() {
    let (output, result) = run("var a = 1; print (a = 2) + (a = a * 10); print a;");
    assert_eq!(result, Ok(()));
    assert_eq!(output, vec!["22", "20"]);
    assert!(matches!(run("print z + (1 / 0);").1, Err(RuntimeError::UndefinedVariable(_))));
}

#[test]
fn scopes_are_closed_after_an_error() {
    let program = parse("var x = 1; { var x = 2; { var x = 3; 1 / 0; } }");
    let mut interpreter = Interpreter::new();
    interpreter.interpret(&program);
    let mut output = Vec::new();
    assert!(matches!(
        drive(&mut interpreter, &mut output),
        Err(RuntimeError::DivisionByZero(_))
    ));
    assert_eq!(interpreter.lookup_variable(&name("x")), Ok(number(1.0)));
    assert_eq!(interpreter.step(Event::Resume), Action::Finished(Ok(())));
}

#[test]
fn globals_outlive_a_program() {
    let first = parse("var x = 1;");
    let second = parse("print x + 1;");
    let mut interpreter = Interpreter::new();
    let mut output = Vec::new();
    interpreter.interpret(&first);
    assert_eq!(drive(&mut interpreter, &mut output), Ok(()));
    interpreter.interpret(&second);
    assert_eq!(drive(&mut interpreter, &mut output), Ok(()));
    assert_eq!(output, vec!["2"]);
}

#[test]
fn an_idle_evaluator_is_finished() {
    let mut interpreter = Interpreter::new();
    assert_eq!(interpreter.step(Event::Resume), Action::Finished(Ok(())));
    assert_eq!(interpreter.step(Event::Number(1)), Action::Finished(Ok(())));
}

#[test]
fn the_evaluator_asks_again_until_it_is_answered() {
    let program = parse("print 1 + 2;");
    let mut interpreter = Interpreter::new();
    interpreter.interpret(&program);
    let mut action = interpreter.step(Event::Resume);
    while action == Action::Continue {
        action = interpreter.step(Event::Resume);
    }
    let request = Action::Compute(Arithmetic::Add, 1.0f64.to_bits(), 2.0f64.to_bits());
    assert_eq!(action, request);
    assert_eq!(interpreter.step(Event::Resume), request);
    assert_eq!(interpreter.step(Event::Text("3".to_string())), request);
    assert_eq!(interpreter.step(Event::Number(3.0f64.to_bits())), Action::Continue);
    assert_eq!(interpreter.step(Event::Resume), Action::Render(3.0f64.to_bits()));
    assert_eq!(interpreter.step(Event::Number(0)), Action::Render(3.0f64.to_bits()));
    assert_eq!(
        interpreter.step(Event::Text("three".to_string())),
        Action::Print("three".to_string())
    );
    assert_eq!(interpreter.step(Event::Resume), Action::Continue);
    assert_eq!(interpreter.step(Event::Resume), Action::Finished(Ok(())));
}

#[test]
fn programs_with_functions_are_not_supported() {
    assert!(!program_is_supported(&parse("fun f() {}")));
    assert!(!program_is_supported(&parse("print this;")));
    assert!(!program_is_supported(&parse("{ if (true) { super.x; } }")));
    assert!(program_is_supported(&parse("{ if (true) { var x = 1 + 2; } else while (x) x = !x; }")));
    assert!(program_is_supported(&parse("")));
}

#[test]
fn truthiness() {
    assert!(!is_truthy(&LiteralValue::Nil));
    assert!(!is_truthy(&LiteralValue::Boolean(false)));
    assert!(is_truthy(&LiteralValue::Boolean(true)));
    assert!(is_truthy(&number(0.0)));
    assert!(is_truthy(&number(f64::NAN)));
    assert!(is_truthy(&string("")));
}

#[test]
fn equality_of_values() {
    assert!(is_equal(&LiteralValue::Nil, &LiteralValue::Nil));
    assert!(is_equal(&number(2.0), &number(2.0)));
    assert!(is_equal(&number(0.0), &number(-0.0)));
    assert!(!is_equal(&number(f64::NAN), &number(f64::NAN)));
    assert!(is_equal(&string("a"), &string("a")));
    assert!(!is_equal(&string("a"), &string("b")));
    assert!(!is_equal(&string("1"), &number(1.0)));
    assert!(!is_equal(&LiteralValue::Nil, &LiteralValue::Boolean(false)));
}

#[test]
fn stringify_values() {
    assert_eq!(lox::interpreter::stringify(&LiteralValue::Nil), Some("nil".to_string()));
    assert_eq!(lox::interpreter::stringify(&LiteralValue::Boolean(true)), Some("true".to_string()));
    assert_eq!(lox::interpreter::stringify(&LiteralValue::Boolean(false)), Some("false".to_string()));
    assert_eq!(lox::interpreter::stringify(&string("x y")), Some("x y".to_string()));
    assert_eq!(lox::interpreter::stringify(&number(1.0)), None);
}

#[test]
fn number_operands() {
    let plus = Token::new(TokenType::Minus, "-".to_string(), None, 4);
    assert_eq!(
        check_number_operands(&plus, &number(1.0), &number(2.0)),
        Ok((1.0f64.to_bits(), 2.0f64.to_bits()))
    );
    assert_eq!(
        check_number_operands(&plus, &number(1.0), &LiteralValue::Nil),
        Err(RuntimeError::UnexpectedType(plus.clone(), "Operands must be numbers.".to_string()))
    );
}

#[test]
fn outcomes_of_binary_operators() {
    let op = |token_type: TokenType, lexeme: &str| Token::new(token_type, lexeme.to_string(), None, 1);
    assert_eq!(
        binary_outcome(&op(TokenType::Star, "*"), &number(2.0), &number(3.0)),
        Outcome::Request(Arithmetic::Multiply, 2.0f64.to_bits(), 3.0f64.to_bits())
    );
    assert_eq!(
        binary_outcome(&op(TokenType::Minus, "-"), &number(2.0), &number(3.0)),
        Outcome::Request(Arithmetic::Subtract, 2.0f64.to_bits(), 3.0f64.to_bits())
    );
    assert_eq!(
        binary_outcome(&op(TokenType::Slash, "/"), &number(2.0), &number(0.0)),
        Outcome::Error(RuntimeError::DivisionByZero(op(TokenType::Slash, "/")))
    );
    assert_eq!(
        binary_outcome(&op(TokenType::LessEqual, "<="), &number(2.0), &number(3.0)),
        Outcome::Value(LiteralValue::Boolean(true))
    );
    assert_eq!(
        binary_outcome(&op(TokenType::Plus, "+"), &string("a"), &string("b")),
        Outcome::Value(string("ab"))
    );
}

#[test]
fn runtime_error_messages() {
    let token = Token::new(TokenType::Slash, "/".to_string(), None, 7);
    assert_eq!(
        RuntimeError::DivisionByZero(token.clone()).to_string(),
        "Line 7: Runtime Error:Division by zero: /"
    );
    assert_eq!(
        RuntimeError::UndefinedVariable(Token::new(TokenType::Identifier, "y".to_string(), None, 12)).to_string(),
        "Line 12: Runtime Error: Undefined variable 'y'"
    );
    assert_eq!(
        RuntimeError::UnexpectedType(token.clone(), "Operands must be numbers.".to_string()).to_string(),
        "Line 7: Runtime Error: Unexpected type for '/': Operands must be numbers."
    );
    assert_eq!(
        RuntimeError::InvalidOperand(token, "Operands must be two numbers or two strings.".to_string()).to_string(),
        "Line 7: Runtime Error: Invalid operand for '/': Operands must be two numbers or two strings."
    );
}

#[test]
fn errors_of_a_run() {
    let parse_error: InterpreterError = ParseError::UnterminatedString(2).into();
    assert_eq!(parse_error, InterpreterError::Parse(ParseError::UnterminatedString(2)));
    assert_eq!(parse_error.to_string(), "Parse error: Line 2: Unterminated string");
    let runtime_error = InterpreterError::from(RuntimeError::UndefinedVariable(name("y")));
    assert_eq!(
        runtime_error.to_string(),
        "Runtime error: Line 1: Runtime Error: Undefined variable 'y'"
    );
}

#[test]
fn runtime_errors_carry_the_line() {
    match run("var a = 1;\n\nprint a / 0;").1 {
        Err(RuntimeError::DivisionByZero(token)) => assert_eq!(token.line, 3),
        other => panic!("unexpected result {:?}", other),
    }
}

#[test]
fn the_supported_prefix_of_a_program() {
    assert_eq!(supported_prefix(&parse("")), 0);
    assert_eq!(supported_prefix(&parse("print 1; var x = 2;")), 2);
    assert_eq!(supported_prefix(&parse("print 1; fun f() {} print 2;")), 1);
    assert_eq!(supported_prefix(&parse("print this;")), 0);
    assert_eq!(supported_prefix(&parse("print 1; { print 2; fun f() {} }")), 1);
    let program = parse("print 1; print 2; fun f() {}");
    assert!(stmt_is_supported(&program[0]));
    assert!(!stmt_is_supported(&program[2]));
    assert!(program_is_supported(&program[..supported_prefix(&program)]));
}

#[test]
fn the_statements_in_front_of_an_unsupported_one_can_be_run() {
    let program = parse("print 1; print 2; fun f() {} print 3;");
    let runnable = supported_prefix(&program);
    let mut interpreter = Interpreter::new();
    interpreter.interpret(&program[..runnable]);
    let mut output = Vec::new();
    assert_eq!(drive(&mut interpreter, &mut output), Ok(()));
    assert_eq!(output, vec!["1", "2"]);
}
