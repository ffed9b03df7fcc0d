use lox::expr::Expr;
use lox::parser::Parser;
use lox::scanner::{attach_numbers, LiteralValue, ParseError, Scanner, Token, TokenType};
use lox::stmt::Stmt;

fn scan(source: &str) -> Vec<Token> {
    let mut scanner = Scanner::new(source.to_string());
    let tokens = scanner.scan_tokens().unwrap();
    let values: Vec<Option<u64>> = tokens
        .iter()
        .map(|token| token.lexeme.parse::<f64>().ok().map(f64::to_bits))
        .collect();
    let tokens = attach_numbers(tokens, &values);
    tokens
}

fn parse(source: &str) -> Result<Vec<Stmt>, ParseError> {
    let mut parser = Parser::new(scan(source));
    parser.parse()
}

fn parse_expression(source: &str) -> Expr {
    let mut statements = parse(&format!("{};", source)).unwrap();
    assert_eq!(statements.len(), 1);
    match statements.remove(0) {
        Stmt::Expression(e) => e,
        other => panic!("not an expression statement: {:?}", other),
    }
}

fn tok(token_type: TokenType, lexeme: &str) -> Token {
    Token::new(token_type, lexeme.to_string(), None, 1)
}

fn num(x: f64) -> Expr {
    Expr::Literal(Some(LiteralValue::Number(x.to_bits())))
}

fn var(name: &str) -> Expr {
    Expr::Variable(tok(TokenType::Identifier, name))
}

fn binary(left: Expr, token_type: TokenType, lexeme: &str, right: Expr) -> Expr {
    Expr::Binary(Box::new(left), tok(token_type, lexeme), Box::new(right))
}

#[test]
fn empty_program() {
    assert_eq!(parse(""), Ok(vec![]));
}

#[test]
fn literals() {
    assert_eq!(parse_expression("true"), Expr::Literal(Some(LiteralValue::Boolean(true))));
    assert_eq!(parse_expression("false"), Expr::Literal(Some(LiteralValue::Boolean(false))));
    assert_eq!(parse_expression("nil"), Expr::Literal(None));
    assert_eq!(parse_expression("12.5"), num(12.5));
    assert_eq!(
        parse_expression("\"hi\""),
        Expr::Literal(Some(LiteralValue::String("hi".to_string())))
    );
}

#[test]
fn multiplication_binds_tighter_than_addition() {
    assert_eq!(
        parse_expression("1 + 2 * 3"),
        binary(
            num(1.0),
            TokenType::Plus,
            "+",
            binary(num(2.0), TokenType::Star, "*", num(3.0))
        )
    );
}

#[test]
fn grouping_overrides_precedence() {
    assert_eq!(
        parse_expression("(1 + 2) * 3"),
        binary(
            Expr::Grouping(Box::new(binary(num(1.0), TokenType::Plus, "+", num(2.0)))),
            TokenType::Star,
            "*",
            num(3.0)
        )
    );
}

#[test]
fn binary_operators_associate_to_the_left() {
    assert_eq!(
        parse_expression("1 - 2 - 3"),
        binary(
            binary(num(1.0), TokenType::Minus, "-", num(2.0)),
            TokenType::Minus,
            "-",
            num(3.0)
        )
    );
    assert_eq!(
        parse_expression("8 / 4 / 2"),
        binary(
            binary(num(8.0), TokenType::Slash, "/", num(4.0)),
            TokenType::Slash,
            "/",
            num(2.0)
        )
    );
}

#[test]
fn precedence_cascade() {
    // a or b and c == d < e + f * !g
    let expected = Expr::Logical(
        Box::new(var("a")),
        tok(TokenType::Or, "or"),
        Box::new(Expr::Logical(
            Box::new(var("b")),
            tok(TokenType::And, "and"),
            Box::new(binary(
                var("c"),
                TokenType::EqualEqual,
                "==",
                binary(
                    var("d"),
                    TokenType::Less,
                    "<",
                    binary(
                        var("e"),
                        TokenType::Plus,
                        "+",
                        binary(
                            var("f"),
                            TokenType::Star,
                            "*",
                            Expr::Unary(tok(TokenType::Bang, "!"), Box::new(var("g"))),
                        ),
                    ),
                ),
            )),
        )),
    );
    assert_eq!(parse_expression("a or b and c == d < e + f * !g"), expected);
}

#[test]
fn unary_operators_nest() {
    assert_eq!(
        parse_expression("!-x"),
        Expr::Unary(
            tok(TokenType::Bang, "!"),
            Box::new(Expr::Unary(tok(TokenType::Minus, "-"), Box::new(var("x"))))
        )
    );
}

#[test]
fn assignment_associates_to_the_right() {
    assert_eq!(
        parse_expression("a = b = 1"),
        Expr::Assignment(
            tok(TokenType::Identifier, "a"),
            Box::new(Expr::Assignment(tok(TokenType::Identifier, "b"), Box::new(num(1.0))))
        )
    );
}

#[test]
fn invalid_assignment_target() {
    assert_eq!(
        parse("1 = 2;"),
        Err(ParseError::UnexpectedToken(
            tok(TokenType::Equal, "="),
            "Invalid assignment target.".to_string()
        ))
    );
    assert_eq!(
        parse("(a) = 2;"),
        Err(ParseError::UnexpectedToken(
            tok(TokenType::Equal, "="),
            "Invalid assignment target.".to_string()
        ))
    );
}

#[test]
fn this_and_super() {
    assert_eq!(parse_expression("this"), Expr::This(tok(TokenType::This, "this")));
    assert_eq!(
        parse_expression("super.go"),
        Expr::Super(tok(TokenType::Super, "super"), tok(TokenType::Identifier, "go"))
    );
    assert_eq!(
        parse("super go;"),
        Err(ParseError::ExpectedToken(TokenType::Dot, tok(TokenType::Identifier, "go")))
    );
}

#[test]
fn var_declarations() {
    assert_eq!(
        parse("var x; var y = 2;"),
        Ok(vec![
            Stmt::Var(tok(TokenType::Identifier, "x"), None),
            Stmt::Var(tok(TokenType::Identifier, "y"), Some(num(2.0))),
        ])
    );
}

#[test]
fn var_declaration_needs_a_name_and_a_semicolon() {
    assert_eq!(
        parse("var 1;"),
        Err(ParseError::ExpectedToken(TokenType::Identifier, {
            let mut t = tok(TokenType::Number, "1");
            t.literal = Some(LiteralValue::Number(1.0f64.to_bits()));
            t
        }))
    );
    assert_eq!(
        parse("var x = 1"),
        Err(ParseError::ExpectedToken(TokenType::Semicolon, tok(TokenType::Eof, "")))
    );
    assert_eq!(
        parse("var x 1;"),
        Err(ParseError::ExpectedToken(TokenType::Semicolon, {
            let mut t = tok(TokenType::Number, "1");
            t.literal = Some(LiteralValue::Number(1.0f64.to_bits()));
            t
        }))
    );
}

#[test]
fn print_and_expression_statements() {
    assert_eq!(
        parse("print 1; x;"),
        Ok(vec![Stmt::Print(num(1.0)), Stmt::Expression(var("x"))])
    );
    assert_eq!(
        parse("print 1"),
        Err(ParseError::ExpectedToken(TokenType::Semicolon, tok(TokenType::Eof, "")))
    );
}

#[test]
fn blocks() {
    assert_eq!(
        parse("{ var x = 1; { print x; } }"),
        Ok(vec![Stmt::Block(vec![
            Stmt::Var(tok(TokenType::Identifier, "x"), Some(num(1.0))),
            Stmt::Block(vec![Stmt::Print(var("x"))]),
        ])])
    );
    assert_eq!(parse("{}"), Ok(vec![Stmt::Block(vec![])]));
    assert_eq!(
        parse("{ print 1;"),
        Err(ParseError::ExpectedToken(TokenType::RightBrace, tok(TokenType::Eof, "")))
    );
}

#[test]
fn if_statements() {
    assert_eq!(
        parse("if (a) print 1;"),
        Ok(vec![Stmt::If(var("a"), Box::new(Stmt::Print(num(1.0))), None)])
    );
    assert_eq!(
        parse("if (a) print 1; else print 2;"),
        Ok(vec![Stmt::If(
            var("a"),
            Box::new(Stmt::Print(num(1.0))),
            Some(Box::new(Stmt::Print(num(2.0))))
        )])
    );
    assert_eq!(
        parse("if a) print 1;"),
        Err(ParseError::ExpectedToken(TokenType::LeftParen, tok(TokenType::Identifier, "a")))
    );
}

#[test]
fn else_belongs_to_the_nearest_if() {
    assert_eq!(
        parse("if (a) if (b) print 1; else print 2;"),
        Ok(vec![Stmt::If(
            var("a"),
            Box::new(Stmt::If(
                var("b"),
                Box::new(Stmt::Print(num(1.0))),
                Some(Box::new(Stmt::Print(num(2.0))))
            )),
            None
        )])
    );
}

#[test]
fn while_statements() {
    assert_eq!(
        parse("while (a) x = 1;"),
        Ok(vec![Stmt::While(
            var("a"),
            Box::new(Stmt::Expression(Expr::Assignment(
                tok(TokenType::Identifier, "x"),
                Box::new(num(1.0))
            )))
        )])
    );
    assert_eq!(
        parse("while (a print 1;"),
        Err(ParseError::ExpectedToken(TokenType::RightParen, tok(TokenType::Print, "print")))
    );
}

#[test]
fn for_statement_is_rewritten_to_a_while_loop() {
    let increment = Expr::Assignment(
        tok(TokenType::Identifier, "i"),
        Box::new(binary(var("i"), TokenType::Plus, "+", num(1.0))),
    );
    assert_eq!(
        parse("for (var i = 0; i < 3; i = i + 1) print i;"),
        Ok(vec![Stmt::Block(vec![
            Stmt::Var(tok(TokenType::Identifier, "i"), Some(num(0.0))),
            Stmt::While(
                binary(var("i"), TokenType::Less, "<", num(3.0)),
                Box::new(Stmt::Block(vec![Stmt::Print(var("i")), Stmt::Expression(increment)]))
            ),
        ])])
    );
}

#[test]
fn for_statement_without_clauses() {
    assert_eq!(
        parse("for (;;) print 1;"),
        Ok(vec![Stmt::While(
            Expr::Literal(Some(LiteralValue::Boolean(true))),
            Box::new(Stmt::Print(num(1.0)))
        )])
    );
}

#[test]
fn for_statement_with_an_expression_initializer() {
    assert_eq!(
        parse("for (i = 0; i < 1;) print i;"),
        Ok(vec![Stmt::Block(vec![
            Stmt::Expression(Expr::Assignment(
                tok(TokenType::Identifier, "i"),
                Box::new(num(0.0))
            )),
            Stmt::While(
                binary(var("i"), TokenType::Less, "<", num(1.0)),
                Box::new(Stmt::Print(var("i")))
            ),
        ])])
    );
    assert_eq!(
        parse("for (;; i = 1) print i;"),
        Ok(vec![Stmt::While(
            Expr::Literal(Some(LiteralValue::Boolean(true))),
            Box::new(Stmt::Block(vec![
                Stmt::Print(var("i")),
                Stmt::Expression(Expr::Assignment(
                    tok(TokenType::Identifier, "i"),
                    Box::new(num(1.0))
                )),
            ]))
        )])
    );
}

#[test]
fn function_declarations() {
    assert_eq!(
        parse("fun f() {} fun g(a, b) { print a; }"),
        Ok(vec![
            Stmt::Function(tok(TokenType::Identifier, "f"), vec![], vec![]),
            Stmt::Function(
                tok(TokenType::Identifier, "g"),
                vec![tok(TokenType::Identifier, "a"), tok(TokenType::Identifier, "b")],
                vec![Stmt::Print(var("a"))]
            ),
        ])
    );
    assert_eq!(
        parse("fun (a) {}"),
        Err(ParseError::ExpectedToken(TokenType::Identifier, tok(TokenType::LeftParen, "(")))
    );
    assert_eq!(
        parse("fun f(a,) {}"),
        Err(ParseError::ExpectedToken(TokenType::Identifier, tok(TokenType::RightParen, ")")))
    );
}

fn function_with_parameters(count: usize) -> String {
    let names: Vec<String> = (0..count).map(|i| format!("arg{}", i)).collect();
    format!("fun f({}) {{}}", names.join(", "))
}

#[test]
fn a_function_may_have_255_parameters() {
    match parse(&function_with_parameters(255)) {
        Ok(statements) => match &statements[0] {
            Stmt::Function(_, parameters, _) => assert_eq!(parameters.len(), 255),
            other => panic!("not a function: {:?}", other),
        },
        Err(error) => panic!("unexpected error {:?}", error),
    }
}

#[test]
fn a_function_may_not_have_256_parameters() {
    assert_eq!(
        parse(&function_with_parameters(256)),
        Err(ParseError::UnexpectedToken(
            tok(TokenType::Identifier, "arg255"),
            "Cannot have more than 255 parameters.".to_string()
        ))
    );
}

#[test]
fn missing_expression() {
    assert_eq!(
        parse("print ;"),
        Err(ParseError::UnexpectedToken(
            tok(TokenType::Semicolon, ";"),
            "Expect expression.".to_string()
        ))
    );
    assert_eq!(
        parse("1 +"),
        Err(ParseError::UnexpectedToken(tok(TokenType::Eof, ""), "Expect expression.".to_string()))
    );
}

#[test]
fn unbalanced_parenthesis() {
    assert_eq!(
        parse("(1 + 2;"),
        Err(ParseError::ExpectedToken(TokenType::RightParen, tok(TokenType::Semicolon, ";")))
    );
}

#[test]
fn errors_carry_the_line() {
    match parse("var a = 1;\nvar b = ;\n") {
        Err(ParseError::UnexpectedToken(token, _)) => assert_eq!(token.line, 2),
        other => panic!("unexpected result {:?}", other),
    }
}

#[test]
fn the_first_error_ends_the_parse() {
    assert_eq!(
        parse("print ; var 1;"),
        Err(ParseError::UnexpectedToken(
            tok(TokenType::Semicolon, ";"),
            "Expect expression.".to_string()
        ))
    );
}

#[test]
fn a_number_token_without_its_value_is_refused() {
    let tokens = vec![tok(TokenType::Number, "1"), tok(TokenType::Semicolon, ";"), tok(TokenType::Eof, "")];
    let mut parser = Parser::new(tokens);
    assert_eq!(
        parser.parse(),
        Err(ParseError::UnexpectedToken(
            tok(TokenType::Number, "1"),
            "Invalid number format".to_string()
        ))
    );
}

#[test]
fn parsing_again_gives_nothing_more() {
    let mut parser = Parser::new(scan("print 1;"));
    assert_eq!(parser.parse().unwrap().len(), 1);
    assert_eq!(parser.parse(), Ok(vec![]));
}

#[test]
fn a_whole_token_sequence_is_parsed() {
    assert_eq!(
        lox::parser::parse_tokens(scan("print 1; x;")),
        Ok(vec![Stmt::Print(num(1.0)), Stmt::Expression(var("x"))])
    );
    assert_eq!(
        lox::parser::parse_tokens(scan("print ;")),
        Err(ParseError::UnexpectedToken(
            tok(TokenType::Semicolon, ";"),
            "Expect expression.".to_string()
        ))
    );
}

#[test]
fn a_token_sequence_without_its_end_is_refused() {
    assert_eq!(lox::parser::parse_tokens(vec![]), Err(ParseError::EndOfFile));
    let mut tokens = scan("print 1;");
    tokens.pop();
    assert_eq!(lox::parser::parse_tokens(tokens), Err(ParseError::EndOfFile));
}

#[test]
fn tokens_behind_the_end_of_input_are_not_read() {
    let mut tokens = scan("print 1;");
    tokens.extend(scan("print 2;"));
    assert_eq!(lox::parser::parse_tokens(tokens), Ok(vec![Stmt::Print(num(1.0))]));
}
