use lox::scanner::{
    attach_numbers, is_alpha, is_alphanumeric, is_digit, LiteralValue, ParseError, Scanner, Token,
    TokenType,
};

fn scan(source: &str) -> Result<Vec<Token>, ParseError> {
    let mut scanner = Scanner::new(source.to_string());
    scanner.scan_tokens()
}

fn kinds(source: &str) -> Vec<TokenType> {
    scan(source).unwrap().iter().map(|t| t.token_type).collect()
}

fn lines(source: &str) -> Vec<usize> {
    scan(source).unwrap().iter().map(|t| t.line).collect()
}

#[test]
fn scans_single_character_tokens() {
    assert_eq!(
        kinds("(){},.-+;*/"),
        vec![
            TokenType::LeftParen,
            TokenType::RightParen,
            TokenType::LeftBrace,
            TokenType::RightBrace,
            TokenType::Comma,
            TokenType::Dot,
            TokenType::Minus,
            TokenType::Plus,
            TokenType::Semicolon,
            TokenType::Star,
            TokenType::Slash,
            TokenType::Eof
        ]
    );
}

#[test]
fn scans_one_or_two_character_operators() {
    assert_eq!(
        kinds("! != = == < <= > >="),
        vec![
            TokenType::Bang,
            TokenType::BangEqual,
            TokenType::Equal,
            TokenType::EqualEqual,
            TokenType::Less,
            TokenType::LessEqual,
            TokenType::Greater,
            TokenType::GreaterEqual,
            TokenType::Eof
        ]
    );
}

#[test]
fn a_lone_operator_at_the_end_is_the_single_form() {
    assert_eq!(kinds("!"), vec![TokenType::Bang, TokenType::Eof]);
    assert_eq!(kinds("==="), vec![TokenType::EqualEqual, TokenType::Equal, TokenType::Eof]);
}

#[test]
fn empty_source_is_just_end_of_input() {
    let tokens = scan("").unwrap();
    assert_eq!(tokens, vec![Token::new(TokenType::Eof, String::new(), None, 1)]);
}

#[test]
fn lexemes_are_the_source_text() {
    let tokens = scan("var answer = 42;").unwrap();
    let lexemes: Vec<&str> = tokens.iter().map(|t| t.lexeme.as_str()).collect();
    assert_eq!(lexemes, vec!["var", "answer", "=", "42", ";", ""]);
}

#[test]
fn rescanning_an_operator_lexeme_gives_the_same_kind() {
    let operators = [
        "(", ")", "{", "}", ",", ".", "-", "+", ";", "*", "/", "!", "!=", "=", "==", "<", "<=",
        ">", ">=",
    ];
    for text in operators {
        let first = scan(text).unwrap();
        assert_eq!(first.len(), 2);
        assert_eq!(first[0].lexeme, text);
        assert_eq!(first[1].token_type, TokenType::Eof);
        let again = scan(&first[0].lexeme).unwrap();
        assert_eq!(again.len(), 2);
        assert_eq!(again[0].token_type, first[0].token_type);
        assert_eq!(again[0], first[0]);
    }
}

#[test]
fn comments_produce_no_tokens() {
    assert_eq!(kinds("// nothing here"), vec![TokenType::Eof]);
    assert_eq!(
        kinds("1 // one\n2"),
        vec![TokenType::Number, TokenType::Number, TokenType::Eof]
    );
    assert_eq!(kinds("a / b"), vec![TokenType::Identifier, TokenType::Slash, TokenType::Identifier, TokenType::Eof]);
}

#[test]
fn comments_count_only_the_newline_that_ends_them() {
    assert_eq!(lines("// first\nx // second\n// third\ny"), vec![2, 4, 4]);
    assert_eq!(scan("// a comment").unwrap(), scan("").unwrap());
    assert_eq!(scan("// a comment\nx").unwrap(), scan("\nx").unwrap());
}

#[test]
fn whitespace_is_skipped_and_newlines_are_counted() {
    assert_eq!(kinds(" \t\r\n "), vec![TokenType::Eof]);
    assert_eq!(lines("a\nb\n\nc\n"), vec![1, 2, 4, 5]);
}

#[test]
fn scans_string_literals() {
    let tokens = scan("\"hello world\"").unwrap();
    assert_eq!(tokens.len(), 2);
    assert_eq!(tokens[0].token_type, TokenType::String);
    assert_eq!(tokens[0].lexeme, "\"hello world\"");
    assert_eq!(tokens[0].literal, Some(LiteralValue::String("hello world".to_string())));
    assert_eq!(tokens[0].line, 1);
}

#[test]
fn empty_string_literal() {
    let tokens = scan("\"\"").unwrap();
    assert_eq!(tokens[0].literal, Some(LiteralValue::String(String::new())));
    assert_eq!(tokens[0].lexeme, "\"\"");
}

#[test]
fn string_literals_may_span_lines() {
    let tokens = scan("\"a\nb\" x").unwrap();
    assert_eq!(tokens[0].literal, Some(LiteralValue::String("a\nb".to_string())));
    assert_eq!(tokens[0].line, 2);
    assert_eq!(tokens[1].line, 2);
    assert_eq!(tokens[2].line, 2);
}

#[test]
fn string_literals_may_hold_any_character() {
    let tokens = scan("\"h\u{e9}llo \u{1f600}\"").unwrap();
    assert_eq!(tokens[0].literal, Some(LiteralValue::String("h\u{e9}llo \u{1f600}".to_string())));
}

#[test]
fn unterminated_string_is_reported_at_its_first_line() {
    assert_eq!(scan("\"abc"), Err(ParseError::UnterminatedString(1)));
    assert_eq!(scan("x\n\n\"abc\ndef\n"), Err(ParseError::UnterminatedString(3)));
}

#[test]
fn scans_numbers() {
    let tokens = scan("123 45.67").unwrap();
    assert_eq!(tokens[0].token_type, TokenType::Number);
    assert_eq!(tokens[0].lexeme, "123");
    assert_eq!(tokens[1].token_type, TokenType::Number);
    assert_eq!(tokens[1].lexeme, "45.67");
    assert_eq!(tokens[2].token_type, TokenType::Eof);
}

#[test]
fn number_lexemes_are_numeric_text() {
    for source in ["0", "7", "12.5", "1.", ".5", "1.2.3", "99999999999999999999.25"] {
        for token in scan(source).unwrap() {
            if token.token_type == TokenType::Number {
                assert!(token.lexeme.parse::<f64>().is_ok());
                assert!(token.lexeme.chars().all(|c| c.is_ascii_digit() || c == '.'));
                assert!(token.lexeme.starts_with(|c: char| c.is_ascii_digit()));
                assert!(token.lexeme.ends_with(|c: char| c.is_ascii_digit()));
            }
        }
    }
}

#[test]
fn a_trailing_point_is_not_part_of_a_number() {
    assert_eq!(kinds("1."), vec![TokenType::Number, TokenType::Dot, TokenType::Eof]);
    assert_eq!(kinds(".5"), vec![TokenType::Dot, TokenType::Number, TokenType::Eof]);
    let tokens = scan("1.2.3").unwrap();
    assert_eq!(tokens[0].lexeme, "1.2");
    assert_eq!(tokens[1].token_type, TokenType::Dot);
    assert_eq!(tokens[2].lexeme, "3");
}

#[test]
fn scans_identifiers() {
    let tokens = scan("foo _bar baz_9 Andy classy").unwrap();
    for token in &tokens[..5] {
        assert_eq!(token.token_type, TokenType::Identifier);
    }
    assert_eq!(tokens[2].lexeme, "baz_9");
}

#[test]
fn scans_reserved_words() {
    assert_eq!(
        kinds("and class else false for fun if nil or print return super this true var while"),
        vec![
            TokenType::And,
            TokenType::Class,
            TokenType::Else,
            TokenType::False,
            TokenType::For,
            TokenType::Fun,
            TokenType::If,
            TokenType::Nil,
            TokenType::Or,
            TokenType::Print,
            TokenType::Return,
            TokenType::Super,
            TokenType::This,
            TokenType::True,
            TokenType::Var,
            TokenType::While,
            TokenType::Eof
        ]
    );
}

#[test]
fn reserved_words_are_case_sensitive_and_whole() {
    assert_eq!(kinds("And"), vec![TokenType::Identifier, TokenType::Eof]);
    assert_eq!(kinds("android"), vec![TokenType::Identifier, TokenType::Eof]);
    assert_eq!(kinds("an"), vec![TokenType::Identifier, TokenType::Eof]);
}

#[test]
fn unexpected_character_is_an_error() {
    assert_eq!(scan("@"), Err(ParseError::UnexpectedCharacter('@', 1)));
    assert_eq!(scan("a\nb #"), Err(ParseError::UnexpectedCharacter('#', 2)));
    assert_eq!(scan("x = \u{e9};"), Err(ParseError::UnexpectedCharacter('\u{e9}', 1)));
}

#[test]
fn the_first_error_ends_the_scan() {
    assert_eq!(scan("@ \"open"), Err(ParseError::UnexpectedCharacter('@', 1)));
    assert_eq!(scan("\"open @"), Err(ParseError::UnterminatedString(1)));
}

#[test]
fn end_of_input_is_last_and_on_the_last_line() {
    let tokens = scan("a\nb\n").unwrap();
    let last = tokens.last().unwrap();
    assert_eq!(last.token_type, TokenType::Eof);
    assert_eq!(last.lexeme, "");
    assert_eq!(last.literal, None);
    assert_eq!(last.line, 3);
}

#[test]
fn scanning_again_gives_only_end_of_input() {
    let mut scanner = Scanner::new("a b".to_string());
    assert_eq!(scanner.scan_tokens().unwrap().len(), 3);
    let again = scanner.scan_tokens().unwrap();
    assert_eq!(again.len(), 1);
    assert_eq!(again[0].token_type, TokenType::Eof);
}

#[test]
fn character_classes() {
    assert!(is_alpha('a') && is_alpha('Z') && is_alpha('_'));
    assert!(!is_alpha('1') && !is_alpha(' ') && !is_alpha('\u{e9}'));
    assert!(is_digit('0') && is_digit('9') && !is_digit('a') && !is_digit('\u{663}'));
    assert!(is_alphanumeric('a') && is_alphanumeric('5') && is_alphanumeric('_'));
    assert!(!is_alphanumeric('-'));
}

#[test]
fn token_is_type() {
    let token = Token::new(TokenType::Plus, "+".to_string(), None, 3);
    assert!(token.is_type(TokenType::Plus));
    assert!(!token.is_type(TokenType::Minus));
    assert_eq!(token.clone(), token);
}

#[test]
fn token_type_names() {
    assert_eq!(TokenType::LeftParen.name(), "LeftParen");
    assert_eq!(TokenType::GreaterEqual.name(), "GreaterEqual");
    assert_eq!(TokenType::Eof.name(), "Eof");
    assert_eq!(TokenType::While.name(), format!("{:?}", TokenType::While));
}

#[test]
fn parse_error_messages() {
    assert_eq!(
        ParseError::UnexpectedCharacter('@', 12).to_string(),
        "Line 12: Unexpected character '@'"
    );
    assert_eq!(ParseError::UnterminatedString(3).to_string(), "Line 3: Unterminated string");
    assert_eq!(ParseError::EndOfFile.to_string(), "Unexpected end of file");
    let token = Token::new(TokenType::Equal, "=".to_string(), None, 105);
    assert_eq!(
        ParseError::UnexpectedToken(token.clone(), "Invalid assignment target.".to_string())
            .to_string(),
        "Line 105: Unexpected token '=': Invalid assignment target."
    );
    assert_eq!(
        ParseError::ExpectedToken(TokenType::Semicolon, token).to_string(),
        "Line 105: Expected token 'Semicolon', but found '='"
    );
    assert_eq!(ParseError::UnterminatedString(0).to_string(), "Line 0: Unterminated string");
}

fn scan_with_numbers(source: &str) -> Vec<Token> {
    let tokens = scan(source).unwrap();
    let values: Vec<Option<u64>> = tokens
        .iter()
        .map(|token| token.lexeme.parse::<f64>().ok().map(f64::to_bits))
        .collect();
    attach_numbers(tokens, &values)
}

#[test]
fn number_tokens_get_their_values() {
    let tokens = scan_with_numbers("1.");
    assert_eq!(
        tokens,
        vec![
            Token::new(
                TokenType::Number,
                "1".to_string(),
                Some(LiteralValue::Number(1.0f64.to_bits())),
                1
            ),
            Token::new(TokenType::Dot, ".".to_string(), None, 1),
            Token::new(TokenType::Eof, String::new(), None, 1),
        ]
    );
    let tokens = scan_with_numbers("x = 12.5 + 3;");
    assert_eq!(tokens[2].literal, Some(LiteralValue::Number(12.5f64.to_bits())));
    assert_eq!(tokens[4].literal, Some(LiteralValue::Number(3.0f64.to_bits())));
}

#[test]
fn only_number_tokens_get_values() {
    let tokens = scan("nan \"7\" 8 inf").unwrap();
    let values = vec![Some(1), Some(2), Some(3), Some(4), Some(5)];
    let attached = attach_numbers(tokens, &values);
    assert_eq!(attached[0].literal, None);
    assert_eq!(attached[1].literal, Some(LiteralValue::String("7".to_string())));
    assert_eq!(attached[2].literal, Some(LiteralValue::Number(3)));
    assert_eq!(attached[3].literal, None);
    assert_eq!(attached[4].literal, None);
    assert_eq!(attached[2].lexeme, "8");
    assert_eq!(attached[2].token_type, TokenType::Number);
    assert_eq!(attached[2].line, 1);
    assert_eq!(attached.len(), 5);
}

#[test]
fn a_number_token_without_a_value_keeps_none() {
    let tokens = scan("8").unwrap();
    let attached = attach_numbers(tokens, &vec![None, None]);
    assert_eq!(attached[0].literal, None);
    assert_eq!(attached[0].token_type, TokenType::Number);
}

#[test]
fn attaching_to_no_tokens_gives_none() {
    assert_eq!(attach_numbers(vec![], &vec![]), vec![]);
}
