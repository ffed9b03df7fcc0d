use lox::environment::Environment;
use lox::interpreter::RuntimeError;
use lox::scanner::{LiteralValue, Token, TokenType};

fn name(text: &str) -> Token {
    Token::new(TokenType::Identifier, text.to_string(), None, 1)
}

fn number(x: f64) -> LiteralValue {
    LiteralValue::Number(x.to_bits())
}

#[test]
fn define_then_get() {
    let mut env = Environment::new(None);
    env.define("x".to_string(), number(1.0));
    assert_eq!(env.get(&name("x")), Ok(number(1.0)));
}

#[test]
fn get_of_an_unknown_name_is_an_error() {
    let env = Environment::new(None);
    assert_eq!(env.get(&name("x")), Err(RuntimeError::UndefinedVariable(name("x"))));
}

#[test]
fn redefinition_replaces_the_value() {
    let mut env = Environment::new(None);
    env.define("x".to_string(), number(1.0));
    env.define("y".to_string(), LiteralValue::Nil);
    env.define("x".to_string(), LiteralValue::String("two".to_string()));
    assert_eq!(env.get(&name("x")), Ok(LiteralValue::String("two".to_string())));
    assert_eq!(env.get(&name("y")), Ok(LiteralValue::Nil));
}

#[test]
fn assign_changes_an_existing_variable() {
    let mut env = Environment::new(None);
    env.define("y".to_string(), number(5.0));
    assert_eq!(env.assign(&name("y"), number(6.0)), Ok(()));
    assert_eq!(env.get(&name("y")), Ok(number(6.0)));
}

#[test]
fn assign_never_creates_a_variable() {
    let mut env = Environment::new(None);
    assert_eq!(
        env.assign(&name("y"), number(5.0)),
        Err(RuntimeError::UndefinedVariable(name("y")))
    );
    assert_eq!(env.get(&name("y")), Err(RuntimeError::UndefinedVariable(name("y"))));
}

#[test]
fn lookup_walks_outward() {
    let mut outer = Environment::new(None);
    outer.define("x".to_string(), number(1.0));
    let inner = Environment::new(Some(Box::new(outer)));
    assert_eq!(inner.get(&name("x")), Ok(number(1.0)));
}

#[test]
fn inner_definition_shadows_and_leaving_restores() {
    let mut env = Environment::new(None);
    env.define("x".to_string(), number(1.0));
    env.enter();
    assert!(env.is_enclosed());
    env.define("x".to_string(), number(2.0));
    assert_eq!(env.get(&name("x")), Ok(number(2.0)));
    env.leave();
    assert!(!env.is_enclosed());
    assert_eq!(env.get(&name("x")), Ok(number(1.0)));
}

#[test]
fn assign_reaches_the_enclosing_scope() {
    let mut env = Environment::new(None);
    env.define("x".to_string(), number(1.0));
    env.enter();
    env.define("y".to_string(), number(10.0));
    assert_eq!(env.assign(&name("x"), number(3.0)), Ok(()));
    assert_eq!(env.get(&name("x")), Ok(number(3.0)));
    env.leave();
    assert_eq!(env.get(&name("x")), Ok(number(3.0)));
    assert_eq!(env.get(&name("y")), Err(RuntimeError::UndefinedVariable(name("y"))));
}

#[test]
fn assign_changes_the_innermost_holder_only() {
    let mut env = Environment::new(None);
    env.define("x".to_string(), number(1.0));
    env.enter();
    env.define("x".to_string(), number(2.0));
    assert_eq!(env.assign(&name("x"), number(5.0)), Ok(()));
    assert_eq!(env.get(&name("x")), Ok(number(5.0)));
    env.leave();
    assert_eq!(env.get(&name("x")), Ok(number(1.0)));
}

#[test]
fn leaving_the_outermost_scope_changes_nothing() {
    let mut env = Environment::new(None);
    env.define("x".to_string(), number(1.0));
    env.leave();
    assert_eq!(env.get(&name("x")), Ok(number(1.0)));
}

#[test]
fn undefined_variable_carries_the_token() {
    let env = Environment::new(None);
    let token = Token::new(TokenType::Identifier, "missing".to_string(), None, 42);
    match env.get(&token) {
        Err(RuntimeError::UndefinedVariable(found)) => {
            assert_eq!(found.lexeme, "missing");
            assert_eq!(found.line, 42);
        }
        other => panic!("unexpected result {:?}", other),
    }
}
