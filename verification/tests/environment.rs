use rlox::environment::Environment;
use rlox::error::{error, push_decimal, report, runtime_error};
use rlox::host::RuntimeError;
use rlox::literal::{Callable, Clock, Literal, Number, TCallable};
use rlox::rlox_function::RloxFunction;
use rlox::stmt::Stmt;
use rlox::token::Token;
use rlox::token_type::TokenType;

fn name(lexeme: &str, line: usize) -> Token {
    Token::new(TokenType::Identifier, lexeme.to_string(), None, line)
}

fn text(value: &str) -> Literal {
    Literal::String(value.to_string())
}

#[test]
fn a_new_environment_has_the_global_scope_only() {
    let environment = Environment::new();
    assert_eq!(environment.len(), 1);
    assert!(environment.get(0, &name("a", 1)).is_err());
}

#[test]
fn define_binds_and_rebinds_in_the_scope_itself() {
    let mut environment = Environment::new();
    environment.define(0, "a".to_string(), Some(text("one")));
    assert_eq!(environment.get(0, &name("a", 1)), Ok(text("one")));
    environment.define(0, "a".to_string(), Some(text("two")));
    assert_eq!(environment.get(0, &name("a", 1)), Ok(text("two")));
    environment.define(0, "b".to_string(), None);
    assert_eq!(environment.get(0, &name("b", 1)), Ok(Literal::Null));
    assert_eq!(environment.get(0, &name("a", 1)), Ok(text("two")));
}

#[test]
fn get_searches_outward() {
    let mut environment = Environment::new();
    environment.define(0, "a".to_string(), Some(text("global")));
    let first = environment.from_existing(0);
    let second = environment.from_existing(first);
    assert_eq!((first, second), (1, 2));
    assert_eq!(environment.get(second, &name("a", 1)), Ok(text("global")));
    environment.define(first, "a".to_string(), Some(text("first")));
    assert_eq!(environment.get(second, &name("a", 1)), Ok(text("first")));
    assert_eq!(environment.get(first, &name("a", 1)), Ok(text("first")));
    assert_eq!(environment.get(0, &name("a", 1)), Ok(text("global")));
}

#[test]
fn sibling_scopes_do_not_see_each_other() {
    let mut environment = Environment::new();
    let left = environment.from_existing(0);
    let right = environment.from_existing(0);
    environment.define(left, "a".to_string(), Some(text("left")));
    assert!(environment.get(right, &name("a", 1)).is_err());
    assert!(environment.get(0, &name("a", 1)).is_err());
}

#[test]
fn get_names_the_identifier_and_the_line() {
    let environment = Environment::new();
    assert_eq!(
        environment.get(0, &name("missing", 7)),
        Err(RuntimeError { message: "Undefined variable missing.".to_string(), line: 7 })
    );
}

#[test]
fn assign_changes_the_nearest_binding_in_place() {
    let mut environment = Environment::new();
    environment.define(0, "a".to_string(), Some(text("global")));
    let inner = environment.from_existing(0);
    assert_eq!(environment.assign(inner, &name("a", 1), &text("changed")), Ok(()));
    assert_eq!(environment.get(0, &name("a", 1)), Ok(text("changed")));
    environment.define(inner, "a".to_string(), Some(text("inner")));
    assert_eq!(environment.assign(inner, &name("a", 1), &text("again")), Ok(()));
    assert_eq!(environment.get(inner, &name("a", 1)), Ok(text("again")));
    assert_eq!(environment.get(0, &name("a", 1)), Ok(text("changed")));
}

#[test]
fn assign_never_declares() {
    let mut environment = Environment::new();
    let inner = environment.from_existing(0);
    assert_eq!(
        environment.assign(inner, &name("missing", 3), &Literal::Bool(true)),
        Err(RuntimeError { message: "Undefined variable 'missing'.".to_string(), line: 3 })
    );
    assert!(environment.get(inner, &name("missing", 3)).is_err());
    assert!(environment.get(0, &name("missing", 3)).is_err());
}

#[test]
fn a_scope_that_is_none_binds_nothing() {
    let mut environment = Environment::new();
    environment.define(5, "a".to_string(), Some(Literal::Bool(true)));
    assert_eq!(environment.len(), 1);
    assert!(environment.get(5, &name("a", 1)).is_err());
    assert!(environment.get(0, &name("a", 1)).is_err());
    assert!(environment.assign(5, &name("a", 1), &Literal::Null).is_err());
    let lonely = environment.from_existing(9);
    environment.define(0, "g".to_string(), Some(Literal::Bool(true)));
    assert!(environment.get(lonely, &name("g", 1)).is_err());
}

#[test]
fn release_gives_up_the_youngest_scopes_that_nothing_needs() {
    let mut environment = Environment::new();
    let a = environment.from_existing(0);
    let b = environment.from_existing(a);
    let c = environment.from_existing(b);
    assert_eq!(environment.len(), 4);
    environment.release(c);
    assert_eq!(environment.len(), 4);
    environment.release(b);
    assert_eq!(environment.len(), 3);
    environment.capture(a);
    environment.define(a, "x".to_string(), Some(text("kept")));
    environment.release(0);
    assert_eq!(environment.len(), 2);
    assert_eq!(environment.get(a, &name("x", 1)), Ok(text("kept")));
    let d = environment.from_existing(0);
    assert_eq!(d, 2);
    environment.release(0);
    assert_eq!(environment.len(), 2);
    environment.capture(9);
    environment.release(7);
    assert_eq!(environment.len(), 2);
}

#[test]
fn the_global_scope_is_never_given_up() {
    let mut environment = Environment::new();
    environment.define(0, "g".to_string(), Some(text("global")));
    environment.release(0);
    assert_eq!(environment.len(), 1);
    assert_eq!(environment.get(0, &name("g", 1)), Ok(text("global")));
}

#[test]
fn report_has_line_location_and_message() {
    assert_eq!(report(12, "at end", "Expect expression."), "[line 12] Error at end: Expect expression.");
    assert_eq!(report(0, "", "x"), "[line 0] Error : x");
    assert_eq!(report(1000000, "at 'a'", "b"), "[line 1000000] Error at 'a': b");
}

#[test]
fn error_is_laid_to_the_token_or_to_the_end() {
    let token = Token::new(TokenType::RightParen, ")".to_string(), None, 4);
    assert_eq!(error(&token, "Expect expression."), "[line 4] Error at ')': Expect expression.");
    let end = Token::new(TokenType::Eof, String::new(), None, 9);
    assert_eq!(error(&end, "Expect ';' after value."), "[line 9] Error at end: Expect ';' after value.");
}

#[test]
fn runtime_error_puts_the_line_below() {
    let token = Token::new(TokenType::Minus, "-".to_string(), None, 31);
    assert_eq!(runtime_error(&token, "Operand must be a number"), "Operand must be a number\n[line 31]");
    let error = RuntimeError { message: "Undefined variable a.".to_string(), line: 2 };
    assert_eq!(error.text(), "Undefined variable a.\n[line 2]");
}

#[test]
fn decimal_digits_of_a_number() {
    for (number, digits) in [(0usize, "0"), (7, "7"), (10, "10"), (99, "99"), (100, "100"), (12345, "12345")] {
        let mut text = String::from("n=");
        push_decimal(&mut text, number);
        assert_eq!(text, format!("n={}", digits));
    }
    let mut text = String::new();
    push_decimal(&mut text, usize::MAX);
    assert_eq!(text, usize::MAX.to_string());
}

#[test]
fn values_have_their_text() {
    assert_eq!(Literal::stringify(Literal::Null), Some("nil".to_string()));
    assert_eq!(Literal::stringify(Literal::Bool(true)), Some("true".to_string()));
    assert_eq!(Literal::stringify(Literal::Bool(false)), Some("false".to_string()));
    assert_eq!(Literal::stringify(text("a b")), Some("a b".to_string()));
    assert_eq!(Literal::stringify(Literal::Number(Number::Bits(0))), None);
    assert_eq!(Literal::stringify(Literal::Number(Number::Written("1".to_string()))), None);
    assert_eq!(Literal::stringify(Literal::Callable(Callable::Native(Clock {}))), Some("<native fn>".to_string()));
    assert_eq!(Literal::stringify(Literal::Callable(Callable::Function(3))), Some("<fn>".to_string()));
}

#[test]
fn the_clock_takes_no_arguments() {
    assert_eq!(Clock {}.arity(), 0);
}

#[test]
fn a_function_takes_as_many_arguments_as_it_has_parameters() {
    let declaration = Stmt::Function(name("f", 1), vec![name("a", 1), name("b", 1)], vec![]);
    assert_eq!(RloxFunction::new(declaration, 0).arity(), 2);
    let other = Stmt::Print(rlox::expr::Expr::Literal(Literal::Null));
    let function = RloxFunction::new(other, 4);
    assert_eq!(function.arity(), 0);
    assert_eq!(function.closure(), 4);
}
