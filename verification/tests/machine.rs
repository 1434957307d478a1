use rlox::expr::Expr;
use rlox::frame::Frame;
use rlox::host::{Action, Outcome, Reply, Request, RuntimeError};
use rlox::interpreter::Interpreter;
use rlox::literal::{Callable, Clock, Literal, Number, TCallable};
use rlox::parser::Parser;
use rlox::statements::desugar;
use rlox::stmt::Stmt;
use rlox::token::Token;
use rlox::token_type::TokenType;

fn token(token_type: TokenType, lexeme: &str, line: usize) -> Token {
    Token::new(token_type, lexeme.to_string(), None, line)
}

fn written(digits: &str) -> Literal {
    Literal::Number(Number::Written(digits.to_string()))
}

fn text(value: &str) -> Literal {
    Literal::String(value.to_string())
}

fn fail(message: &str, line: usize) -> Outcome {
    Outcome::Fail(RuntimeError { message: message.to_string(), line })
}

#[test]
fn truthiness() {
    assert!(!Interpreter::is_truthy(&Literal::Null));
    assert!(!Interpreter::is_truthy(&Literal::Bool(false)));
    assert!(Interpreter::is_truthy(&Literal::Bool(true)));
    assert!(Interpreter::is_truthy(&written("0")));
    assert!(Interpreter::is_truthy(&Literal::Number(Number::Bits(0))));
    assert!(Interpreter::is_truthy(&text("")));
    assert!(Interpreter::is_truthy(&Literal::Callable(Callable::Native(Clock {}))));
}

#[test]
fn equality_of_values() {
    assert_eq!(Interpreter::is_equal(&Literal::Null, &Literal::Null), Some(true));
    assert_eq!(Interpreter::is_equal(&Literal::Null, &Literal::Bool(false)), Some(false));
    assert_eq!(Interpreter::is_equal(&text("a"), &text("a")), Some(true));
    assert_eq!(Interpreter::is_equal(&text("a"), &text("b")), Some(false));
    assert_eq!(Interpreter::is_equal(&written("0"), &Literal::Bool(false)), Some(false));
    assert_eq!(Interpreter::is_equal(&text("1"), &written("1")), Some(false));
    assert_eq!(Interpreter::is_equal(&written("1"), &written("1")), None);
    assert_eq!(
        Interpreter::is_equal(&Literal::Callable(Callable::Function(1)), &Literal::Callable(Callable::Function(1))),
        Some(true)
    );
    assert_eq!(
        Interpreter::is_equal(&Literal::Callable(Callable::Function(1)), &Literal::Callable(Callable::Function(2))),
        Some(false)
    );
    assert_eq!(
        Interpreter::is_equal(&Literal::Callable(Callable::Native(Clock {})), &Literal::Callable(Callable::Function(0))),
        Some(false)
    );
}

#[test]
fn every_numeric_operator_goes_to_the_host() {
    for (kind, lexeme) in [
        (TokenType::Plus, "+"),
        (TokenType::Minus, "-"),
        (TokenType::Star, "*"),
        (TokenType::Slash, "/"),
        (TokenType::Greater, ">"),
        (TokenType::GreaterEqual, ">="),
        (TokenType::Less, "<"),
        (TokenType::LessEqual, "<="),
        (TokenType::EqualEqual, "=="),
        (TokenType::BangEqual, "!="),
    ] {
        let outcome = Interpreter::handle_binary(written("1"), &token(kind, lexeme, 1), Literal::Number(Number::Bits(7)));
        assert_eq!(
            outcome,
            Outcome::Ask(Request::Binary(kind, Number::Written("1".to_string()), Number::Bits(7)))
        );
    }
    assert_eq!(
        Interpreter::handle_binary(written("1"), &token(TokenType::And, "and", 5), written("2")),
        fail("Operands must be numbers", 5)
    );
}

#[test]
fn operators_on_strings() {
    let plus = token(TokenType::Plus, "+", 2);
    assert_eq!(Interpreter::handle_binary(text("foo"), &plus, text("bar")), Outcome::Value(text("foobar")));
    assert_eq!(Interpreter::handle_binary(text(""), &plus, text("")), Outcome::Value(text("")));
    assert_eq!(
        Interpreter::handle_binary(text("foo"), &plus, written("1")),
        fail("Operands must be two numbers or two strings", 2)
    );
    assert_eq!(
        Interpreter::handle_binary(written("1"), &plus, text("foo")),
        fail("Operands must be two numbers or two strings", 2)
    );
    assert_eq!(
        Interpreter::handle_binary(text("a"), &token(TokenType::Less, "<", 3), text("b")),
        fail("Operands must be two numbers or two strings", 3)
    );
    assert_eq!(
        Interpreter::handle_binary(text("a"), &token(TokenType::EqualEqual, "==", 3), text("a")),
        Outcome::Value(Literal::Bool(true))
    );
    assert_eq!(
        Interpreter::handle_binary(text("a"), &token(TokenType::BangEqual, "!=", 3), text("a")),
        Outcome::Value(Literal::Bool(false))
    );
}

#[test]
fn operators_on_other_values() {
    let equal = token(TokenType::EqualEqual, "==", 1);
    let unequal = token(TokenType::BangEqual, "!=", 1);
    assert_eq!(Interpreter::handle_binary(Literal::Null, &equal, Literal::Null), Outcome::Value(Literal::Bool(true)));
    assert_eq!(Interpreter::handle_binary(Literal::Null, &unequal, Literal::Null), Outcome::Value(Literal::Bool(false)));
    assert_eq!(Interpreter::handle_binary(written("0"), &equal, Literal::Bool(false)), Outcome::Value(Literal::Bool(false)));
    assert_eq!(Interpreter::handle_binary(written("0"), &unequal, Literal::Bool(false)), Outcome::Value(Literal::Bool(true)));
    assert_eq!(
        Interpreter::handle_binary(Literal::Bool(true), &equal, Literal::Bool(true)),
        Outcome::Value(Literal::Bool(true))
    );
    assert_eq!(
        Interpreter::handle_binary(Literal::Bool(true), &token(TokenType::Plus, "+", 8), Literal::Bool(true)),
        fail("Operands must be two numbers or two strings", 8)
    );
    assert_eq!(
        Interpreter::handle_binary(Literal::Null, &token(TokenType::Minus, "-", 8), Literal::Null),
        fail("Operands must be two numbers or two strings", 8)
    );
}

#[test]
fn unary_operators() {
    let minus = token(TokenType::Minus, "-", 6);
    let bang = token(TokenType::Bang, "!", 6);
    assert_eq!(
        Interpreter::handle_unary(&minus, written("3")),
        Outcome::Ask(Request::Negate(Number::Written("3".to_string())))
    );
    assert_eq!(Interpreter::handle_unary(&minus, text("3")), fail("Operand must be a number", 6));
    assert_eq!(Interpreter::handle_unary(&minus, Literal::Null), fail("Operand must be a number", 6));
    assert_eq!(Interpreter::handle_unary(&bang, Literal::Null), Outcome::Value(Literal::Bool(true)));
    assert_eq!(Interpreter::handle_unary(&bang, written("0")), Outcome::Value(Literal::Bool(false)));
    assert_eq!(
        Interpreter::handle_unary(&token(TokenType::Plus, "+", 6), written("0")),
        fail("Operand must be a number", 6)
    );
}

#[test]
fn a_new_interpreter_knows_the_clock_and_has_no_work() {
    let mut interpreter = Interpreter::new();
    assert!(interpreter.is_idle());
    assert_eq!(
        interpreter.environment().get(0, &token(TokenType::Identifier, "clock", 1)),
        Ok(Literal::Callable(Callable::Native(Clock {})))
    );
    assert_eq!(interpreter.step(), Action::Done);
    assert_eq!(interpreter.run(10), Action::Done);
    assert_eq!(interpreter.reply(Reply::Bool(true)), Action::Continue);
    assert!(interpreter.is_idle());
}

#[test]
fn statements_run_in_order() {
    let mut interpreter = Interpreter::new();
    let statements = vec![
        Stmt::Print(Expr::Literal(text("one"))),
        Stmt::Print(Expr::Literal(text("two"))),
    ];
    interpreter.interpret(&statements);
    assert!(!interpreter.is_idle());
    assert_eq!(interpreter.run(100), Action::Print("one".to_string()));
    assert_eq!(interpreter.run(100), Action::Print("two".to_string()));
    assert_eq!(interpreter.run(100), Action::Done);
    assert!(interpreter.is_idle());
}

#[test]
fn one_step_takes_one_frame() {
    let mut interpreter = Interpreter::new();
    interpreter.interpret(&vec![Stmt::Print(Expr::Literal(text("x")))]);
    assert_eq!(interpreter.step(), Action::Continue);
    assert_eq!(interpreter.step(), Action::Continue);
    assert_eq!(interpreter.step(), Action::Print("x".to_string()));
    assert_eq!(interpreter.step(), Action::Continue);
    assert_eq!(interpreter.step(), Action::Done);
}

#[test]
fn statements_and_expressions_can_be_begun_directly() {
    let mut interpreter = Interpreter::new();
    assert_eq!(interpreter.accept_expression(Expr::Literal(text("a"))), Action::Continue);
    assert_eq!(
        interpreter.accept_statement(Stmt::Var(token(TokenType::Identifier, "v", 1), None)),
        Action::Continue
    );
    assert_eq!(interpreter.environment().get(0, &token(TokenType::Identifier, "v", 1)), Ok(Literal::Null));
    let missing = Expr::Variable(token(TokenType::Identifier, "w", 4));
    assert_eq!(
        interpreter.accept_expression(missing),
        Action::Fail(RuntimeError { message: "Undefined variable w.".to_string(), line: 4 })
    );
}

#[test]
fn a_block_entered_directly_runs_in_the_given_scope() {
    let mut interpreter = Interpreter::new();
    let name = token(TokenType::Identifier, "a", 1);
    interpreter.accept_statement(Stmt::Var(token(TokenType::Identifier, "a", 1), Some(Expr::Literal(text("outer")))));
    assert_eq!(interpreter.run(100), Action::Done);
    let statements = vec![
        Stmt::Var(token(TokenType::Identifier, "a", 1), Some(Expr::Literal(text("inner")))),
        Stmt::Print(Expr::Variable(token(TokenType::Identifier, "a", 1))),
    ];
    interpreter.execute_block(statements, 0, Frame::Leave(0));
    assert_eq!(interpreter.run(100), Action::Print("inner".to_string()));
    assert_eq!(interpreter.run(100), Action::Done);
    assert_eq!(interpreter.environment().get(0, &name), Ok(text("inner")));
}

#[test]
fn a_block_gives_its_scope_up_at_its_end() {
    let mut interpreter = Interpreter::new();
    let name = token(TokenType::Identifier, "a", 1);
    let statements = vec![
        Stmt::Var(token(TokenType::Identifier, "a", 1), Some(Expr::Literal(text("inner")))),
        Stmt::Print(Expr::Variable(token(TokenType::Identifier, "a", 1))),
    ];
    interpreter.accept_statement(Stmt::Block(statements));
    assert_eq!(interpreter.environment().len(), 2);
    assert_eq!(interpreter.run(100), Action::Print("inner".to_string()));
    assert_eq!(interpreter.environment().get(1, &name), Ok(text("inner")));
    assert_eq!(interpreter.run(100), Action::Done);
    assert_eq!(interpreter.environment().len(), 1);
    assert!(interpreter.environment().get(0, &name).is_err());
}

#[test]
fn a_scope_with_a_function_declared_in_it_is_kept() {
    let mut interpreter = Interpreter::new();
    let declaration = Stmt::Function(token(TokenType::Identifier, "f", 1), vec![], vec![]);
    interpreter.accept_statement(Stmt::Block(vec![Stmt::Block(vec![]), declaration, Stmt::Block(vec![])]));
    assert_eq!(interpreter.run(100), Action::Done);
    assert_eq!(interpreter.environment().len(), 2);
    interpreter.accept_statement(Stmt::Block(vec![Stmt::Block(vec![])]));
    assert_eq!(interpreter.run(100), Action::Done);
    assert_eq!(interpreter.environment().len(), 2);
}

#[test]
fn the_clock_asks_when_called() {
    let mut interpreter = Interpreter::new();
    assert_eq!(Clock {}.call(&mut interpreter, vec![]), Action::Ask(Request::Clock));
    assert_eq!(interpreter.step(), Action::Ask(Request::Clock));
    assert_eq!(interpreter.reply(Reply::Text("now".to_string())), Action::Ask(Request::Clock));
    assert_eq!(interpreter.reply(Reply::Number(5)), Action::Continue);
}

#[test]
fn a_function_value_that_names_no_function_cannot_be_called() {
    let mut interpreter = Interpreter::new();
    interpreter.accept_statement(Stmt::Var(
        token(TokenType::Identifier, "f", 1),
        Some(Expr::Literal(Literal::Callable(Callable::Function(17)))),
    ));
    assert_eq!(interpreter.run(100), Action::Done);
    let call = Expr::Call(
        Box::new(Expr::Variable(token(TokenType::Identifier, "f", 2))),
        token(TokenType::RightParen, ")", 2),
        vec![],
    );
    interpreter.interpret(&vec![Stmt::Expr(call)]);
    assert_eq!(
        interpreter.run(100),
        Action::Fail(RuntimeError { message: "Can only call functions and classes.".to_string(), line: 2 })
    );
    assert!(interpreter.is_idle());
}

#[test]
fn a_parser_closes_its_tokens() {
    let mut parser = Parser::new(vec![
        token(TokenType::Print, "print", 3),
        Token::new(TokenType::String, "\"a\"".to_string(), Some(text("a")), 3),
        token(TokenType::Semicolon, ";", 3),
    ]);
    let statements = parser.parse();
    assert!(!parser.get_had_err());
    assert_eq!(statements, vec![Stmt::Print(Expr::Literal(text("a")))]);
    let mut parser = Parser::new(vec![token(TokenType::Print, "print", 3)]);
    assert!(parser.parse().is_empty());
    assert_eq!(parser.reports().clone(), vec!["[line 3] Error at end: Expect expression.".to_string()]);
    let mut parser = Parser::new(vec![]);
    assert!(parser.parse().is_empty());
    assert!(!parser.get_had_err());
}

#[test]
fn a_number_or_string_token_without_a_value_is_no_expression() {
    let mut parser = Parser::new(vec![token(TokenType::Number, "1", 1), token(TokenType::Semicolon, ";", 1)]);
    assert!(parser.parse().is_empty());
    assert_eq!(parser.reports().clone(), vec!["[line 1] Error at '1': Expect expression.".to_string()]);
}

#[test]
fn a_for_written_out() {
    let body = Stmt::Print(Expr::Literal(text("b")));
    let initializer = Stmt::Var(token(TokenType::Identifier, "i", 1), None);
    let condition = Expr::Literal(Literal::Bool(false));
    let increment = Expr::Literal(Literal::Null);
    assert_eq!(
        desugar(
            Some(Stmt::Var(token(TokenType::Identifier, "i", 1), None)),
            Some(Expr::Literal(Literal::Bool(false))),
            Some(Expr::Literal(Literal::Null)),
            Stmt::Print(Expr::Literal(text("b")))
        ),
        Stmt::Block(vec![
            initializer,
            Stmt::While(condition, Box::new(Stmt::Block(vec![body, Stmt::Expr(increment)]))),
        ])
    );
    assert_eq!(
        desugar(None, None, None, Stmt::Print(Expr::Literal(text("b")))),
        Stmt::While(Expr::Literal(Literal::Bool(true)), Box::new(Stmt::Print(Expr::Literal(text("b")))))
    );
}
