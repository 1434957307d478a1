use rlox::expr::Expr;
use rlox::literal::{Literal, Number};
use rlox::parser::Parser;
use rlox::scanner::Scanner;
use rlox::stmt::Stmt;

fn parse(source: &str) -> (Vec<Stmt>, Vec<String>, bool) {
    let mut scanner = Scanner::new(source.to_string());
    let tokens = scanner.scan_tokens().clone();
    assert!(scanner.reports().is_empty());
    let mut parser = Parser::new(tokens);
    let statements = parser.parse();
    (statements, parser.reports().clone(), parser.get_had_err())
}

fn show(expr: &Expr) -> String {
    match expr {
        Expr::Assign(name, value) => format!("(= {} {})", name.lexeme, show(value)),
        Expr::Binary(left, operator, right) => {
            format!("({} {} {})", operator.lexeme, show(left), show(right))
        }
        Expr::Unary(operator, right) => format!("({} {})", operator.lexeme, show(right)),
        Expr::Literal(Literal::Number(Number::Written(digits))) => digits.clone(),
        Expr::Literal(Literal::String(text)) => format!("\"{}\"", text),
        Expr::Literal(Literal::Bool(value)) => format!("{}", value),
        Expr::Literal(Literal::Null) => "nil".to_string(),
        Expr::Literal(other) => format!("{:?}", other),
        Expr::Logical(left, operator, right) => {
            format!("({} {} {})", operator.lexeme, show(left), show(right))
        }
        Expr::Variable(name) => name.lexeme.clone(),
        Expr::Grouping(inner) => format!("(group {})", show(inner)),
        Expr::Call(callee, _, arguments) => {
            let mut text = format!("(call {}", show(callee));
            for argument in arguments {
                text.push(' ');
                text.push_str(&show(argument));
            }
            text.push(')');
            text
        }
    }
}

fn show_statement(statement: &Stmt) -> String {
    match statement {
        Stmt::Expr(expr) => format!("(expr {})", show(expr)),
        Stmt::Print(expr) => format!("(print {})", show(expr)),
        Stmt::Var(name, Some(value)) => format!("(var {} {})", name.lexeme, show(value)),
        Stmt::Var(name, None) => format!("(var {})", name.lexeme),
        Stmt::Block(statements) => {
            let mut text = "(block".to_string();
            for statement in statements {
                text.push(' ');
                text.push_str(&show_statement(statement));
            }
            text.push(')');
            text
        }
        Stmt::If(condition, then_branch, None) => {
            format!("(if {} {})", show(condition), show_statement(then_branch))
        }
        Stmt::If(condition, then_branch, Some(else_branch)) => format!(
            "(if {} {} {})",
            show(condition),
            show_statement(then_branch),
            show_statement(else_branch)
        ),
        Stmt::While(condition, body) => {
            format!("(while {} {})", show(condition), show_statement(body))
        }
        Stmt::Function(name, parameters, body) => {
            let mut text = format!("(fun {} (", name.lexeme);
            let names: Vec<String> = parameters.iter().map(|p| p.lexeme.clone()).collect();
            text.push_str(&names.join(" "));
            text.push(')');
            for statement in body {
                text.push(' ');
                text.push_str(&show_statement(statement));
            }
            text.push(')');
            text
        }
        Stmt::Return(_, Some(value)) => format!("(return {})", show(value)),
        Stmt::Return(_, None) => "(return)".to_string(),
    }
}

fn shape(source: &str) -> Vec<String> {
    let (statements, reports, failed) = parse(source);
    assert_eq!(reports, Vec::<String>::new());
    assert!(!failed);
    statements.iter().map(show_statement).collect()
}

#[test]
fn factors_bind_tighter_than_terms() {
    assert_eq!(shape("print 1 + 2 * 3;"), vec!["(print (+ 1 (* 2 3)))"]);
    assert_eq!(shape("print 1 * 2 + 3;"), vec!["(print (+ (* 1 2) 3))"]);
}

#[test]
fn binary_operators_group_from_the_left() {
    assert_eq!(shape("1 - 2 - 3;"), vec!["(expr (- (- 1 2) 3))"]);
    assert_eq!(shape("8 / 4 / 2;"), vec!["(expr (/ (/ 8 4) 2))"]);
}

#[test]
fn precedence_runs_from_or_down_to_unary() {
    assert_eq!(
        shape("a or b and c == d < e + f * -g;"),
        vec!["(expr (or a (and b (== c (< d (+ e (* f (- g))))))))"]
    );
}

#[test]
fn assignment_groups_from_the_right() {
    assert_eq!(shape("a = b = 3;"), vec!["(expr (= a (= b 3)))"]);
}

#[test]
fn unary_operators_nest() {
    assert_eq!(shape("!!true; --1;"), vec!["(expr (! (! true)))", "(expr (- (- 1)))"]);
}

#[test]
fn calls_chain_and_take_arguments() {
    assert_eq!(shape("f(1, \"two\")(nil)();"), vec!["(expr (call (call (call f 1 \"two\") nil)))"]);
}

#[test]
fn grouping_overrides_precedence() {
    assert_eq!(shape("(1 + 2) * 3;"), vec!["(expr (* (group (+ 1 2)) 3))"]);
}

#[test]
fn else_binds_to_the_nearest_if() {
    assert_eq!(
        shape("if (a) if (b) print 1; else print 2;"),
        vec!["(if a (if b (print 1) (print 2)))"]
    );
}

#[test]
fn for_is_written_out_as_while() {
    assert_eq!(
        shape("for (var i = 0; i < 5; i = i + 1) print i;"),
        vec!["(block (var i 0) (while (< i 5) (block (print i) (expr (= i (+ i 1))))))"]
    );
    assert_eq!(shape("for (;;) print 1;"), vec!["(while true (print 1))"]);
    assert_eq!(shape("for (i = 0;;) {}"), vec!["(block (expr (= i 0)) (while true (block)))"]);
}

#[test]
fn for_and_the_loop_written_by_hand_parse_alike() {
    let sugared = shape("var sum = 0; for (var i = 1; i <= 5; i = i + 1) sum = sum + i; print sum;");
    let by_hand = shape(
        "var sum = 0; { var i = 1; while (i <= 5) { sum = sum + i; i = i + 1; } } print sum;",
    );
    assert_eq!(sugared, by_hand);
}

#[test]
fn function_declaration_keeps_parameters_and_body() {
    assert_eq!(
        shape("fun add(a, b) { return a + b; }"),
        vec!["(fun add (a b) (return (+ a b)))"]
    );
    assert_eq!(shape("fun f() { return; }"), vec!["(fun f () (return))"]);
}

#[test]
fn two_faulty_statements_give_two_reports() {
    let (statements, reports, failed) = parse("var = 1;\nprint 2;\nprint ;\nprint 3;");
    assert!(failed);
    assert_eq!(
        reports,
        vec![
            "[line 1] Error at '=': Expect variable name".to_string(),
            "[line 3] Error at ';': Expect expression.".to_string(),
        ]
    );
    let shapes: Vec<String> = statements.iter().map(show_statement).collect();
    assert_eq!(shapes, vec!["(print 2)", "(print 3)"]);
}

#[test]
fn only_a_variable_can_be_assigned_to() {
    let (statements, reports, failed) = parse("1 + 2 = 3;");
    assert!(failed);
    assert!(statements.is_empty());
    assert_eq!(reports, vec!["[line 1] Error at '=': Invalid assignment target.".to_string()]);
}

#[test]
fn a_fault_at_the_end_is_laid_to_the_end() {
    let (_, reports, failed) = parse("print 1");
    assert!(failed);
    assert_eq!(reports, vec!["[line 1] Error at end: Expect ';' after value.".to_string()]);
}

#[test]
fn a_fault_inside_a_block_is_recovered_from_inside_it() {
    let (statements, reports, failed) = parse("{ print ; print 1; } print 2;");
    assert!(failed);
    assert_eq!(reports, vec!["[line 1] Error at ';': Expect expression.".to_string()]);
    let shapes: Vec<String> = statements.iter().map(show_statement).collect();
    assert_eq!(shapes, vec!["(block (print 1))", "(print 2)"]);
}

#[test]
fn a_call_takes_at_most_255_arguments() {
    let arguments = vec!["1"; 255].join(", ");
    assert_eq!(shape(&format!("f({});", arguments)).len(), 1);
    let arguments = vec!["1"; 256].join(", ");
    let (statements, reports, failed) = parse(&format!("f({});", arguments));
    assert!(failed);
    assert!(statements.is_empty());
    assert_eq!(reports, vec!["[line 1] Error at '1': Can't have more than 255 arguments.".to_string()]);
}

#[test]
fn a_function_takes_at_most_255_parameters() {
    let names: Vec<String> = (0..256).map(|i| format!("p{}", i)).collect();
    let (_, reports, failed) = parse(&format!("fun f({}) {{}}", names.join(", ")));
    assert!(failed);
    assert_eq!(reports[0], "[line 1] Error at 'p255': Can't have more than 255 parameters");
    let (statements, reports, failed) = parse(&format!("fun f({}) {{}}", names[..255].join(", ")));
    assert!(!failed);
    assert!(reports.is_empty());
    assert_eq!(statements.len(), 1);
}

#[test]
fn every_fault_has_its_message() {
    let cases = [
        ("fun (", "[line 1] Error at '(': Expect function name."),
        ("fun f {", "[line 1] Error at '{': Expect '(' after function name."),
        ("fun f(1) {}", "[line 1] Error at '1': Expect paramter name."),
        ("fun f(a {}", "[line 1] Error at '{': Expect '(' after parameters."),
        ("fun f(a) 1;", "[line 1] Error at '1': Expect '{' before function body."),
        ("var 1;", "[line 1] Error at '1': Expect variable name"),
        ("var a = 1", "[line 1] Error at end: Expect ';' after variable declaration."),
        ("fun f() { return 1 }", "[line 1] Error at '}': Expect ';' after return value."),
        ("if a) b;", "[line 1] Error at 'a': Expect '(' after 'if'."),
        ("if (a b;", "[line 1] Error at 'b': Expect ')' after 'if'."),
        ("while a) b;", "[line 1] Error at 'a': Expect '(' before 'while'"),
        ("while (a b;", "[line 1] Error at 'b': Expect ')' after 'conditon'"),
        ("{ a;", "[line 1] Error at end: Expect '}' after block."),
        ("for a;;) b;", "[line 1] Error at 'a': Expect '(' after 'for'."),
        ("for (;a b;) c;", "[line 1] Error at 'b': Expect ';' after loop condition."),
        ("for (;;a b) c;", "[line 1] Error at 'b': Expected ')' after 'for'."),
        ("print 1 2;", "[line 1] Error at '2': Expect ';' after value."),
        ("1 2;", "[line 1] Error at '2': Expect ';' after expression."),
        ("a + 1 = 2;", "[line 1] Error at '=': Invalid assignment target."),
        ("f(1 2);", "[line 1] Error at '2': Expect ')' after arguments"),
        ("(1 2);", "[line 1] Error at '2': Expect ')' after expression"),
        ("+;", "[line 1] Error at '+': Expect expression."),
        ("\n\n)", "[line 3] Error at ')': Expect expression."),
    ];
    for (source, expected) in cases {
        let (_, reports, failed) = parse(source);
        assert!(failed, "{}", source);
        assert_eq!(reports.first().map(|report| report.as_str()), Some(expected), "{}", source);
    }
}

#[test]
fn recovery_stops_behind_a_semicolon_or_in_front_of_a_statement() {
    let (statements, reports, _) = parse("var 1 2 3; print 4;");
    assert_eq!(reports.len(), 1);
    assert_eq!(statements.iter().map(show_statement).collect::<Vec<_>>(), vec!["(print 4)"]);
    let (statements, reports, _) = parse("var 1 2 3 print 4; 5;");
    assert_eq!(reports.len(), 1);
    assert_eq!(statements.iter().map(show_statement).collect::<Vec<_>>(), vec!["(print 4)", "(expr 5)"]);
    let (statements, reports, _) = parse("(1 fun f() {} while (a) b; if (c) d; for (;;) e; return; var g; class");
    assert_eq!(reports[0], "[line 1] Error at 'fun': Expect ')' after expression");
    assert_eq!(reports.len(), 2);
    assert_eq!(statements.len(), 5);
}

#[test]
fn every_token_of_an_expression_has_its_place_in_the_tree() {
    let source = "a = b or c and !(d == -e) < f(g, 1)(\"h\") * nil + true / false;";
    assert_eq!(
        shape(source),
        vec!["(expr (= a (or b (and c (< (! (group (== d (- e)))) (+ (* (call (call f g 1) \"h\") nil) (/ true false)))))))"]
    );
}
