use rlox::code_runner::{CodeRunner, Mode, FAILURE};
use rlox::error::runtime_error;
use rlox::host::{Action, Reply, Request, RuntimeError};
use rlox::literal::Number;
use rlox::token::Token;
use rlox::token_type::TokenType;

fn value(number: &Number) -> f32 {
    match number {
        Number::Written(digits) => digits.parse::<f32>().unwrap(),
        Number::Bits(bits) => f32::from_bits(*bits),
    }
}

fn answer(request: &Request) -> Reply {
    match request {
        Request::Binary(operator, left, right) => {
            let (left, right) = (value(left), value(right));
            match operator {
                TokenType::Plus => Reply::Number((left + right).to_bits()),
                TokenType::Minus => Reply::Number((left - right).to_bits()),
                TokenType::Star => Reply::Number((left * right).to_bits()),
                TokenType::Slash => Reply::Number((left / right).to_bits()),
                TokenType::Greater => Reply::Bool(left > right),
                TokenType::GreaterEqual => Reply::Bool(left >= right),
                TokenType::Less => Reply::Bool(left < right),
                TokenType::LessEqual => Reply::Bool(left <= right),
                TokenType::EqualEqual => Reply::Bool(left == right),
                TokenType::BangEqual => Reply::Bool(left != right),
                other => panic!("no operator on numbers: {:?}", other),
            }
        }
        Request::Negate(number) => Reply::Number((-value(number)).to_bits()),
        Request::Format(number) => Reply::Text(value(number).to_string()),
        Request::Clock => Reply::Number(1234.5f32.to_bits()),
    }
}

struct Session {
    runner: CodeRunner,
    output: Vec<String>,
    errors: Vec<RuntimeError>,
    reports: Vec<String>,
}

impl Session {
    fn new() -> Session {
        Session { runner: CodeRunner::new(), output: vec![], errors: vec![], reports: vec![] }
    }

    fn feed(&mut self, source: &str) {
        let reports = self.runner.run(source.to_string());
        self.reports.extend(reports);
        let mut action = self.runner.advance(1000);
        let mut rounds = 0;
        loop {
            rounds += 1;
            assert!(rounds < 100000, "the program does not end");
            action = match action {
                Action::Continue => self.runner.advance(1000),
                Action::Print(line) => {
                    self.output.push(line);
                    self.runner.advance(1000)
                }
                Action::Ask(request) => self.runner.reply(answer(&request)),
                Action::Fail(error) => {
                    self.errors.push(error);
                    self.runner.advance(1000)
                }
                Action::Done => break,
            };
        }
    }
}

fn run(source: &str) -> Session {
    let mut session = Session::new();
    session.feed(source);
    session
}

fn output(source: &str) -> Vec<String> {
    let session = run(source);
    assert_eq!(session.reports, Vec::<String>::new());
    assert_eq!(session.errors, vec![]);
    session.output
}

fn failure(source: &str) -> (Vec<String>, RuntimeError) {
    let mut session = run(source);
    assert_eq!(session.reports, Vec::<String>::new());
    assert_eq!(session.errors.len(), 1);
    (session.output, session.errors.remove(0))
}

#[test]
fn arithmetic_follows_precedence() {
    assert_eq!(output("print 1 + 2 * 3;"), vec!["7"]);
    assert_eq!(output("print (1 + 2) * 3;"), vec!["9"]);
    assert_eq!(output("print 10 - 4 - 3;"), vec!["3"]);
    assert_eq!(output("print 7 / 2;"), vec!["3.5"]);
    assert_eq!(output("print -3 + 1;"), vec!["-2"]);
    assert_eq!(output("print 1.5 + 1.25;"), vec!["2.75"]);
}

#[test]
fn strings_are_joined_by_plus() {
    assert_eq!(output("print \"foo\" + \"bar\";"), vec!["foobar"]);
}

#[test]
fn a_string_plus_a_number_is_a_type_error() {
    let (printed, error) = failure("print \"foo\" + 1;");
    assert_eq!(printed, Vec::<String>::new());
    assert_eq!(error.message, "Operands must be two numbers or two strings");
    assert_eq!(error.line, 1);
}

#[test]
fn minus_wants_numbers() {
    let (_, error) = failure("print \"a\" - \"b\";");
    assert_eq!(error.message, "Operands must be two numbers or two strings");
    let (_, error) = failure("print true * 2;");
    assert_eq!(error.message, "Operands must be two numbers or two strings");
    let (_, error) = failure("print nil < 1;");
    assert_eq!(error.message, "Operands must be two numbers or two strings");
    let (_, error) = failure("print\n-\"a\";");
    assert_eq!(error.message, "Operand must be a number");
    assert_eq!(error.line, 2);
}

#[test]
fn equality_never_fails_and_separates_the_variants() {
    assert_eq!(output("print nil == nil;"), vec!["true"]);
    assert_eq!(output("print 0 == false;"), vec!["false"]);
    assert_eq!(output("print 0 != false;"), vec!["true"]);
    assert_eq!(output("print \"a\" == \"a\";"), vec!["true"]);
    assert_eq!(output("print \"a\" == \"b\";"), vec!["false"]);
    assert_eq!(output("print \"1\" == 1;"), vec!["false"]);
    assert_eq!(output("print true == true;"), vec!["true"]);
    assert_eq!(output("print true != false;"), vec!["true"]);
    assert_eq!(output("print nil == false;"), vec!["false"]);
    assert_eq!(output("print 1 == 1;"), vec!["true"]);
    assert_eq!(output("print 1 == 2;"), vec!["false"]);
    assert_eq!(output("print 1 != 2;"), vec!["true"]);
    assert_eq!(output("fun f() {} fun g() {} print f == f; print f == g; print clock == clock;"),
        vec!["true", "false", "true"]);
}

#[test]
fn comparison_of_numbers() {
    assert_eq!(output("print 1 < 2; print 2 <= 2; print 1 > 2; print 2 >= 3;"),
        vec!["true", "true", "false", "false"]);
}

#[test]
fn only_nil_and_false_are_falsy() {
    assert_eq!(output("print !nil; print !false; print !true; print !0; print !\"\";"),
        vec!["true", "true", "false", "false", "false"]);
    assert_eq!(output("if (0) print \"yes\"; else print \"no\";"), vec!["yes"]);
    assert_eq!(output("if (nil) print \"yes\"; else print \"no\";"), vec!["no"]);
}

#[test]
fn logical_operators_give_an_operand() {
    assert_eq!(output("print nil or \"b\"; print \"a\" or \"b\"; print nil and 1; print 1 and 2;"),
        vec!["b", "a", "nil", "2"]);
}

#[test]
fn logical_operators_short_circuit() {
    assert_eq!(output("var a = 1; true or (a = 2); false and (a = 3); print a;"), vec!["1"]);
}

#[test]
fn inner_declaration_shadows_and_outer_is_restored() {
    assert_eq!(output("var a = 1; { var a = 2; print a; } print a;"), vec!["2", "1"]);
}

#[test]
fn assignment_in_a_block_reaches_the_outer_variable() {
    assert_eq!(output("var a = 1; { a = 2; } print a;"), vec!["2"]);
    assert_eq!(output("var a; print a; print a = 3;"), vec!["nil", "3"]);
}

#[test]
fn counters_keep_their_own_state() {
    let source = "
        fun makeCounter() {
            var count = 0;
            fun counter() {
                count = count + 1;
                print count;
            }
            return counter;
        }
        var first = makeCounter();
        var second = makeCounter();
        first(); first(); second(); first();
    ";
    assert_eq!(output(source), vec!["1", "2", "1", "3"]);
}

#[test]
fn a_closure_sees_later_changes_of_its_scope() {
    let source = "
        var a = \"before\";
        fun show() { print a; }
        show();
        a = \"after\";
        show();
    ";
    assert_eq!(output(source), vec!["before", "after"]);
}

#[test]
fn for_and_while_give_the_same_sum() {
    let sugared = output("var sum = 0; for (var i = 1; i <= 5; i = i + 1) sum = sum + i; print sum;");
    let by_hand = output(
        "var sum = 0; { var i = 1; while (i <= 5) { sum = sum + i; i = i + 1; } } print sum;",
    );
    assert_eq!(sugared, vec!["15"]);
    assert_eq!(by_hand, sugared);
}

#[test]
fn two_syntax_errors_are_both_reported_and_nothing_runs() {
    let session = run("print 1;\nvar = 2;\nprint ;\nprint 3;");
    assert_eq!(
        session.reports,
        vec![
            "[line 2] Error at '=': Expect variable name".to_string(),
            "[line 3] Error at ';': Expect expression.".to_string(),
        ]
    );
    assert_eq!(session.output, Vec::<String>::new());
    assert_eq!(session.errors, vec![]);
}

#[test]
fn a_lexical_error_keeps_the_text_from_running() {
    let session = run("print 1;\nprint @;\nprint \"open");
    assert_eq!(
        session.reports,
        vec![
            "[line 2] Error : Unexpected character".to_string(),
            "[line 3] Error : Unterminated string".to_string(),
        ]
    );
    assert_eq!(session.output, Vec::<String>::new());
}

#[test]
fn fibonacci_by_recursion() {
    let source = "
        fun fib(n) {
            if (n < 2) return n;
            return fib(n - 1) + fib(n - 2);
        }
        print fib(0); print fib(1); print fib(2); print fib(10); print fib(15);
    ";
    assert_eq!(output(source), vec!["0", "1", "1", "55", "610"]);
}

#[test]
fn a_call_with_the_wrong_number_of_arguments_fails() {
    let (printed, error) = failure("fun f(a, b) { print a; }\nprint 1;\nf(1);");
    assert_eq!(printed, vec!["1"]);
    assert_eq!(error.message, "Expected 2  arguments, but got 1.");
    assert_eq!(error.line, 3);
    let (_, error) = failure("fun f() {} f(1, 2, 3);");
    assert_eq!(error.message, "Expected 0  arguments, but got 3.");
    let (_, error) = failure("clock(1);");
    assert_eq!(error.message, "Expected 0  arguments, but got 1.");
}

#[test]
fn only_callables_can_be_called() {
    let (_, error) = failure("var a = 1;\na();");
    assert_eq!(error.message, "Can only call functions and classes.");
    assert_eq!(error.line, 2);
    let (_, error) = failure("\"text\"();");
    assert_eq!(error.message, "Can only call functions and classes.");
}

#[test]
fn reading_an_undeclared_name_fails() {
    let (printed, error) = failure("print 1;\nprint missing;\nprint 2;");
    assert_eq!(printed, vec!["1"]);
    assert_eq!(error.message, "Undefined variable missing.");
    assert_eq!(error.line, 2);
}

#[test]
fn assigning_to_an_undeclared_name_fails() {
    let (_, error) = failure("\n\nmissing = 1;");
    assert_eq!(error.message, "Undefined variable 'missing'.");
    assert_eq!(error.line, 3);
}

#[test]
fn a_runtime_error_drops_the_rest_of_the_text_only() {
    let mut session = Session::new();
    session.feed("var a = 1; print missing; a = 2;");
    assert_eq!(session.errors.len(), 1);
    session.feed("print a;");
    assert_eq!(session.output, vec!["1"]);
    assert_eq!(session.errors.len(), 1);
}

#[test]
fn a_runtime_error_inside_a_call_ends_in_the_global_scope() {
    let mut session = Session::new();
    session.feed("var a = \"global\"; fun f() { var a = \"local\"; { print missing; } } f();");
    assert_eq!(session.errors.len(), 1);
    session.feed("print a;");
    assert_eq!(session.output, vec!["global"]);
}

#[test]
fn declarations_stay_from_one_text_to_the_next() {
    let mut session = Session::new();
    session.feed("var a = 1; fun twice(n) { return n * 2; }");
    session.feed("print twice(a + 1);");
    assert_eq!(session.output, vec!["4"]);
}

#[test]
fn a_text_with_a_syntax_error_leaves_the_session_usable() {
    let mut session = Session::new();
    session.feed("var a = 1;");
    session.feed("print a");
    assert_eq!(session.reports.len(), 1);
    session.feed("print a;");
    assert_eq!(session.output, vec!["1"]);
}

#[test]
fn loops_and_calls_leave_no_scopes_behind() {
    let source = "
        fun sum(n) { var total = 0; for (var i = 1; i <= n; i = i + 1) { total = total + i; } return total; }
        var i = 0;
        while (i < 20) { { var t = sum(i); } i = i + 1; }
        print sum(100);
    ";
    assert_eq!(output(source), vec!["5050"]);
}

#[test]
fn a_closure_keeps_its_scope_after_the_call_has_ended() {
    let source = "
        fun make(text) { fun show() { print text; } return show; }
        var first = make(\"one\");
        { var unrelated = 1; }
        var second = make(\"two\");
        fun noise(n) { if (n > 0) noise(n - 1); }
        noise(10);
        first(); second(); first();
    ";
    assert_eq!(output(source), vec!["one", "two", "one"]);
}

#[test]
fn a_function_without_return_gives_nil() {
    assert_eq!(output("fun f() { 1; } print f();"), vec!["nil"]);
    assert_eq!(output("fun f() { return; } print f();"), vec!["nil"]);
}

#[test]
fn return_leaves_loops_and_blocks() {
    let source = "
        fun find() {
            var i = 0;
            while (true) {
                { if (i == 3) return i; }
                i = i + 1;
            }
        }
        print find();
        print \"after\";
    ";
    assert_eq!(output(source), vec!["3", "after"]);
}

#[test]
fn return_restores_the_scope_of_the_caller() {
    let source = "
        var a = \"outer\";
        fun f() { var a = \"inner\"; { { return a; } } }
        print f();
        print a;
    ";
    assert_eq!(output(source), vec!["inner", "outer"]);
}

#[test]
fn return_keeps_the_operands_of_the_caller() {
    assert_eq!(output("fun two() { return 2; } print 1 + two() * 3 + two();"), vec!["9"]);
}

#[test]
fn return_outside_of_a_function_ends_the_statement() {
    assert_eq!(output("print 1; { print 2; return; print 3; } print 4;"), vec!["1", "2", "4"]);
}

#[test]
fn arguments_are_bound_in_order() {
    assert_eq!(output("fun f(a, b, c) { print a; print b; print c; } f(1, \"two\", nil);"),
        vec!["1", "two", "nil"]);
}

#[test]
fn a_function_runs_in_the_scope_of_its_declaration() {
    let source = "
        var a = \"global\";
        fun show() { print a; }
        fun caller() { var a = \"caller\"; show(); }
        caller();
    ";
    assert_eq!(output(source), vec!["global"]);
}

#[test]
fn values_print_in_their_natural_text() {
    assert_eq!(output("print nil; print true; print false; print \"text\"; print 12.50; print 0.1 + 0.2;"),
        vec!["nil", "true", "false", "text", "12.5", "0.3"]);
    assert_eq!(output("fun f() {} print f; print clock;"), vec!["<fn>", "<native fn>"]);
    assert_eq!(output("print 1 / 3;"), vec![(1.0f32 / 3.0f32).to_string()]);
}

#[test]
fn the_clock_is_asked_of_the_host() {
    assert_eq!(output("print clock();"), vec!["1234.5"]);
    assert_eq!(output("print clock() - clock();"), vec!["0"]);
}

#[test]
fn while_runs_until_its_condition_is_falsy() {
    assert_eq!(output("var i = 0; while (i < 3) { print i; i = i + 1; }"), vec!["0", "1", "2"]);
    assert_eq!(output("while (false) print 1; print 2;"), vec!["2"]);
}

#[test]
fn if_picks_a_branch() {
    assert_eq!(output("if (1 < 2) print \"then\"; else print \"else\";"), vec!["then"]);
    assert_eq!(output("if (1 > 2) print \"then\"; else print \"else\";"), vec!["else"]);
    assert_eq!(output("if (1 > 2) print \"then\"; print \"after\";"), vec!["after"]);
}

#[test]
fn only_a_script_ends_the_process_on_errors() {
    let mut runner = CodeRunner::new();
    assert_eq!(runner.handle_error(), None);
    runner.set_mode(Mode::Repl);
    assert_eq!(runner.handle_error(), None);
    runner.set_mode(Mode::File);
    assert_eq!(runner.handle_error(), Some(65));
    assert_eq!(FAILURE, 65);
}

#[test]
fn a_request_stays_pending_until_it_is_answered() {
    let mut runner = CodeRunner::new();
    assert_eq!(runner.run("print 1 + 2;".to_string()), Vec::<String>::new());
    let request = match runner.advance(100) {
        Action::Ask(request) => request,
        other => panic!("no request: {:?}", other),
    };
    assert_eq!(
        request,
        Request::Binary(
            TokenType::Plus,
            Number::Written("1".to_string()),
            Number::Written("2".to_string())
        )
    );
    assert_eq!(runner.advance(100), Action::Ask(request.clone()));
    assert_eq!(runner.reply(Reply::Bool(true)), Action::Ask(request.clone()));
    assert_eq!(runner.reply(Reply::Text("3".to_string())), Action::Ask(request));
    assert_eq!(runner.reply(Reply::Number(3f32.to_bits())), Action::Continue);
    assert_eq!(runner.advance(100), Action::Ask(Request::Format(Number::Bits(3f32.to_bits()))));
    assert_eq!(runner.reply(Reply::Text("3".to_string())), Action::Print("3".to_string()));
    assert_eq!(runner.advance(100), Action::Done);
    assert_eq!(runner.reply(Reply::Number(0)), Action::Continue);
}

#[test]
fn a_budget_bounds_the_steps() {
    let mut runner = CodeRunner::new();
    runner.run("while (true) {}".to_string());
    assert_eq!(runner.advance(0), Action::Continue);
    assert_eq!(runner.advance(10000), Action::Continue);
}

#[test]
fn runtime_error_text_has_the_line_below_the_message() {
    let token = Token::new(TokenType::Plus, "+".to_string(), None, 12);
    assert_eq!(runtime_error(&token, "Operands must be numbers"), "Operands must be numbers\n[line 12]");
}
