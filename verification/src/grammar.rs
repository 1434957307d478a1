use vstd::prelude::*;
use crate::error::error_line;
use crate::productions::{unfold_declaration, unfold_declarations};
use crate::expr::ExprView;
use crate::literal::LiteralView;
use crate::scanner::remaining;
use crate::stmt::StmtView;
use crate::token::TokenView;
use crate::token_type::TokenType;

verus! {

/// A syntax error: the token it is laid to and the message.
pub struct SyntaxErrorView {
    pub token: TokenView,
    pub message: Seq<char>,
}

/// What parsing one construct at a position comes to: the construct or the
/// error, and how many tokens were taken on the way.
pub struct Parsed<T> {
    pub result: Result<T, SyntaxErrorView>,
    pub used: nat,
}

/// What parsing a statement comes to. The reports are those of the faults that
/// were met and recovered from inside it.
pub struct Stated<T> {
    pub result: Result<T, SyntaxErrorView>,
    pub used: nat,
    pub reports: Seq<Seq<char>>,
}

/// What parsing a declaration comes to, after recovery: a statement or none.
pub struct Declared {
    pub statement: Option<StmtView>,
    pub used: nat,
    pub reports: Seq<Seq<char>>,
}

/// What parsing a run of declarations comes to.
pub struct Listed {
    pub statements: Seq<StmtView>,
    pub used: nat,
    pub reports: Seq<Seq<char>>,
}

impl<T> Parsed<T> {
    /// The same outcome, reached after `before` more tokens.
    pub open spec fn after(self, before: nat) -> Parsed<T> {
        Parsed { result: self.result, used: before + self.used }
    }

    /// The same outcome as that of a statement, with nothing to report.
    pub open spec fn quiet(self) -> Stated<T> {
        Stated { result: self.result, used: self.used, reports: Seq::empty() }
    }
}

impl<T> Stated<T> {
    /// The same outcome, reached after `before` more tokens and `earlier` reports.
    pub open spec fn after(self, before: nat, earlier: Seq<Seq<char>>) -> Stated<T> {
        Stated { result: self.result, used: before + self.used, reports: earlier + self.reports }
    }
}

/// A construct, parsed over `used` tokens.
pub open spec fn done<T>(value: T, used: nat) -> Parsed<T> {
    Parsed { result: Ok(value), used }
}

/// An error, met after `used` tokens.
pub open spec fn failed<T>(error: SyntaxErrorView, used: nat) -> Parsed<T> {
    Parsed { result: Err(error), used }
}

/// A statement, parsed over `used` tokens, with the reports from inside it.
pub open spec fn stated<T>(value: T, used: nat, reports: Seq<Seq<char>>) -> Stated<T> {
    Stated { result: Ok(value), used, reports }
}

/// An error in a statement, met after `used` tokens, with the reports from inside it.
pub open spec fn refused<T>(error: SyntaxErrorView, used: nat, reports: Seq<Seq<char>>) -> Stated<T> {
    Stated { result: Err(error), used, reports }
}

/// The token at `pos`. The tokens of a parser end with the end token, and no
/// position beyond it is ever read.
pub open spec fn peek(tokens: Seq<TokenView>, pos: int) -> TokenView {
    if 0 <= pos < tokens.len() {
        tokens[pos]
    } else {
        TokenView { token_type: TokenType::Eof, lexeme: Seq::empty(), literal: None, line: 0 }
    }
}

/// The kind of the token at `pos`.
pub open spec fn kind(tokens: Seq<TokenView>, pos: int) -> TokenType {
    peek(tokens, pos).token_type
}

/// Whether the end token stands at `pos`.
pub open spec fn at_end(tokens: Seq<TokenView>, pos: int) -> bool {
    kind(tokens, pos) == TokenType::Eof
}

/// Whether the token at `pos` is of kind `expected`. The end token matches nothing.
pub open spec fn check(tokens: Seq<TokenView>, pos: int, expected: TokenType) -> bool {
    !at_end(tokens, pos) && kind(tokens, pos) == expected
}

/// Takes the token at `pos` where it is of kind `expected`; else the error is
/// laid to the token that stands there.
pub open spec fn consume(tokens: Seq<TokenView>, pos: int, expected: TokenType, message: Seq<char>) -> Parsed<
    TokenView,
> {
    if check(tokens, pos, expected) {
        done(peek(tokens, pos), 1)
    } else {
        failed(SyntaxErrorView { token: peek(tokens, pos), message }, 0)
    }
}

/// The binary operators by level, from the tightest: factor, term, comparison,
/// equality, `and`, `or`.
pub open spec fn operators(level: nat, operator: TokenType) -> bool {
    if level == 0 {
        operator == TokenType::Slash || operator == TokenType::Star
    } else if level == 1 {
        operator == TokenType::Minus || operator == TokenType::Plus
    } else if level == 2 {
        operator == TokenType::Greater || operator == TokenType::GreaterEqual || operator
            == TokenType::Less || operator == TokenType::LessEqual
    } else if level == 3 {
        operator == TokenType::BangEqual || operator == TokenType::EqualEqual
    } else if level == 4 {
        operator == TokenType::And
    } else if level == 5 {
        operator == TokenType::Or
    } else {
        false
    }
}

/// The node that an operator of `level` makes of its operands: `and` and `or`
/// short-circuit, the others do not.
pub open spec fn join(level: nat, left: ExprView, operator: TokenView, right: ExprView) -> ExprView {
    if level >= 4 {
        ExprView::Logical(Box::new(left), operator, Box::new(right))
    } else {
        ExprView::Binary(Box::new(left), operator, Box::new(right))
    }
}

/// The most arguments of a call and the most parameters of a function.
pub open spec fn limit() -> nat {
    255
}

/// expression → assignment
#[verifier::opaque]
pub open spec fn expression(tokens: Seq<TokenView>, pos: int) -> Parsed<ExprView>
    decreases remaining(tokens.len(), pos), 100nat,
{
    assignment(tokens, pos)
}

/// assignment → IDENTIFIER "=" assignment | or
///
/// The left side is parsed as an expression of the level below. Behind an `=`
/// it must have come out as a bare variable.
#[verifier::opaque]
pub open spec fn assignment(tokens: Seq<TokenView>, pos: int) -> Parsed<ExprView>
    decreases remaining(tokens.len(), pos), 99nat,
{
    let left = infix(tokens, pos, 5);
    match left.result {
        Err(_) => left,
        Ok(target) => {
            if check(tokens, pos + left.used, TokenType::Equal) {
                let equals = peek(tokens, pos + left.used);
                let value = assignment(tokens, pos + left.used + 1).after(left.used + 1);
                match value.result {
                    Err(_) => value,
                    Ok(right) => match target {
                        ExprView::Variable(name) => done(ExprView::Assign(name, Box::new(right)), value.used),
                        _ => failed(
                            SyntaxErrorView { token: equals, message: "Invalid assignment target."@ },
                            value.used,
                        ),
                    },
                }
            } else {
                left
            }
        },
    }
}

/// The operand of an operator of `level`: an expression of the level below,
/// and below the factors a unary expression.
#[verifier::opaque]
pub open spec fn operand(tokens: Seq<TokenView>, pos: int, level: nat) -> Parsed<ExprView>
    decreases remaining(tokens.len(), pos), 20 + 3 * level,
{
    if level == 0 {
        unary(tokens, pos)
    } else {
        infix(tokens, pos, (level - 1) as nat)
    }
}

/// level → operand ( operator operand )*, left-associative.
#[verifier::opaque]
pub open spec fn infix(tokens: Seq<TokenView>, pos: int, level: nat) -> Parsed<ExprView>
    decreases remaining(tokens.len(), pos), 20 + 3 * level + 2,
{
    let first = operand(tokens, pos, level);
    match first.result {
        Err(_) => first,
        Ok(left) => infix_rest(tokens, pos + first.used, level, left).after(first.used),
    }
}

/// ( operator operand )* behind the operands that made `left`.
#[verifier::opaque]
pub open spec fn infix_rest(tokens: Seq<TokenView>, pos: int, level: nat, left: ExprView) -> Parsed<
    ExprView,
>
    decreases remaining(tokens.len(), pos), 20 + 3 * level + 1,
{
    if !at_end(tokens, pos) && operators(level, kind(tokens, pos)) {
        let operator = peek(tokens, pos);
        let second = operand(tokens, pos + 1, level).after(1);
        match second.result {
            Err(_) => second,
            Ok(right) => infix_rest(
                tokens,
                pos + second.used,
                level,
                join(level, left, operator, right),
            ).after(second.used),
        }
    } else {
        done(left, 0)
    }
}

/// unary → ( "!" | "-" ) unary | call
#[verifier::opaque]
pub open spec fn unary(tokens: Seq<TokenView>, pos: int) -> Parsed<ExprView>
    decreases remaining(tokens.len(), pos), 10nat,
{
    if check(tokens, pos, TokenType::Bang) || check(tokens, pos, TokenType::Minus) {
        let operator = peek(tokens, pos);
        let right = unary(tokens, pos + 1).after(1);
        match right.result {
            Err(_) => right,
            Ok(inner) => done(ExprView::Unary(operator, Box::new(inner)), right.used),
        }
    } else {
        call(tokens, pos)
    }
}

/// call → primary ( "(" arguments? ")" )*
#[verifier::opaque]
pub open spec fn call(tokens: Seq<TokenView>, pos: int) -> Parsed<ExprView>
    decreases remaining(tokens.len(), pos), 9nat,
{
    let first = primary(tokens, pos);
    match first.result {
        Err(_) => first,
        Ok(callee) => call_rest(tokens, pos + first.used, callee).after(first.used),
    }
}

/// ( "(" arguments? ")" )* behind the expression `callee`.
#[verifier::opaque]
pub open spec fn call_rest(tokens: Seq<TokenView>, pos: int, callee: ExprView) -> Parsed<ExprView>
    decreases remaining(tokens.len(), pos), 8nat,
{
    if check(tokens, pos, TokenType::LeftParen) {
        let one = finish_call(tokens, pos + 1, callee).after(1);
        match one.result {
            Err(_) => one,
            Ok(node) => call_rest(tokens, pos + one.used, node).after(one.used),
        }
    } else {
        done(callee, 0)
    }
}

/// arguments? ")" behind the opening parenthesis of a call.
#[verifier::opaque]
pub open spec fn finish_call(tokens: Seq<TokenView>, pos: int, callee: ExprView) -> Parsed<ExprView>
    decreases remaining(tokens.len(), pos), 102nat,
{
    let list = if check(tokens, pos, TokenType::RightParen) {
        done(Seq::empty(), 0)
    } else {
        arguments(tokens, pos, 0)
    };
    match list.result {
        Err(error) => failed(error, list.used),
        Ok(items) => {
            let paren = consume(
                tokens,
                pos + list.used,
                TokenType::RightParen,
                "Expect ')' after arguments"@,
            ).after(list.used);
            match paren.result {
                Err(error) => failed(error, paren.used),
                Ok(token) => done(ExprView::Call(Box::new(callee), token, items), paren.used),
            }
        },
    }
}

/// arguments → expression ( "," expression )*, behind `count` arguments
/// already read. One more than the limit is an error at the token where it
/// would begin.
#[verifier::opaque]
pub open spec fn arguments(tokens: Seq<TokenView>, pos: int, count: nat) -> Parsed<Seq<ExprView>>
    decreases remaining(tokens.len(), pos), 101nat,
{
    if count >= limit() {
        failed(
            SyntaxErrorView { token: peek(tokens, pos), message: "Can't have more than 255 arguments."@ },
            0,
        )
    } else {
        let first = expression(tokens, pos);
        match first.result {
            Err(error) => failed(error, first.used),
            Ok(item) => {
                if check(tokens, pos + first.used, TokenType::Comma) {
                    let rest = arguments(tokens, pos + first.used + 1, count + 1).after(first.used + 1);
                    match rest.result {
                        Err(_) => rest,
                        Ok(items) => done(seq![item] + items, rest.used),
                    }
                } else {
                    done(seq![item], first.used)
                }
            },
        }
    }
}

/// primary → "false" | "true" | "nil" | NUMBER | STRING | "(" expression ")" | IDENTIFIER
#[verifier::opaque]
pub open spec fn primary(tokens: Seq<TokenView>, pos: int) -> Parsed<ExprView>
    decreases remaining(tokens.len(), pos), 1nat,
{
    let token = peek(tokens, pos);
    if check(tokens, pos, TokenType::False) {
        done(ExprView::Literal(LiteralView::Bool(false)), 1)
    } else if check(tokens, pos, TokenType::True) {
        done(ExprView::Literal(LiteralView::Bool(true)), 1)
    } else if check(tokens, pos, TokenType::Nil) {
        done(ExprView::Literal(LiteralView::Null), 1)
    } else if (check(tokens, pos, TokenType::Number) || check(tokens, pos, TokenType::String))
        && token.literal is Some {
        done(ExprView::Literal(token.literal.unwrap()), 1)
    } else if check(tokens, pos, TokenType::LeftParen) {
        let inner = expression(tokens, pos + 1).after(1);
        match inner.result {
            Err(_) => inner,
            Ok(expr) => {
                let paren = consume(
                    tokens,
                    pos + inner.used,
                    TokenType::RightParen,
                    "Expect ')' after expression"@,
                ).after(inner.used);
                match paren.result {
                    Err(error) => failed(error, paren.used),
                    Ok(_) => done(ExprView::Grouping(Box::new(expr)), paren.used),
                }
            },
        }
    } else if check(tokens, pos, TokenType::Identifier) {
        done(ExprView::Variable(token), 1)
    } else {
        failed(SyntaxErrorView { token, message: "Expect expression."@ }, 0)
    }
}

/// Whether a statement may begin with a token of this kind: recovery stops
/// in front of such a token.
pub open spec fn starts_statement(kind: TokenType) -> bool {
    kind == TokenType::Class || kind == TokenType::Fun || kind == TokenType::Var || kind
        == TokenType::For || kind == TokenType::If || kind == TokenType::While || kind
        == TokenType::Print || kind == TokenType::Return
}

/// How many tokens recovery drops from `pos` on, the first of them already
/// dropped: it stops behind a semicolon, in front of a token that starts a
/// statement, and at the end.
pub open spec fn skipped(tokens: Seq<TokenView>, pos: int) -> nat
    decreases remaining(tokens.len(), pos),
{
    if at_end(tokens, pos) || kind(tokens, pos - 1) == TokenType::Semicolon || starts_statement(
        kind(tokens, pos),
    ) {
        0
    } else {
        1 + skipped(tokens, pos + 1)
    }
}

/// How many tokens recovery drops at `pos`: the token there, unless it is the
/// end token, and then what `skipped` says.
pub open spec fn synchronized(tokens: Seq<TokenView>, pos: int) -> nat {
    if at_end(tokens, pos) {
        0
    } else {
        1 + skipped(tokens, pos + 1)
    }
}

/// What a `for` statement stands for: the loop with the increment behind its
/// body, inside a block behind the initializer. A part that is absent adds
/// nothing, but for the condition, which is then `true`.
pub open spec fn desugared(
    initializer: Option<StmtView>,
    condition: Option<ExprView>,
    increment: Option<ExprView>,
    body: StmtView,
) -> StmtView {
    let inner = match increment {
        Some(step) => StmtView::Block(seq![body, StmtView::Expr(step)]),
        None => body,
    };
    let test = match condition {
        Some(test) => test,
        None => ExprView::Literal(LiteralView::Bool(true)),
    };
    let repeat = StmtView::While(test, Box::new(inner));
    match initializer {
        Some(first) => StmtView::Block(seq![first, repeat]),
        None => repeat,
    }
}

/// The run of declarations at `pos`: up to the end token, and inside a block
/// up to its closing brace. A declaration that fails leaves its report and no
/// statement.
#[verifier::opaque]
pub open spec fn declarations(tokens: Seq<TokenView>, pos: int, inside: bool) -> Listed
    decreases remaining(tokens.len(), pos), 200nat,
{
    if at_end(tokens, pos) || (inside && kind(tokens, pos) == TokenType::RightBrace) {
        Listed { statements: Seq::empty(), used: 0, reports: Seq::empty() }
    } else {
        let one = declaration(tokens, pos);
        // A declaration in front of the end always takes a token.
        let used = if one.used == 0 {
            1
        } else {
            one.used
        };
        let rest = declarations(tokens, pos + used, inside);
        Listed {
            statements: match one.statement {
                Some(statement) => seq![statement] + rest.statements,
                None => rest.statements,
            },
            used: used + rest.used,
            reports: one.reports + rest.reports,
        }
    }
}

/// declaration → function | variable declaration | statement, with recovery:
/// an error is reported at its token, and tokens are dropped up to the next
/// statement.
#[verifier::opaque]
pub open spec fn declaration(tokens: Seq<TokenView>, pos: int) -> Declared
    decreases remaining(tokens.len(), pos), 199nat,
{
    let tried = construct(tokens, pos);
    match tried.result {
        Ok(statement) => Declared { statement: Some(statement), used: tried.used, reports: tried.reports },
        Err(error) => Declared {
            statement: None,
            used: tried.used + synchronized(tokens, pos + tried.used),
            reports: tried.reports.push(error_line(error.token, error.message)),
        },
    }
}

/// A declaration without recovery.
#[verifier::opaque]
pub open spec fn construct(tokens: Seq<TokenView>, pos: int) -> Stated<StmtView>
    decreases remaining(tokens.len(), pos), 198nat,
{
    if check(tokens, pos, TokenType::Fun) {
        function(tokens, pos + 1, "function"@).after(1, Seq::empty())
    } else if check(tokens, pos, TokenType::Var) {
        var_declaration(tokens, pos + 1).after(1).quiet()
    } else {
        statement(tokens, pos)
    }
}

/// The parameters of a function, behind `count` of them already read.
pub open spec fn parameters(tokens: Seq<TokenView>, pos: int, count: nat) -> Parsed<Seq<TokenView>>
    decreases remaining(tokens.len(), pos), 0nat,
{
    if count >= limit() {
        failed(
            SyntaxErrorView { token: peek(tokens, pos), message: "Can't have more than 255 parameters"@ },
            0,
        )
    } else {
        let first = consume(tokens, pos, TokenType::Identifier, "Expect paramter name."@);
        match first.result {
            Err(error) => failed(error, first.used),
            Ok(name) => {
                if check(tokens, pos + 1, TokenType::Comma) {
                    let rest = parameters(tokens, pos + 2, count + 1).after(2);
                    match rest.result {
                        Err(_) => rest,
                        Ok(names) => done(seq![name] + names, rest.used),
                    }
                } else {
                    done(seq![name], 1)
                }
            },
        }
    }
}

/// function → IDENTIFIER "(" parameters? ")" "{" block, behind `fun`.
#[verifier::opaque]
pub open spec fn function(tokens: Seq<TokenView>, pos: int, kind: Seq<char>) -> Stated<StmtView>
    decreases remaining(tokens.len(), pos), 197nat,
{
    let name = consume(tokens, pos, TokenType::Identifier, "Expect "@ + kind + " name."@);
    match name.result {
        Err(error) => refused(error, name.used, Seq::empty()),
        Ok(name_token) => {
            let open = consume(
                tokens,
                pos + 1,
                TokenType::LeftParen,
                "Expect '(' after "@ + kind + " name."@,
            ).after(1);
            match open.result {
                Err(error) => refused(error, open.used, Seq::empty()),
                Ok(_) => {
                    let list = if check(tokens, pos + 2, TokenType::RightParen) {
                        done(Seq::empty(), 2)
                    } else {
                        parameters(tokens, pos + 2, 0).after(2)
                    };
                    match list.result {
                        Err(error) => refused(error, list.used, Seq::empty()),
                        Ok(names) => {
                            let close = consume(
                                tokens,
                                pos + list.used,
                                TokenType::RightParen,
                                "Expect '(' after parameters."@,
                            ).after(list.used);
                            match close.result {
                                Err(error) => refused(error, close.used, Seq::empty()),
                                Ok(_) => {
                                    let brace = consume(
                                        tokens,
                                        pos + close.used,
                                        TokenType::LeftBrace,
                                        "Expect '{' before "@ + kind + " body."@,
                                    ).after(close.used);
                                    match brace.result {
                                        Err(error) => refused(error, brace.used, Seq::empty()),
                                        Ok(_) => {
                                            let body = block(tokens, pos + brace.used).after(
                                                brace.used,
                                                Seq::empty(),
                                            );
                                            match body.result {
                                                Err(error) => refused(error, body.used, body.reports),
                                                Ok(statements) => stated(
                                                    StmtView::Function(name_token, names, statements),
                                                    body.used,
                                                    body.reports,
                                                ),
                                            }
                                        },
                                    }
                                },
                            }
                        },
                    }
                },
            }
        },
    }
}

/// variable declaration → IDENTIFIER ( "=" expression )? ";", behind `var`.
pub open spec fn var_declaration(tokens: Seq<TokenView>, pos: int) -> Parsed<StmtView>
    decreases remaining(tokens.len(), pos), 150nat,
{
    let name = consume(tokens, pos, TokenType::Identifier, "Expect variable name"@);
    match name.result {
        Err(error) => failed(error, name.used),
        Ok(name_token) => {
            let initializer = if check(tokens, pos + 1, TokenType::Equal) {
                let value = expression(tokens, pos + 2).after(2);
                match value.result {
                    Err(error) => failed(error, value.used),
                    Ok(expr) => done(Some(expr), value.used),
                }
            } else {
                done(None, 1)
            };
            match initializer.result {
                Err(error) => failed(error, initializer.used),
                Ok(value) => {
                    let end = consume(
                        tokens,
                        pos + initializer.used,
                        TokenType::Semicolon,
                        "Expect ';' after variable declaration."@,
                    ).after(initializer.used);
                    match end.result {
                        Err(error) => failed(error, end.used),
                        Ok(_) => done(StmtView::Var(name_token, value), end.used),
                    }
                },
            }
        },
    }
}

/// statement → print | block | if | while | for | return | expression statement
#[verifier::opaque]
pub open spec fn statement(tokens: Seq<TokenView>, pos: int) -> Stated<StmtView>
    decreases remaining(tokens.len(), pos), 197nat,
{
    if check(tokens, pos, TokenType::Print) {
        print_statement(tokens, pos + 1).after(1).quiet()
    } else if check(tokens, pos, TokenType::LeftBrace) {
        let body = block(tokens, pos + 1).after(1, Seq::empty());
        match body.result {
            Err(error) => refused(error, body.used, body.reports),
            Ok(statements) => stated(StmtView::Block(statements), body.used, body.reports),
        }
    } else if check(tokens, pos, TokenType::If) {
        if_statement(tokens, pos + 1).after(1, Seq::empty())
    } else if check(tokens, pos, TokenType::While) {
        while_statement(tokens, pos + 1).after(1, Seq::empty())
    } else if check(tokens, pos, TokenType::For) {
        for_statement(tokens, pos + 1).after(1, Seq::empty())
    } else if check(tokens, pos, TokenType::Return) {
        return_statement(tokens, pos + 1).after(1).quiet()
    } else {
        expression_statement(tokens, pos).quiet()
    }
}

/// return → expression? ";", behind `return`.
pub open spec fn return_statement(tokens: Seq<TokenView>, pos: int) -> Parsed<StmtView>
    decreases remaining(tokens.len(), pos), 150nat,
{
    let keyword = peek(tokens, pos - 1);
    let value = if check(tokens, pos, TokenType::Semicolon) {
        done(None, 0)
    } else {
        let given = expression(tokens, pos);
        match given.result {
            Err(error) => failed(error, given.used),
            Ok(expr) => done(Some(expr), given.used),
        }
    };
    match value.result {
        Err(error) => failed(error, value.used),
        Ok(given) => {
            let end = consume(
                tokens,
                pos + value.used,
                TokenType::Semicolon,
                "Expect ';' after return value."@,
            ).after(value.used);
            match end.result {
                Err(error) => failed(error, end.used),
                Ok(_) => done(StmtView::Return(keyword, given), end.used),
            }
        },
    }
}

/// A condition in parentheses, with the messages for a missing parenthesis.
pub open spec fn condition(tokens: Seq<TokenView>, pos: int, before: Seq<char>, behind: Seq<char>) -> Parsed<
    ExprView,
>
    decreases remaining(tokens.len(), pos), 150nat,
{
    let open = consume(tokens, pos, TokenType::LeftParen, before);
    match open.result {
        Err(error) => failed(error, open.used),
        Ok(_) => {
            let test = expression(tokens, pos + 1).after(1);
            match test.result {
                Err(_) => test,
                Ok(expr) => {
                    let close = consume(tokens, pos + test.used, TokenType::RightParen, behind).after(
                        test.used,
                    );
                    match close.result {
                        Err(error) => failed(error, close.used),
                        Ok(_) => done(expr, close.used),
                    }
                },
            }
        },
    }
}

/// if → "(" expression ")" statement ( "else" statement )?, behind `if`. An
/// `else` belongs to the nearest `if` in front of it.
#[verifier::opaque]
pub open spec fn if_statement(tokens: Seq<TokenView>, pos: int) -> Stated<StmtView>
    decreases remaining(tokens.len(), pos), 250nat,
{
    let test = condition(tokens, pos, "Expect '(' after 'if'."@, "Expect ')' after 'if'."@);
    match test.result {
        Err(error) => refused(error, test.used, Seq::empty()),
        Ok(expr) => {
            let then_branch = statement(tokens, pos + test.used).after(test.used, Seq::empty());
            match then_branch.result {
                Err(_) => then_branch,
                Ok(first) => {
                    if check(tokens, pos + then_branch.used, TokenType::Else) {
                        let else_branch = statement(tokens, pos + then_branch.used + 1).after(
                            then_branch.used + 1,
                            then_branch.reports,
                        );
                        match else_branch.result {
                            Err(_) => else_branch,
                            Ok(second) => stated(
                                StmtView::If(expr, Box::new(first), Some(Box::new(second))),
                                else_branch.used,
                                else_branch.reports,
                            ),
                        }
                    } else {
                        stated(
                            StmtView::If(expr, Box::new(first), None),
                            then_branch.used,
                            then_branch.reports,
                        )
                    }
                },
            }
        },
    }
}

/// while → "(" expression ")" statement, behind `while`.
#[verifier::opaque]
pub open spec fn while_statement(tokens: Seq<TokenView>, pos: int) -> Stated<StmtView>
    decreases remaining(tokens.len(), pos), 250nat,
{
    let test = condition(tokens, pos, "Expect '(' before 'while'"@, "Expect ')' after 'conditon'"@);
    match test.result {
        Err(error) => refused(error, test.used, Seq::empty()),
        Ok(expr) => {
            let body = statement(tokens, pos + test.used).after(test.used, Seq::empty());
            match body.result {
                Err(_) => body,
                Ok(inner) => stated(StmtView::While(expr, Box::new(inner)), body.used, body.reports),
            }
        },
    }
}

/// block → declaration* "}", behind the opening brace.
#[verifier::opaque]
pub open spec fn block(tokens: Seq<TokenView>, pos: int) -> Stated<Seq<StmtView>>
    decreases remaining(tokens.len(), pos), 201nat,
{
    let list = declarations(tokens, pos, true);
    let close = consume(tokens, pos + list.used, TokenType::RightBrace, "Expect '}' after block."@).after(
        list.used,
    );
    match close.result {
        Err(error) => refused(error, close.used, list.reports),
        Ok(_) => stated(list.statements, close.used, list.reports),
    }
}

/// The first clause of a `for`: nothing, a variable declaration, or an
/// expression statement.
pub open spec fn for_initializer(tokens: Seq<TokenView>, pos: int) -> Parsed<Option<StmtView>>
    decreases remaining(tokens.len(), pos), 160nat,
{
    if check(tokens, pos, TokenType::Semicolon) {
        done(None, 1)
    } else {
        let first = if check(tokens, pos, TokenType::Var) {
            var_declaration(tokens, pos + 1).after(1)
        } else {
            expression_statement(tokens, pos)
        };
        match first.result {
            Err(error) => failed(error, first.used),
            Ok(statement) => done(Some(statement), first.used),
        }
    }
}

/// An expression that may be left out in front of a token of kind `closing`,
/// and that token, with the message for when it is missing.
pub open spec fn clause(tokens: Seq<TokenView>, pos: int, closing: TokenType, message: Seq<char>) -> Parsed<
    Option<ExprView>,
>
    decreases remaining(tokens.len(), pos), 150nat,
{
    let given = if check(tokens, pos, closing) {
        done(None, 0)
    } else {
        let value = expression(tokens, pos);
        match value.result {
            Err(error) => failed(error, value.used),
            Ok(expr) => done(Some(expr), value.used),
        }
    };
    match given.result {
        Err(_) => given,
        Ok(value) => {
            let end = consume(tokens, pos + given.used, closing, message).after(given.used);
            match end.result {
                Err(error) => failed(error, end.used),
                Ok(_) => done(value, end.used),
            }
        },
    }
}

/// for → "(" ( variable declaration | expression statement | ";" )
/// expression? ";" expression? ")" statement, behind `for`. The result is
/// the loop written out with `while`.
#[verifier::opaque]
pub open spec fn for_statement(tokens: Seq<TokenView>, pos: int) -> Stated<StmtView>
    decreases remaining(tokens.len(), pos), 250nat,
{
    let open = consume(tokens, pos, TokenType::LeftParen, "Expect '(' after 'for'."@);
    match open.result {
        Err(error) => refused(error, open.used, Seq::empty()),
        Ok(_) => {
            let first = for_initializer(tokens, pos + 1).after(1);
            match first.result {
                Err(error) => refused(error, first.used, Seq::empty()),
                Ok(initializer) => {
                    let second = clause(
                        tokens,
                        pos + first.used,
                        TokenType::Semicolon,
                        "Expect ';' after loop condition."@,
                    ).after(first.used);
                    match second.result {
                        Err(error) => refused(error, second.used, Seq::empty()),
                        Ok(test) => {
                            let third = clause(
                                tokens,
                                pos + second.used,
                                TokenType::RightParen,
                                "Expected ')' after 'for'."@,
                            ).after(second.used);
                            match third.result {
                                Err(error) => refused(error, third.used, Seq::empty()),
                                Ok(increment) => {
                                    let body = statement(tokens, pos + third.used).after(
                                        third.used,
                                        Seq::empty(),
                                    );
                                    match body.result {
                                        Err(error) => refused(error, body.used, body.reports),
                                        Ok(inner) => stated(
                                            desugared(initializer, test, increment, inner),
                                            body.used,
                                            body.reports,
                                        ),
                                    }
                                },
                            }
                        },
                    }
                },
            }
        },
    }
}

/// print → expression ";", behind `print`.
pub open spec fn print_statement(tokens: Seq<TokenView>, pos: int) -> Parsed<StmtView>
    decreases remaining(tokens.len(), pos), 150nat,
{
    let value = expression(tokens, pos);
    match value.result {
        Err(error) => failed(error, value.used),
        Ok(expr) => {
            let end = consume(tokens, pos + value.used, TokenType::Semicolon, "Expect ';' after value."@).after(
                value.used,
            );
            match end.result {
                Err(error) => failed(error, end.used),
                Ok(_) => done(StmtView::Print(expr), end.used),
            }
        },
    }
}

/// expression statement → expression ";"
pub open spec fn expression_statement(tokens: Seq<TokenView>, pos: int) -> Parsed<StmtView>
    decreases remaining(tokens.len(), pos), 150nat,
{
    let value = expression(tokens, pos);
    match value.result {
        Err(error) => failed(error, value.used),
        Ok(expr) => {
            let end = consume(
                tokens,
                pos + value.used,
                TokenType::Semicolon,
                "Expect ';' after expression."@,
            ).after(value.used);
            match end.result {
                Err(error) => failed(error, end.used),
                Ok(_) => done(StmtView::Expr(expr), end.used),
            }
        },
    }
}

/// A program: declarations up to the end token.
pub open spec fn program(tokens: Seq<TokenView>, pos: int) -> Listed {
    declarations(tokens, pos, false)
}

/// A `for` with all its parts is the block that one would write by hand: the
/// initializer, then a `while` over the condition whose body is the body of
/// the `for` followed by the increment.
pub proof fn lemma_for_is_while(initializer: StmtView, condition: ExprView, increment: ExprView, body: StmtView)
    ensures
        desugared(Some(initializer), Some(condition), Some(increment), body) == StmtView::Block(
            seq![
                initializer,
                StmtView::While(condition, Box::new(StmtView::Block(seq![body, StmtView::Expr(increment)]))),
            ],
        ),
        desugared(None, None, None, body) == StmtView::While(
            ExprView::Literal(LiteralView::Bool(true)),
            Box::new(body),
        ),
{
}

/// A run of declarations stops at the end token, or inside a block at the
/// closing brace: a program is read to its end, whatever faults it has.
pub proof fn lemma_read_to_the_end(tokens: Seq<TokenView>, pos: int, inside: bool)
    ensures
        at_end(tokens, pos + declarations(tokens, pos, inside).used) || (inside && kind(
            tokens,
            pos + declarations(tokens, pos, inside).used,
        ) == TokenType::RightBrace),
    decreases remaining(tokens.len(), pos),
{
    unfold_declarations(tokens, pos, inside);
    if !(at_end(tokens, pos) || (inside && kind(tokens, pos) == TokenType::RightBrace)) {
        let one = declaration(tokens, pos);
        let used = if one.used == 0 {
            1
        } else {
            one.used
        };
        lemma_read_to_the_end(tokens, pos + used, inside);
    }
}

/// Every failed declaration leaves a report: a parse without reports has
/// kept every declaration that it read.
pub proof fn lemma_failure_is_reported(tokens: Seq<TokenView>, pos: int)
    ensures
        declaration(tokens, pos).statement is None ==> declaration(tokens, pos).reports.len() > 0,
{
    unfold_declaration(tokens, pos);
}

} // verus!
