//! The productions of the grammar, one at a time.
//!
//! The functions of `grammar` are defined in terms of each other and are
//! opaque, so that a proof about the parser deals with one production and not
//! with all that it leads to. Each lemma here opens one of them by one step.

use vstd::prelude::*;
use crate::expr::ExprView;
use crate::grammar::{
    Declared,
    Listed,
    SyntaxErrorView,
    arguments,
    assignment,
    at_end,
    block,
    call,
    call_rest,
    check,
    clause,
    condition,
    construct,
    consume,
    declaration,
    declarations,
    desugared,
    done,
    expression,
    expression_statement,
    failed,
    finish_call,
    for_initializer,
    for_statement,
    function,
    if_statement,
    infix,
    infix_rest,
    join,
    kind,
    limit,
    operand,
    operators,
    parameters,
    peek,
    primary,
    print_statement,
    refused,
    return_statement,
    stated,
    statement,
    synchronized,
    unary,
    var_declaration,
    while_statement,
};
use crate::literal::LiteralView;
use crate::error::error_line;
use crate::stmt::StmtView;
use crate::token::TokenView;
use crate::token_type::TokenType;

verus! {

/// One step of `expression`.
pub proof fn unfold_expression(tokens: Seq<TokenView>, pos: int)
    ensures
        expression(tokens, pos) == ({
            assignment(tokens, pos)
        }),
{
    reveal(expression);
    reveal(assignment);
    reveal(operand);
    reveal(infix);
    reveal(infix_rest);
    reveal(unary);
    reveal(call);
    reveal(call_rest);
    reveal(finish_call);
    reveal(arguments);
    reveal(primary);
}

/// One step of `assignment`.
pub proof fn unfold_assignment(tokens: Seq<TokenView>, pos: int)
    ensures
        assignment(tokens, pos) == ({
            let left = infix(tokens, pos, 5);
            match left.result {
                Err(_) => left,
                Ok(target) => {
                    if check(tokens, pos + left.used, TokenType::Equal) {
                        let equals = peek(tokens, pos + left.used);
                        let value = assignment(tokens, pos + left.used + 1).after(left.used + 1);
                        match value.result {
                            Err(_) => value,
                            Ok(right) => match target {
                                ExprView::Variable(name) => done(ExprView::Assign(name, Box::new(right)), value.used),
                                _ => failed(
                                    SyntaxErrorView { token: equals, message: "Invalid assignment target."@ },
                                    value.used,
                                ),
                            },
                        }
                    } else {
                        left
                    }
                },
            }
        }),
{
    reveal(expression);
    reveal(assignment);
    reveal(operand);
    reveal(infix);
    reveal(infix_rest);
    reveal(unary);
    reveal(call);
    reveal(call_rest);
    reveal(finish_call);
    reveal(arguments);
    reveal(primary);
}

/// One step of `operand`.
pub proof fn unfold_operand(tokens: Seq<TokenView>, pos: int, level: nat)
    ensures
        operand(tokens, pos, level) == ({
            if level == 0 {
                unary(tokens, pos)
            } else {
                infix(tokens, pos, (level - 1) as nat)
            }
        }),
{
    reveal(expression);
    reveal(assignment);
    reveal(operand);
    reveal(infix);
    reveal(infix_rest);
    reveal(unary);
    reveal(call);
    reveal(call_rest);
    reveal(finish_call);
    reveal(arguments);
    reveal(primary);
}

/// One step of `infix`.
pub proof fn unfold_infix(tokens: Seq<TokenView>, pos: int, level: nat)
    ensures
        infix(tokens, pos, level) == ({
            let first = operand(tokens, pos, level);
            match first.result {
                Err(_) => first,
                Ok(left) => infix_rest(tokens, pos + first.used, level, left).after(first.used),
            }
        }),
{
    reveal(expression);
    reveal(assignment);
    reveal(operand);
    reveal(infix);
    reveal(infix_rest);
    reveal(unary);
    reveal(call);
    reveal(call_rest);
    reveal(finish_call);
    reveal(arguments);
    reveal(primary);
}

/// One step of `infix_rest`.
pub proof fn unfold_infix_rest(tokens: Seq<TokenView>, pos: int, level: nat, left: ExprView)
    ensures
        infix_rest(tokens, pos, level, left) == ({
            if !at_end(tokens, pos) && operators(level, kind(tokens, pos)) {
                let operator = peek(tokens, pos);
                let second = operand(tokens, pos + 1, level).after(1);
                match second.result {
                    Err(_) => second,
                    Ok(right) => infix_rest(
                        tokens,
                        pos + second.used,
                        level,
                        join(level, left, operator, right),
                    ).after(second.used),
                }
            } else {
                done(left, 0)
            }
        }),
{
    reveal(expression);
    reveal(assignment);
    reveal(operand);
    reveal(infix);
    reveal(infix_rest);
    reveal(unary);
    reveal(call);
    reveal(call_rest);
    reveal(finish_call);
    reveal(arguments);
    reveal(primary);
}

/// One step of `unary`.
pub proof fn unfold_unary(tokens: Seq<TokenView>, pos: int)
    ensures
        unary(tokens, pos) == ({
            if check(tokens, pos, TokenType::Bang) || check(tokens, pos, TokenType::Minus) {
                let operator = peek(tokens, pos);
                let right = unary(tokens, pos + 1).after(1);
                match right.result {
                    Err(_) => right,
                    Ok(inner) => done(ExprView::Unary(operator, Box::new(inner)), right.used),
                }
            } else {
                call(tokens, pos)
            }
        }),
{
    reveal(expression);
    reveal(assignment);
    reveal(operand);
    reveal(infix);
    reveal(infix_rest);
    reveal(unary);
    reveal(call);
    reveal(call_rest);
    reveal(finish_call);
    reveal(arguments);
    reveal(primary);
}

/// One step of `call`.
pub proof fn unfold_call(tokens: Seq<TokenView>, pos: int)
    ensures
        call(tokens, pos) == ({
            let first = primary(tokens, pos);
            match first.result {
                Err(_) => first,
                Ok(callee) => call_rest(tokens, pos + first.used, callee).after(first.used),
            }
        }),
{
    reveal(expression);
    reveal(assignment);
    reveal(operand);
    reveal(infix);
    reveal(infix_rest);
    reveal(unary);
    reveal(call);
    reveal(call_rest);
    reveal(finish_call);
    reveal(arguments);
    reveal(primary);
}

/// One step of `call_rest`.
pub proof fn unfold_call_rest(tokens: Seq<TokenView>, pos: int, callee: ExprView)
    ensures
        call_rest(tokens, pos, callee) == ({
            if check(tokens, pos, TokenType::LeftParen) {
                let one = finish_call(tokens, pos + 1, callee).after(1);
                match one.result {
                    Err(_) => one,
                    Ok(node) => call_rest(tokens, pos + one.used, node).after(one.used),
                }
            } else {
                done(callee, 0)
            }
        }),
{
    reveal(expression);
    reveal(assignment);
    reveal(operand);
    reveal(infix);
    reveal(infix_rest);
    reveal(unary);
    reveal(call);
    reveal(call_rest);
    reveal(finish_call);
    reveal(arguments);
    reveal(primary);
}

/// One step of `finish_call`.
pub proof fn unfold_finish_call(tokens: Seq<TokenView>, pos: int, callee: ExprView)
    ensures
        finish_call(tokens, pos, callee) == ({
            let list = if check(tokens, pos, TokenType::RightParen) {
                done(Seq::empty(), 0)
            } else {
                arguments(tokens, pos, 0)
            };
            match list.result {
                Err(error) => failed(error, list.used),
                Ok(items) => {
                    let paren = consume(
                        tokens,
                        pos + list.used,
                        TokenType::RightParen,
                        "Expect ')' after arguments"@,
                    ).after(list.used);
                    match paren.result {
                        Err(error) => failed(error, paren.used),
                        Ok(token) => done(ExprView::Call(Box::new(callee), token, items), paren.used),
                    }
                },
            }
        }),
{
    reveal(expression);
    reveal(assignment);
    reveal(operand);
    reveal(infix);
    reveal(infix_rest);
    reveal(unary);
    reveal(call);
    reveal(call_rest);
    reveal(finish_call);
    reveal(arguments);
    reveal(primary);
}

/// One step of `arguments`.
pub proof fn unfold_arguments(tokens: Seq<TokenView>, pos: int, count: nat)
    ensures
        arguments(tokens, pos, count) == ({
            if count >= limit() {
                failed(
                    SyntaxErrorView { token: peek(tokens, pos), message: "Can't have more than 255 arguments."@ },
                    0,
                )
            } else {
                let first = expression(tokens, pos);
                match first.result {
                    Err(error) => failed(error, first.used),
                    Ok(item) => {
                        if check(tokens, pos + first.used, TokenType::Comma) {
                            let rest = arguments(tokens, pos + first.used + 1, count + 1).after(first.used + 1);
                            match rest.result {
                                Err(_) => rest,
                                Ok(items) => done(seq![item] + items, rest.used),
                            }
                        } else {
                            done(seq![item], first.used)
                        }
                    },
                }
            }
        }),
{
    reveal(expression);
    reveal(assignment);
    reveal(operand);
    reveal(infix);
    reveal(infix_rest);
    reveal(unary);
    reveal(call);
    reveal(call_rest);
    reveal(finish_call);
    reveal(arguments);
    reveal(primary);
}

/// One step of `primary`.
pub proof fn unfold_primary(tokens: Seq<TokenView>, pos: int)
    ensures
        primary(tokens, pos) == ({
            let token = peek(tokens, pos);
            if check(tokens, pos, TokenType::False) {
                done(ExprView::Literal(LiteralView::Bool(false)), 1)
            } else if check(tokens, pos, TokenType::True) {
                done(ExprView::Literal(LiteralView::Bool(true)), 1)
            } else if check(tokens, pos, TokenType::Nil) {
                done(ExprView::Literal(LiteralView::Null), 1)
            } else if (check(tokens, pos, TokenType::Number) || check(tokens, pos, TokenType::String))
                && token.literal is Some {
                done(ExprView::Literal(token.literal.unwrap()), 1)
            } else if check(tokens, pos, TokenType::LeftParen) {
                let inner = expression(tokens, pos + 1).after(1);
                match inner.result {
                    Err(_) => inner,
                    Ok(expr) => {
                        let paren = consume(
                            tokens,
                            pos + inner.used,
                            TokenType::RightParen,
                            "Expect ')' after expression"@,
                        ).after(inner.used);
                        match paren.result {
                            Err(error) => failed(error, paren.used),
                            Ok(_) => done(ExprView::Grouping(Box::new(expr)), paren.used),
                        }
                    },
                }
            } else if check(tokens, pos, TokenType::Identifier) {
                done(ExprView::Variable(token), 1)
            } else {
                failed(SyntaxErrorView { token, message: "Expect expression."@ }, 0)
            }
        }),
{
    reveal(expression);
    reveal(assignment);
    reveal(operand);
    reveal(infix);
    reveal(infix_rest);
    reveal(unary);
    reveal(call);
    reveal(call_rest);
    reveal(finish_call);
    reveal(arguments);
    reveal(primary);
}

/// One step of `declarations`.
pub proof fn unfold_declarations(tokens: Seq<TokenView>, pos: int, inside: bool)
    ensures
        declarations(tokens, pos, inside) == ({
            if at_end(tokens, pos) || (inside && kind(tokens, pos) == TokenType::RightBrace) {
                Listed { statements: Seq::empty(), used: 0, reports: Seq::empty() }
            } else {
                let one = declaration(tokens, pos);
                let used = if one.used == 0 {
                    1
                } else {
                    one.used
                };
                let rest = declarations(tokens, pos + used, inside);
                Listed {
                    statements: match one.statement {
                        Some(statement) => seq![statement] + rest.statements,
                        None => rest.statements,
                    },
                    used: used + rest.used,
                    reports: one.reports + rest.reports,
                }
            }
        }),
{
    reveal(declarations);
    reveal(declaration);
    reveal(construct);
    reveal(function);
    reveal(statement);
    reveal(if_statement);
    reveal(while_statement);
    reveal(block);
    reveal(for_statement);
}

/// One step of `declaration`.
pub proof fn unfold_declaration(tokens: Seq<TokenView>, pos: int)
    ensures
        declaration(tokens, pos) == ({
            let tried = construct(tokens, pos);
            match tried.result {
                Ok(statement) => Declared { statement: Some(statement), used: tried.used, reports: tried.reports },
                Err(error) => Declared {
                    statement: None,
                    used: tried.used + synchronized(tokens, pos + tried.used),
                    reports: tried.reports.push(error_line(error.token, error.message)),
                },
            }
        }),
{
    reveal(declarations);
    reveal(declaration);
    reveal(construct);
    reveal(function);
    reveal(statement);
    reveal(if_statement);
    reveal(while_statement);
    reveal(block);
    reveal(for_statement);
}

/// One step of `construct`.
pub proof fn unfold_construct(tokens: Seq<TokenView>, pos: int)
    ensures
        construct(tokens, pos) == ({
            if check(tokens, pos, TokenType::Fun) {
                function(tokens, pos + 1, "function"@).after(1, Seq::empty())
            } else if check(tokens, pos, TokenType::Var) {
                var_declaration(tokens, pos + 1).after(1).quiet()
            } else {
                statement(tokens, pos)
            }
        }),
{
    reveal(declarations);
    reveal(declaration);
    reveal(construct);
    reveal(function);
    reveal(statement);
    reveal(if_statement);
    reveal(while_statement);
    reveal(block);
    reveal(for_statement);
}

/// One step of `function`.
pub proof fn unfold_function(tokens: Seq<TokenView>, pos: int, kind: Seq<char>)
    ensures
        function(tokens, pos, kind) == ({
            let name = consume(tokens, pos, TokenType::Identifier, "Expect "@ + kind + " name."@);
            match name.result {
                Err(error) => refused(error, name.used, Seq::empty()),
                Ok(name_token) => {
                    let open = consume(
                        tokens,
                        pos + 1,
                        TokenType::LeftParen,
                        "Expect '(' after "@ + kind + " name."@,
                    ).after(1);
                    match open.result {
                        Err(error) => refused(error, open.used, Seq::empty()),
                        Ok(_) => {
                            let list = if check(tokens, pos + 2, TokenType::RightParen) {
                                done(Seq::empty(), 2)
                            } else {
                                parameters(tokens, pos + 2, 0).after(2)
                            };
                            match list.result {
                                Err(error) => refused(error, list.used, Seq::empty()),
                                Ok(names) => {
                                    let close = consume(
                                        tokens,
                                        pos + list.used,
                                        TokenType::RightParen,
                                        "Expect '(' after parameters."@,
                                    ).after(list.used);
                                    match close.result {
                                        Err(error) => refused(error, close.used, Seq::empty()),
                                        Ok(_) => {
                                            let brace = consume(
                                                tokens,
                                                pos + close.used,
                                                TokenType::LeftBrace,
                                                "Expect '{' before "@ + kind + " body."@,
                                            ).after(close.used);
                                            match brace.result {
                                                Err(error) => refused(error, brace.used, Seq::empty()),
                                                Ok(_) => {
                                                    let body = block(tokens, pos + brace.used).after(
                                                        brace.used,
                                                        Seq::empty(),
                                                    );
                                                    match body.result {
                                                        Err(error) => refused(error, body.used, body.reports),
                                                        Ok(statements) => stated(
                                                            StmtView::Function(name_token, names, statements),
                                                            body.used,
                                                            body.reports,
                                                        ),
                                                    }
                                                },
                                            }
                                        },
                                    }
                                },
                            }
                        },
                    }
                },
            }
        }),
{
    reveal(declarations);
    reveal(declaration);
    reveal(construct);
    reveal(function);
    reveal(statement);
    reveal(if_statement);
    reveal(while_statement);
    reveal(block);
    reveal(for_statement);
}

/// One step of `statement`.
pub proof fn unfold_statement(tokens: Seq<TokenView>, pos: int)
    ensures
        statement(tokens, pos) == ({
            if check(tokens, pos, TokenType::Print) {
                print_statement(tokens, pos + 1).after(1).quiet()
            } else if check(tokens, pos, TokenType::LeftBrace) {
                let body = block(tokens, pos + 1).after(1, Seq::empty());
                match body.result {
                    Err(error) => refused(error, body.used, body.reports),
                    Ok(statements) => stated(StmtView::Block(statements), body.used, body.reports),
                }
            } else if check(tokens, pos, TokenType::If) {
                if_statement(tokens, pos + 1).after(1, Seq::empty())
            } else if check(tokens, pos, TokenType::While) {
                while_statement(tokens, pos + 1).after(1, Seq::empty())
            } else if check(tokens, pos, TokenType::For) {
                for_statement(tokens, pos + 1).after(1, Seq::empty())
            } else if check(tokens, pos, TokenType::Return) {
                return_statement(tokens, pos + 1).after(1).quiet()
            } else {
                expression_statement(tokens, pos).quiet()
            }
        }),
{
    reveal(declarations);
    reveal(declaration);
    reveal(construct);
    reveal(function);
    reveal(statement);
    reveal(if_statement);
    reveal(while_statement);
    reveal(block);
    reveal(for_statement);
}

/// One step of `if_statement`.
pub proof fn unfold_if_statement(tokens: Seq<TokenView>, pos: int)
    ensures
        if_statement(tokens, pos) == ({
            let test = condition(tokens, pos, "Expect '(' after 'if'."@, "Expect ')' after 'if'."@);
            match test.result {
                Err(error) => refused(error, test.used, Seq::empty()),
                Ok(expr) => {
                    let then_branch = statement(tokens, pos + test.used).after(test.used, Seq::empty());
                    match then_branch.result {
                        Err(_) => then_branch,
                        Ok(first) => {
                            if check(tokens, pos + then_branch.used, TokenType::Else) {
                                let else_branch = statement(tokens, pos + then_branch.used + 1).after(
                                    then_branch.used + 1,
                                    then_branch.reports,
                                );
                                match else_branch.result {
                                    Err(_) => else_branch,
                                    Ok(second) => stated(
                                        StmtView::If(expr, Box::new(first), Some(Box::new(second))),
                                        else_branch.used,
                                        else_branch.reports,
                                    ),
                                }
                            } else {
                                stated(
                                    StmtView::If(expr, Box::new(first), None),
                                    then_branch.used,
                                    then_branch.reports,
                                )
                            }
                        },
                    }
                },
            }
        }),
{
    reveal(declarations);
    reveal(declaration);
    reveal(construct);
    reveal(function);
    reveal(statement);
    reveal(if_statement);
    reveal(while_statement);
    reveal(block);
    reveal(for_statement);
}

/// One step of `while_statement`.
pub proof fn unfold_while_statement(tokens: Seq<TokenView>, pos: int)
    ensures
        while_statement(tokens, pos) == ({
            let test = condition(tokens, pos, "Expect '(' before 'while'"@, "Expect ')' after 'conditon'"@);
            match test.result {
                Err(error) => refused(error, test.used, Seq::empty()),
                Ok(expr) => {
                    let body = statement(tokens, pos + test.used).after(test.used, Seq::empty());
                    match body.result {
                        Err(_) => body,
                        Ok(inner) => stated(StmtView::While(expr, Box::new(inner)), body.used, body.reports),
                    }
                },
            }
        }),
{
    reveal(declarations);
    reveal(declaration);
    reveal(construct);
    reveal(function);
    reveal(statement);
    reveal(if_statement);
    reveal(while_statement);
    reveal(block);
    reveal(for_statement);
}

/// One step of `block`.
pub proof fn unfold_block(tokens: Seq<TokenView>, pos: int)
    ensures
        block(tokens, pos) == ({
            let list = declarations(tokens, pos, true);
            let close = consume(tokens, pos + list.used, TokenType::RightBrace, "Expect '}' after block."@).after(
                list.used,
            );
            match close.result {
                Err(error) => refused(error, close.used, list.reports),
                Ok(_) => stated(list.statements, close.used, list.reports),
            }
        }),
{
    reveal(declarations);
    reveal(declaration);
    reveal(construct);
    reveal(function);
    reveal(statement);
    reveal(if_statement);
    reveal(while_statement);
    reveal(block);
    reveal(for_statement);
}

/// One step of `for_statement`.
pub proof fn unfold_for_statement(tokens: Seq<TokenView>, pos: int)
    ensures
        for_statement(tokens, pos) == ({
            let open = consume(tokens, pos, TokenType::LeftParen, "Expect '(' after 'for'."@);
            match open.result {
                Err(error) => refused(error, open.used, Seq::empty()),
                Ok(_) => {
                    let first = for_initializer(tokens, pos + 1).after(1);
                    match first.result {
                        Err(error) => refused(error, first.used, Seq::empty()),
                        Ok(initializer) => {
                            let second = clause(
                                tokens,
                                pos + first.used,
                                TokenType::Semicolon,
                                "Expect ';' after loop condition."@,
                            ).after(first.used);
                            match second.result {
                                Err(error) => refused(error, second.used, Seq::empty()),
                                Ok(test) => {
                                    let third = clause(
                                        tokens,
                                        pos + second.used,
                                        TokenType::RightParen,
                                        "Expected ')' after 'for'."@,
                                    ).after(second.used);
                                    match third.result {
                                        Err(error) => refused(error, third.used, Seq::empty()),
                                        Ok(increment) => {
                                            let body = statement(tokens, pos + third.used).after(
                                                third.used,
                                                Seq::empty(),
                                            );
                                            match body.result {
                                                Err(error) => refused(error, body.used, body.reports),
                                                Ok(inner) => stated(
                                                    desugared(initializer, test, increment, inner),
                                                    body.used,
                                                    body.reports,
                                                ),
                                            }
                                        },
                                    }
                                },
                            }
                        },
                    }
                },
            }
        }),
{
    reveal(declarations);
    reveal(declaration);
    reveal(construct);
    reveal(function);
    reveal(statement);
    reveal(if_statement);
    reveal(while_statement);
    reveal(block);
    reveal(for_statement);
}

} // verus!
