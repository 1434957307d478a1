//! What a parsed expression says about the tokens it was parsed from.
//!
//! The kinds of the tokens can be read back off an expression tree in order.
//! For every expression that the grammar accepts they are exactly the kinds
//! of the tokens that the parse took: no token is dropped, none is added,
//! and none changes its place.

use vstd::prelude::*;
use crate::expr::ExprView;
use crate::grammar::{
    Parsed, arguments, assignment, call, call_rest, check, expression, finish_call, infix,
    infix_rest, join, kind, operand, primary, unary,
};
use crate::literal::LiteralView;
use crate::productions::{
    unfold_arguments, unfold_assignment, unfold_call, unfold_call_rest, unfold_expression,
    unfold_finish_call, unfold_infix, unfold_infix_rest, unfold_operand, unfold_primary, unfold_unary,
};
use crate::scanner::{lemma_lex_advances, lex, remaining, scan_from};
use crate::token::TokenView;
use crate::token_type::TokenType;

verus! {

/// The kinds of a list of tokens.
pub open spec fn kinds(tokens: Seq<TokenView>) -> Seq<TokenType> {
    Seq::new(tokens.len(), |i: int| tokens[i].token_type)
}

/// The kind of the token that denotes a value.
pub open spec fn word(value: LiteralView) -> TokenType {
    match value {
        LiteralView::Bool(b) => if b {
            TokenType::True
        } else {
            TokenType::False
        },
        LiteralView::Null => TokenType::Nil,
        LiteralView::Number(_) => TokenType::Number,
        LiteralView::String(_) => TokenType::String,
        LiteralView::Callable(_) => TokenType::Identifier,
    }
}

/// The kinds of the tokens that spell an expression, in order.
pub open spec fn spelled(expression: ExprView) -> Seq<TokenType>
    decreases expression, 0nat,
{
    match expression {
        ExprView::Literal(value) => seq![word(value)],
        ExprView::Variable(name) => seq![name.token_type],
        ExprView::Grouping(inner) => seq![TokenType::LeftParen] + spelled(*inner) + seq![TokenType::RightParen],
        ExprView::Unary(operator, right) => seq![operator.token_type] + spelled(*right),
        ExprView::Binary(left, operator, right) => spelled(*left) + seq![operator.token_type] + spelled(*right),
        ExprView::Logical(left, operator, right) => spelled(*left) + seq![operator.token_type] + spelled(*right),
        ExprView::Assign(name, value) => seq![name.token_type, TokenType::Equal] + spelled(*value),
        ExprView::Call(callee, paren, arguments) => spelled(*callee) + seq![TokenType::LeftParen] + listed(
            arguments,
            0,
        ) + seq![paren.token_type],
    }
}

/// The kinds of the tokens that spell the expressions from `from` on, with
/// commas between them.
pub open spec fn listed(items: Seq<ExprView>, from: nat) -> Seq<TokenType>
    decreases items, items.len() - from,
{
    if from >= items.len() {
        Seq::empty()
    } else if from == items.len() - 1 {
        spelled(items[from as int])
    } else {
        spelled(items[from as int]) + seq![TokenType::Comma] + listed(items, from + 1)
    }
}

/// Every number token carries a number and every string token a string.
pub open spec fn faithful(tokens: Seq<TokenView>) -> bool {
    forall|i: int|
        0 <= i < tokens.len() ==> match (#[trigger] tokens[i]).token_type {
            TokenType::Number => tokens[i].literal is None || tokens[i].literal->Some_0 is Number,
            TokenType::String => tokens[i].literal is None || tokens[i].literal->Some_0 is String,
            _ => true,
        }
}

/// The tokens of a scan are faithful.
pub proof fn lemma_scan_faithful(source: Seq<char>, pos: int, line: usize)
    ensures
        faithful(scan_from(source, pos, line).tokens),
    decreases remaining(source.len(), pos),
{
    if 0 <= pos < source.len() {
        let step = lex(source, pos, line);
        lemma_lex_advances(source, pos, line);
        lemma_scan_faithful(source, pos + step.used, step.line);
        let rest = scan_from(source, pos + step.used, step.line).tokens;
        let all = scan_from(source, pos, line).tokens;
        assert forall|i: int| 0 <= i < all.len() implies match (#[trigger] all[i]).token_type {
            TokenType::Number => all[i].literal is None || all[i].literal->Some_0 is Number,
            TokenType::String => all[i].literal is None || all[i].literal->Some_0 is String,
            _ => true,
        } by {
            if step.token is Some {
                if i > 0 {
                    assert(all[i] == rest[i - 1]);
                }
            } else {
                assert(all[i] == rest[i]);
            }
        }
    }
}

/// The expressions of a list shifted by one are spelled alike.
proof fn lemma_listed_shift(first: ExprView, items: Seq<ExprView>, from: nat)
    ensures
        listed(seq![first] + items, from + 1) == listed(items, from),
    decreases items.len() - from,
{
    let all = seq![first] + items;
    if from < items.len() {
        assert(all[from as int + 1] == items[from as int]);
        if from < items.len() - 1 {
            lemma_listed_shift(first, items, from + 1);
        }
    }
}

/// What was parsed spells the tokens from `start` up to where the parse ended.
pub open spec fn spells(tokens: Seq<TokenView>, start: int, pos: int, parsed: Parsed<ExprView>) -> bool {
    match parsed.result {
        Ok(expression) => pos + parsed.used <= tokens.len() && spelled(expression) == kinds(tokens).subrange(
            start,
            pos + parsed.used,
        ),
        Err(_) => true,
    }
}

/// The kinds of the tokens from `from` up to `to` in two parts.
proof fn lemma_split(tokens: Seq<TokenView>, from: int, mid: int, to: int)
    requires
        0 <= from <= mid <= to <= tokens.len(),
    ensures
        kinds(tokens).subrange(from, mid) + kinds(tokens).subrange(mid, to) == kinds(tokens).subrange(from, to),
{
    assert(kinds(tokens).subrange(from, mid) + kinds(tokens).subrange(mid, to) =~= kinds(tokens).subrange(
        from,
        to,
    ));
}

/// The kind of one token as a part of the kinds of all.
proof fn lemma_one(tokens: Seq<TokenView>, pos: int)
    requires
        0 <= pos < tokens.len(),
    ensures
        kinds(tokens).subrange(pos, pos + 1) == seq![tokens[pos].token_type],
{
    assert(kinds(tokens).subrange(pos, pos + 1) =~= seq![tokens[pos].token_type]);
}

/// An expression spells the tokens that its parse took.
pub proof fn lemma_expression(tokens: Seq<TokenView>, pos: int)
    requires
        faithful(tokens),
        0 <= pos,
    ensures
        spells(tokens, pos, pos, expression(tokens, pos)),
    decreases remaining(tokens.len(), pos), 100nat,
{
    unfold_expression(tokens, pos);
    lemma_assignment(tokens, pos);
}

proof fn lemma_assignment(tokens: Seq<TokenView>, pos: int)
    requires
        faithful(tokens),
        0 <= pos,
    ensures
        spells(tokens, pos, pos, assignment(tokens, pos)),
    decreases remaining(tokens.len(), pos), 99nat,
{
    unfold_assignment(tokens, pos);
    lemma_infix(tokens, pos, 5);
    let left = infix(tokens, pos, 5);
    if left.result is Ok && check(tokens, pos + left.used, TokenType::Equal) {
        let at = pos + left.used;
        lemma_assignment(tokens, at + 1);
        let value = assignment(tokens, at + 1);
        if value.result is Ok {
            if let ExprView::Variable(name) = left.result->Ok_0 {
                lemma_one(tokens, at);
                lemma_split(tokens, pos, at, at + 1);
                lemma_split(tokens, pos, at + 1, at + 1 + value.used);
                assert(seq![name.token_type, TokenType::Equal] =~= seq![name.token_type] + seq![
                    TokenType::Equal,
                ]);
            }
        }
    }
}

proof fn lemma_operand(tokens: Seq<TokenView>, pos: int, level: nat)
    requires
        faithful(tokens),
        0 <= pos,
        level <= 5,
    ensures
        spells(tokens, pos, pos, operand(tokens, pos, level)),
    decreases remaining(tokens.len(), pos), 20 + 3 * level,
{
    unfold_operand(tokens, pos, level);
    if level == 0 {
        lemma_unary(tokens, pos);
    } else {
        lemma_infix(tokens, pos, (level - 1) as nat);
    }
}

proof fn lemma_infix(tokens: Seq<TokenView>, pos: int, level: nat)
    requires
        faithful(tokens),
        0 <= pos,
        level <= 5,
    ensures
        spells(tokens, pos, pos, infix(tokens, pos, level)),
    decreases remaining(tokens.len(), pos), 20 + 3 * level + 2,
{
    unfold_infix(tokens, pos, level);
    lemma_operand(tokens, pos, level);
    let first = operand(tokens, pos, level);
    if first.result is Ok {
        lemma_infix_rest(tokens, pos, pos + first.used, level, first.result->Ok_0);
    }
}

proof fn lemma_infix_rest(tokens: Seq<TokenView>, start: int, pos: int, level: nat, left: ExprView)
    requires
        faithful(tokens),
        0 <= start <= pos <= tokens.len(),
        level <= 5,
        spelled(left) == kinds(tokens).subrange(start, pos),
    ensures
        spells(tokens, start, pos, infix_rest(tokens, pos, level, left)),
    decreases remaining(tokens.len(), pos), 20 + 3 * level + 1,
{
    unfold_infix_rest(tokens, pos, level, left);
    if !crate::grammar::at_end(tokens, pos) && crate::grammar::operators(level, kind(tokens, pos)) {
        lemma_operand(tokens, pos + 1, level);
        let second = operand(tokens, pos + 1, level);
        if second.result is Ok {
            let right = second.result->Ok_0;
            let next = pos + 1 + second.used;
            lemma_one(tokens, pos);
            lemma_split(tokens, start, pos, pos + 1);
            lemma_split(tokens, start, pos + 1, next);
            lemma_infix_rest(tokens, start, next, level, join(level, left, tokens[pos], right));
        }
    }
}

proof fn lemma_unary(tokens: Seq<TokenView>, pos: int)
    requires
        faithful(tokens),
        0 <= pos,
    ensures
        spells(tokens, pos, pos, unary(tokens, pos)),
    decreases remaining(tokens.len(), pos), 10nat,
{
    unfold_unary(tokens, pos);
    if check(tokens, pos, TokenType::Bang) || check(tokens, pos, TokenType::Minus) {
        lemma_unary(tokens, pos + 1);
        let right = unary(tokens, pos + 1);
        if right.result is Ok {
            lemma_one(tokens, pos);
            lemma_split(tokens, pos, pos + 1, pos + 1 + right.used);
        }
    } else {
        lemma_call(tokens, pos);
    }
}

proof fn lemma_call(tokens: Seq<TokenView>, pos: int)
    requires
        faithful(tokens),
        0 <= pos,
    ensures
        spells(tokens, pos, pos, call(tokens, pos)),
    decreases remaining(tokens.len(), pos), 9nat,
{
    unfold_call(tokens, pos);
    lemma_primary(tokens, pos);
    let first = primary(tokens, pos);
    if first.result is Ok {
        lemma_call_rest(tokens, pos, pos + first.used, first.result->Ok_0);
    }
}

proof fn lemma_call_rest(tokens: Seq<TokenView>, start: int, pos: int, callee: ExprView)
    requires
        faithful(tokens),
        0 <= start <= pos <= tokens.len(),
        spelled(callee) == kinds(tokens).subrange(start, pos),
    ensures
        spells(tokens, start, pos, call_rest(tokens, pos, callee)),
    decreases remaining(tokens.len(), pos), 8nat,
{
    unfold_call_rest(tokens, pos, callee);
    if check(tokens, pos, TokenType::LeftParen) {
        lemma_one(tokens, pos);
        lemma_split(tokens, start, pos, pos + 1);
        lemma_finish_call(tokens, start, pos + 1, callee);
        let one = finish_call(tokens, pos + 1, callee);
        if one.result is Ok {
            lemma_call_rest(tokens, start, pos + 1 + one.used, one.result->Ok_0);
        }
    }
}

proof fn lemma_finish_call(tokens: Seq<TokenView>, start: int, pos: int, callee: ExprView)
    requires
        faithful(tokens),
        0 <= start < pos <= tokens.len(),
        spelled(callee) + seq![TokenType::LeftParen] == kinds(tokens).subrange(start, pos),
    ensures
        spells(tokens, start, pos, finish_call(tokens, pos, callee)),
    decreases remaining(tokens.len(), pos), 102nat,
{
    unfold_finish_call(tokens, pos, callee);
    if check(tokens, pos, TokenType::RightParen) {
        lemma_one(tokens, pos);
        lemma_split(tokens, start, pos, pos + 1);
        assert(listed(Seq::<ExprView>::empty(), 0) =~= Seq::empty());
        assert(spelled(callee) + seq![TokenType::LeftParen] + Seq::<TokenType>::empty() =~= spelled(callee)
            + seq![TokenType::LeftParen]);
    } else {
        lemma_arguments(tokens, pos, 0);
        let list = arguments(tokens, pos, 0);
        if list.result is Ok {
            let at = pos + list.used;
            if check(tokens, at, TokenType::RightParen) {
                lemma_one(tokens, at);
                lemma_split(tokens, start, pos, at);
                lemma_split(tokens, start, at, at + 1);
            }
        }
    }
}

proof fn lemma_arguments(tokens: Seq<TokenView>, pos: int, count: nat)
    requires
        faithful(tokens),
        0 <= pos,
    ensures
        match arguments(tokens, pos, count).result {
            Ok(items) => pos + arguments(tokens, pos, count).used <= tokens.len() && listed(items, 0) == kinds(
                tokens,
            ).subrange(pos, pos + arguments(tokens, pos, count).used),
            Err(_) => true,
        },
    decreases remaining(tokens.len(), pos), 101nat,
{
    unfold_arguments(tokens, pos, count);
    if count < crate::grammar::limit() {
        lemma_expression(tokens, pos);
        let first = expression(tokens, pos);
        if first.result is Ok {
            let item = first.result->Ok_0;
            let at = pos + first.used;
            if check(tokens, at, TokenType::Comma) {
                lemma_arguments(tokens, at + 1, count + 1);
                let rest = arguments(tokens, at + 1, count + 1);
                if rest.result is Ok {
                    let items = rest.result->Ok_0;
                    let all = seq![item] + items;
                    lemma_listed_shift(item, items, 0);
                    lemma_one(tokens, at);
                    lemma_split(tokens, pos, at, at + 1);
                    lemma_split(tokens, pos, at + 1, at + 1 + rest.used);
                    assert(all[0] == item);
                    if items.len() == 0 {
                        assert(listed(items, 0) =~= Seq::empty());
                        lemma_expression_takes(tokens, at + 1);
                    }
                }
            } else {
                assert(seq![item][0] == item);
            }
        }
    }
}

/// Where the arguments of a call are parsed, there is at least one.
proof fn lemma_expression_takes(tokens: Seq<TokenView>, pos: int)
    ensures
        forall|count: nat|
            (#[trigger] arguments(tokens, pos, count)).result is Ok ==> arguments(
                tokens,
                pos,
                count,
            ).result->Ok_0.len() > 0,
{
    assert forall|count: nat| (#[trigger] arguments(tokens, pos, count)).result is Ok implies arguments(
        tokens,
        pos,
        count,
    ).result->Ok_0.len() > 0 by {
        unfold_arguments(tokens, pos, count);
    }
}

proof fn lemma_primary(tokens: Seq<TokenView>, pos: int)
    requires
        faithful(tokens),
        0 <= pos,
    ensures
        spells(tokens, pos, pos, primary(tokens, pos)),
    decreases remaining(tokens.len(), pos), 1nat,
{
    unfold_primary(tokens, pos);
    if primary(tokens, pos).result is Ok {
        lemma_one(tokens, pos);
        if check(tokens, pos, TokenType::LeftParen) {
            lemma_expression(tokens, pos + 1);
            let inner = expression(tokens, pos + 1);
            if inner.result is Ok {
                let at = pos + 1 + inner.used;
                if check(tokens, at, TokenType::RightParen) {
                    lemma_one(tokens, at);
                    lemma_split(tokens, pos, pos + 1, at);
                    lemma_split(tokens, pos, at, at + 1);
                }
            }
        }
    }
}

} // verus!
