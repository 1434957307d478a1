use vstd::prelude::*;
use crate::expr::{Expr, ExprView};
use crate::grammar;
use crate::productions;
use crate::literal::Literal;
use crate::parser::{Parser, SyntaxError, behind, moved, outcome, outcomes, ready};
use crate::scanner::remaining;
use crate::token::views;
use crate::token_type::TokenType;

verus! {

impl Parser {
    /// Parses an expression.
    pub(crate) fn expression(&mut self) -> (result: Result<Expr, SyntaxError>)
        requires
            ready(old(self)@),
        ensures
            ready(final(self)@),
            final(self)@ == moved(old(self)@, grammar::expression(old(self)@.tokens, old(self)@.current).used),
            outcome(result) == grammar::expression(old(self)@.tokens, old(self)@.current).result,
        decreases remaining(old(self)@.tokens.len(), old(self)@.current), 100nat,
    {
        proof {
            productions::unfold_expression(self@.tokens, self@.current);
        }
        self.assignment()
    }

    fn assignment(&mut self) -> (result: Result<Expr, SyntaxError>)
        requires
            ready(old(self)@),
        ensures
            ready(final(self)@),
            final(self)@ == moved(old(self)@, grammar::assignment(old(self)@.tokens, old(self)@.current).used),
            outcome(result) == grammar::assignment(old(self)@.tokens, old(self)@.current).result,
        decreases remaining(old(self)@.tokens.len(), old(self)@.current), 99nat,
    {
        proof {
            productions::unfold_assignment(self@.tokens, self@.current);
        }
        let expr = match self.or() {
            Ok(expr) => expr,
            Err(error) => {
                return Err(error);
            },
        };
        if self.match_token(TokenType::Equal) {
            let equals = self.previous().clone();
            let value = match self.assignment() {
                Ok(value) => value,
                Err(error) => {
                    return Err(error);
                },
            };
            match expr {
                Expr::Variable(name) => Ok(Expr::Assign(name, Box::new(value))),
                _ => Err(Self::error(&equals, "Invalid assignment target.")),
            }
        } else {
            Ok(expr)
        }
    }

    fn or(&mut self) -> (result: Result<Expr, SyntaxError>)
        requires
            ready(old(self)@),
        ensures
            ready(final(self)@),
            final(self)@ == moved(old(self)@, grammar::infix(old(self)@.tokens, old(self)@.current, 5).used),
            outcome(result) == grammar::infix(old(self)@.tokens, old(self)@.current, 5).result,
        decreases remaining(old(self)@.tokens.len(), old(self)@.current), 38nat,
    {
        self.infix(5)
    }

    fn and(&mut self) -> (result: Result<Expr, SyntaxError>)
        requires
            ready(old(self)@),
        ensures
            ready(final(self)@),
            final(self)@ == moved(old(self)@, grammar::infix(old(self)@.tokens, old(self)@.current, 4).used),
            outcome(result) == grammar::infix(old(self)@.tokens, old(self)@.current, 4).result,
        decreases remaining(old(self)@.tokens.len(), old(self)@.current), 38nat,
    {
        self.infix(4)
    }

    fn equality(&mut self) -> (result: Result<Expr, SyntaxError>)
        requires
            ready(old(self)@),
        ensures
            ready(final(self)@),
            final(self)@ == moved(old(self)@, grammar::infix(old(self)@.tokens, old(self)@.current, 3).used),
            outcome(result) == grammar::infix(old(self)@.tokens, old(self)@.current, 3).result,
        decreases remaining(old(self)@.tokens.len(), old(self)@.current), 38nat,
    {
        self.infix(3)
    }

    fn comparison(&mut self) -> (result: Result<Expr, SyntaxError>)
        requires
            ready(old(self)@),
        ensures
            ready(final(self)@),
            final(self)@ == moved(old(self)@, grammar::infix(old(self)@.tokens, old(self)@.current, 2).used),
            outcome(result) == grammar::infix(old(self)@.tokens, old(self)@.current, 2).result,
        decreases remaining(old(self)@.tokens.len(), old(self)@.current), 38nat,
    {
        self.infix(2)
    }

    fn term(&mut self) -> (result: Result<Expr, SyntaxError>)
        requires
            ready(old(self)@),
        ensures
            ready(final(self)@),
            final(self)@ == moved(old(self)@, grammar::infix(old(self)@.tokens, old(self)@.current, 1).used),
            outcome(result) == grammar::infix(old(self)@.tokens, old(self)@.current, 1).result,
        decreases remaining(old(self)@.tokens.len(), old(self)@.current), 38nat,
    {
        self.infix(1)
    }

    fn factor(&mut self) -> (result: Result<Expr, SyntaxError>)
        requires
            ready(old(self)@),
        ensures
            ready(final(self)@),
            final(self)@ == moved(old(self)@, grammar::infix(old(self)@.tokens, old(self)@.current, 0).used),
            outcome(result) == grammar::infix(old(self)@.tokens, old(self)@.current, 0).result,
        decreases remaining(old(self)@.tokens.len(), old(self)@.current), 38nat,
    {
        self.infix(0)
    }

    /// Whether a token of kind `operator` is a binary operator of `level`.
    fn is_operator(level: usize, operator: TokenType) -> (b: bool)
        ensures
            b == grammar::operators(level as nat, operator),
    {
        match level {
            0 => operator == TokenType::Slash || operator == TokenType::Star,
            1 => operator == TokenType::Minus || operator == TokenType::Plus,
            2 => operator == TokenType::Greater || operator == TokenType::GreaterEqual || operator
                == TokenType::Less || operator == TokenType::LessEqual,
            3 => operator == TokenType::BangEqual || operator == TokenType::EqualEqual,
            4 => operator == TokenType::And,
            5 => operator == TokenType::Or,
            _ => false,
        }
    }

    /// The operand of a binary operator of `level`.
    fn operand(&mut self, level: usize) -> (result: Result<Expr, SyntaxError>)
        requires
            ready(old(self)@),
            level <= 5,
        ensures
            ready(final(self)@),
            final(self)@ == moved(
                old(self)@,
                grammar::operand(old(self)@.tokens, old(self)@.current, level as nat).used,
            ),
            outcome(result) == grammar::operand(old(self)@.tokens, old(self)@.current, level as nat).result,
        decreases remaining(old(self)@.tokens.len(), old(self)@.current), 20 + 3 * level,
    {
        proof {
            productions::unfold_operand(self@.tokens, self@.current, level as nat);
        }
        if level == 0 {
            self.unary()
        } else {
            self.infix(level - 1)
        }
    }

    /// A chain of binary operators of `level`, grouped from the left.
    fn infix(&mut self, level: usize) -> (result: Result<Expr, SyntaxError>)
        requires
            ready(old(self)@),
            level <= 5,
        ensures
            ready(final(self)@),
            final(self)@ == moved(old(self)@, grammar::infix(old(self)@.tokens, old(self)@.current, level as nat).used),
            outcome(result) == grammar::infix(old(self)@.tokens, old(self)@.current, level as nat).result,
        decreases remaining(old(self)@.tokens.len(), old(self)@.current), 20 + 3 * level + 2,
    {
        proof {
            productions::unfold_infix(self@.tokens, self@.current, level as nat);
        }
        let ghost tokens = self@.tokens;
        let ghost start = self@.current;
        let mut expr = match self.operand(level) {
            Ok(expr) => expr,
            Err(error) => {
                return Err(error);
            },
        };
        loop
            invariant
                ready(self@),
                level <= 5,
                tokens == old(self)@.tokens,
                start == old(self)@.current,
                self@ == moved(old(self)@, (self@.current - start) as nat),
                start <= self@.current,
                grammar::infix(tokens, start, level as nat) == grammar::infix_rest(
                    tokens,
                    self@.current,
                    level as nat,
                    expr@,
                ).after((self@.current - start) as nat),
            decreases remaining(self@.tokens.len(), self@.current),
        {
            proof {
                productions::unfold_infix_rest(self@.tokens, self@.current, level as nat, expr@);
            }
            if self.is_at_end() || !Self::is_operator(level, self.peek().token_type) {
                return Ok(expr);
            }
            self.advance();
            let operator = self.previous().clone();
            let right = match self.operand(level) {
                Ok(right) => right,
                Err(error) => {
                    return Err(error);
                },
            };
            expr = if level >= 4 {
                Expr::Logical(Box::new(expr), operator, Box::new(right))
            } else {
                Expr::Binary(Box::new(expr), operator, Box::new(right))
            };
        }
    }

    fn unary(&mut self) -> (result: Result<Expr, SyntaxError>)
        requires
            ready(old(self)@),
        ensures
            ready(final(self)@),
            final(self)@ == moved(old(self)@, grammar::unary(old(self)@.tokens, old(self)@.current).used),
            outcome(result) == grammar::unary(old(self)@.tokens, old(self)@.current).result,
        decreases remaining(old(self)@.tokens.len(), old(self)@.current), 10nat,
    {
        proof {
            productions::unfold_unary(self@.tokens, self@.current);
        }
        if self.match_tokens(vec![TokenType::Bang, TokenType::Minus]) {
            let operator = self.previous().clone();
            match self.unary() {
                Ok(right) => Ok(Expr::Unary(operator, Box::new(right))),
                Err(error) => Err(error),
            }
        } else {
            self.call()
        }
    }

    fn call(&mut self) -> (result: Result<Expr, SyntaxError>)
        requires
            ready(old(self)@),
        ensures
            ready(final(self)@),
            final(self)@ == moved(old(self)@, grammar::call(old(self)@.tokens, old(self)@.current).used),
            outcome(result) == grammar::call(old(self)@.tokens, old(self)@.current).result,
        decreases remaining(old(self)@.tokens.len(), old(self)@.current), 9nat,
    {
        proof {
            productions::unfold_call(self@.tokens, self@.current);
        }
        let ghost tokens = self@.tokens;
        let ghost start = self@.current;
        let mut expr = match self.primary() {
            Ok(expr) => expr,
            Err(error) => {
                return Err(error);
            },
        };
        loop
            invariant
                ready(self@),
                tokens == old(self)@.tokens,
                start == old(self)@.current,
                self@ == moved(old(self)@, (self@.current - start) as nat),
                start <= self@.current,
                grammar::call(tokens, start) == grammar::call_rest(tokens, self@.current, expr@).after(
                    (self@.current - start) as nat,
                ),
            decreases remaining(self@.tokens.len(), self@.current),
        {
            proof {
                productions::unfold_call_rest(self@.tokens, self@.current, expr@);
            }
            if self.match_token(TokenType::LeftParen) {
                expr = match self.finish_call(expr) {
                    Ok(expr) => expr,
                    Err(error) => {
                        return Err(error);
                    },
                };
            } else {
                return Ok(expr);
            }
        }
    }

    fn finish_call(&mut self, callee: Expr) -> (result: Result<Expr, SyntaxError>)
        requires
            ready(old(self)@),
        ensures
            ready(final(self)@),
            final(self)@ == moved(
                old(self)@,
                grammar::finish_call(old(self)@.tokens, old(self)@.current, callee@).used,
            ),
            outcome(result) == grammar::finish_call(old(self)@.tokens, old(self)@.current, callee@).result,
        decreases remaining(old(self)@.tokens.len(), old(self)@.current), 102nat,
    {
        proof {
            productions::unfold_finish_call(self@.tokens, self@.current, callee@);
        }
        let arguments = if self.check(TokenType::RightParen) {
            let arguments: Vec<Expr> = Vec::new();
            assert(views(arguments@) =~= Seq::empty());
            arguments
        } else {
            match self.arguments() {
                Ok(arguments) => arguments,
                Err(error) => {
                    return Err(error);
                },
            }
        };
        let paren = match self.consume(TokenType::RightParen, "Expect ')' after arguments") {
            Ok(paren) => paren,
            Err(error) => {
                return Err(error);
            },
        };
        let callee = Box::new(callee);
        proof {
            Expr::lemma_call(callee, paren, arguments);
        }
        Ok(Expr::Call(callee, paren, arguments))
    }

    /// The arguments of a call, of which there is at least one.
    fn arguments(&mut self) -> (result: Result<Vec<Expr>, SyntaxError>)
        requires
            ready(old(self)@),
        ensures
            ready(final(self)@),
            final(self)@ == moved(old(self)@, grammar::arguments(old(self)@.tokens, old(self)@.current, 0).used),
            outcomes(result) == grammar::arguments(old(self)@.tokens, old(self)@.current, 0).result,
        decreases remaining(old(self)@.tokens.len(), old(self)@.current), 101nat,
    {
        let ghost tokens = self@.tokens;
        let ghost start = self@.current;
        let mut arguments: Vec<Expr> = Vec::new();
        assert(views(arguments@) =~= Seq::empty());
        assert(behind(Seq::<ExprView>::empty(), grammar::arguments(tokens, start, 0)) == grammar::arguments(tokens, start, 0)) by {
            let all = grammar::arguments(tokens, start, 0);
            if all.result is Ok {
                assert(Seq::<ExprView>::empty() + all.result->Ok_0 =~= all.result->Ok_0);
            }
        }
        loop
            invariant
                ready(self@),
                tokens == old(self)@.tokens,
                start == old(self)@.current,
                self@ == moved(old(self)@, (self@.current - start) as nat),
                start <= self@.current,
                arguments.len() == 0 ==> self@.current == start,
                arguments.len() > 0 ==> self@.current > start,
                grammar::arguments(tokens, start, 0) == behind(
                    views(arguments@),
                    grammar::arguments(tokens, self@.current, arguments.len() as nat),
                ).after((self@.current - start) as nat),
            decreases remaining(self@.tokens.len(), self@.current),
        {
            proof {
                productions::unfold_arguments(self@.tokens, self@.current, arguments.len() as nat);
            }
            if arguments.len() >= 255 {
                return Err(Self::error(self.peek(), "Can't have more than 255 arguments."));
            }
            let ghost before = views(arguments@);
            let ghost here = self@.current;
            let argument = match self.expression() {
                Ok(argument) => argument,
                Err(error) => {
                    return Err(error);
                },
            };
            arguments.push(argument);
            proof {
                assert(views(arguments@) =~= before + seq![argument@]);
            }
            if !self.match_token(TokenType::Comma) {
                return Ok(arguments);
            }
            proof {
                let rest = grammar::arguments(tokens, self@.current, arguments.len() as nat);
                if rest.result is Ok {
                    assert((before + seq![argument@]) + rest.result->Ok_0 =~= before + (seq![argument@]
                        + rest.result->Ok_0));
                }
            }
        }
    }

    fn primary(&mut self) -> (result: Result<Expr, SyntaxError>)
        requires
            ready(old(self)@),
        ensures
            ready(final(self)@),
            final(self)@ == moved(old(self)@, grammar::primary(old(self)@.tokens, old(self)@.current).used),
            outcome(result) == grammar::primary(old(self)@.tokens, old(self)@.current).result,
        decreases remaining(old(self)@.tokens.len(), old(self)@.current), 1nat,
    {
        proof {
            productions::unfold_primary(self@.tokens, self@.current);
        }
        if self.match_token(TokenType::False) {
            return Ok(Expr::Literal(Literal::Bool(false)));
        }
        if self.match_token(TokenType::True) {
            return Ok(Expr::Literal(Literal::Bool(true)));
        }
        if self.match_token(TokenType::Nil) {
            return Ok(Expr::Literal(Literal::Null));
        }
        if (self.check(TokenType::Number) || self.check(TokenType::String)) && self.peek().literal.is_some() {
            let value = match &self.peek().literal {
                Some(value) => value.clone(),
                None => Literal::Null,
            };
            self.advance();
            return Ok(Expr::Literal(value));
        }
        if self.match_token(TokenType::LeftParen) {
            let expr = match self.expression() {
                Ok(expr) => expr,
                Err(error) => {
                    return Err(error);
                },
            };
            match self.consume(TokenType::RightParen, "Expect ')' after expression") {
                Ok(_) => {},
                Err(error) => {
                    return Err(error);
                },
            }
            return Ok(Expr::Grouping(Box::new(expr)));
        }
        if self.match_token(TokenType::Identifier) {
            return Ok(Expr::Variable(self.previous().clone()));
        }
        Err(Self::error(self.peek(), "Expect expression."))
    }
}

} // verus!
