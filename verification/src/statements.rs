use vstd::prelude::*;
use vstd::string::StringExecFns;
use crate::error::error_line;
use crate::expr::Expr;
use crate::grammar;
use crate::productions;
use crate::literal::Literal;
use crate::parser::{Parser, ParserView, SyntaxError, advanced, behind, moved, optional, outcome, outcomes, ready};
use crate::scanner::remaining;
use crate::stmt::{Stmt, StmtView, models};
use crate::token::{Token, TokenView, views};
use crate::token_type::TokenType;

verus! {

/// A step that reports nothing leaves the reports and the failure mark alone.
pub proof fn lemma_quiet(before: ParserView, used: nat)
    ensures
        advanced(before, used, Seq::empty()) == moved(before, used),
{
    assert(before.reports + Seq::<Seq<char>>::empty() =~= before.reports);
}

/// Two steps in a row are one step over both.
pub proof fn lemma_advanced_twice(
    before: ParserView,
    first: nat,
    earlier: Seq<Seq<char>>,
    second: nat,
    later: Seq<Seq<char>>,
)
    ensures
        advanced(advanced(before, first, earlier), second, later) == advanced(
            before,
            first + second,
            earlier + later,
        ),
{
    assert((before.reports + earlier) + later =~= before.reports + (earlier + later));
}

/// The result of parsing a block as a mathematical value.
pub open spec fn listed(result: Result<Vec<Stmt>, SyntaxError>) -> Result<
    Seq<StmtView>,
    grammar::SyntaxErrorView,
> {
    match result {
        Ok(statements) => Ok(models(statements@)),
        Err(error) => Err(error@),
    }
}

/// A statement that may be absent as a mathematical value.
pub open spec fn found(statement: Option<Stmt>) -> Option<StmtView> {
    match statement {
        Some(statement) => Some(statement@),
        None => None,
    }
}

/// Writes a `for` statement out as a `while` loop.
pub fn desugar(initializer: Option<Stmt>, condition: Option<Expr>, increment: Option<Expr>, body: Stmt) -> (loop_: Stmt)
    ensures
        loop_@ == grammar::desugared(found(initializer), match condition {
            Some(test) => Some(test@),
            None => None,
        }, match increment {
            Some(step) => Some(step@),
            None => None,
        }, body@),
{
    let inner = match increment {
        Some(step) => {
            let step = Stmt::Expr(step);
            let parts = vec![body, step];
            proof {
                Stmt::lemma_block(parts);
                assert(models(parts@) =~= seq![body@, step@]);
            }
            Stmt::Block(parts)
        },
        None => body,
    };
    let test = match condition {
        Some(test) => test,
        None => Expr::Literal(Literal::Bool(true)),
    };
    let repeat = Stmt::While(test, Box::new(inner));
    match initializer {
        Some(first) => {
            let parts = vec![first, repeat];
            proof {
                Stmt::lemma_block(parts);
                assert(models(parts@) =~= seq![first@, repeat@]);
            }
            Stmt::Block(parts)
        },
        None => repeat,
    }
}

impl Parser {
    /// Parses what is left of the tokens: declaration after declaration up to
    /// the end token. A declaration that fails is reported and left out, and
    /// parsing goes on behind it.
    pub fn parse(&mut self) -> (statements: Vec<Stmt>)
        requires
            ready(old(self)@),
        ensures
            ready(final(self)@),
            final(self)@ == advanced(
                old(self)@,
                grammar::program(old(self)@.tokens, old(self)@.current).used,
                grammar::program(old(self)@.tokens, old(self)@.current).reports,
            ),
            models(statements@) == grammar::program(old(self)@.tokens, old(self)@.current).statements,
    {
        self.declarations(false)
    }

    /// A run of declarations: up to the end token, and inside a block up to
    /// its closing brace.
    fn declarations(&mut self, inside: bool) -> (statements: Vec<Stmt>)
        requires
            ready(old(self)@),
        ensures
            ready(final(self)@),
            final(self)@ == advanced(
                old(self)@,
                grammar::declarations(old(self)@.tokens, old(self)@.current, inside).used,
                grammar::declarations(old(self)@.tokens, old(self)@.current, inside).reports,
            ),
            models(statements@) == grammar::declarations(
                old(self)@.tokens,
                old(self)@.current,
                inside,
            ).statements,
        decreases remaining(old(self)@.tokens.len(), old(self)@.current), 200nat,
    {
        let ghost tokens = self@.tokens;
        let ghost start = self@.current;
        let ghost all = grammar::declarations(tokens, start, inside);
        let ghost mut used: nat = 0;
        let ghost mut reports: Seq<Seq<char>> = Seq::empty();
        let mut statements: Vec<Stmt> = Vec::new();
        proof {
            lemma_quiet(self@, 0);
            assert(models(statements@) =~= Seq::empty());
            assert(Seq::<StmtView>::empty() + all.statements =~= all.statements);
            assert(Seq::<Seq<char>>::empty() + all.reports =~= all.reports);
        }
        loop
            invariant
                ready(self@),
                tokens == old(self)@.tokens,
                start == old(self)@.current,
                all == grammar::declarations(tokens, start, inside),
                self@ == advanced(old(self)@, used, reports),
                self@.current == start + used,
                all.statements == models(statements@) + grammar::declarations(
                    tokens,
                    self@.current,
                    inside,
                ).statements,
                all.used == used + grammar::declarations(tokens, self@.current, inside).used,
                all.reports == reports + grammar::declarations(tokens, self@.current, inside).reports,
            decreases remaining(self@.tokens.len(), self@.current),
        {
            proof {
                productions::unfold_declarations(tokens, self@.current, inside);
            }
            if self.is_at_end() || (inside && self.check(TokenType::RightBrace)) {
                proof {
                    assert(models(statements@) + Seq::<StmtView>::empty() =~= models(statements@));
                    assert(reports + Seq::<Seq<char>>::empty() =~= reports);
                }
                return statements;
            }
            let ghost here = self@.current;
            let ghost before = models(statements@);
            let ghost one = grammar::declaration(tokens, here);
            let ghost rest = grammar::declarations(tokens, here + one.used, inside);
            match self.declaration() {
                Some(statement) => {
                    statements.push(statement);
                    proof {
                        assert(models(statements@) =~= before.push(statement@));
                        assert(before.push(statement@) + rest.statements =~= before + (seq![statement@]
                            + rest.statements));
                    }
                },
                None => {},
            }
            proof {
                lemma_advanced_twice(old(self)@, used, reports, one.used, one.reports);
                assert((reports + one.reports) + rest.reports =~= reports + (one.reports + rest.reports));
                used = used + one.used;
                reports = reports + one.reports;
            }
        }
    }

    /// Drops tokens up to the next place where a statement may begin.
    fn synchronize(&mut self)
        requires
            ready(old(self)@),
        ensures
            ready(final(self)@),
            final(self)@ == moved(old(self)@, grammar::synchronized(old(self)@.tokens, old(self)@.current)),
    {
        if self.is_at_end() {
            return ;
        }
        self.advance();
        let ghost first = self@.current;
        loop
            invariant
                ready(self@),
                first == old(self)@.current + 1,
                first <= self@.current,
                !grammar::at_end(old(self)@.tokens, old(self)@.current),
                self@.tokens == old(self)@.tokens,
                self@ == moved(old(self)@, (self@.current - old(self)@.current) as nat),
                self@.current - first + grammar::skipped(self@.tokens, self@.current) == grammar::skipped(
                    self@.tokens,
                    first,
                ),
            decreases remaining(self@.tokens.len(), self@.current),
        {
            if self.is_at_end() {
                return ;
            }
            if self.previous().token_type == TokenType::Semicolon {
                return ;
            }
            match self.peek().token_type {
                TokenType::Class
                | TokenType::Fun
                | TokenType::Var
                | TokenType::For
                | TokenType::If
                | TokenType::While
                | TokenType::Print
                | TokenType::Return => {
                    return ;
                },
                _ => {},
            }
            self.advance();
        }
    }

    /// A declaration, with recovery: a failure is reported, tokens are dropped
    /// up to the next statement, and there is no statement.
    fn declaration(&mut self) -> (statement: Option<Stmt>)
        requires
            ready(old(self)@),
        ensures
            ready(final(self)@),
            final(self)@ == advanced(
                old(self)@,
                grammar::declaration(old(self)@.tokens, old(self)@.current).used,
                grammar::declaration(old(self)@.tokens, old(self)@.current).reports,
            ),
            found(statement) == grammar::declaration(old(self)@.tokens, old(self)@.current).statement,
            !grammar::at_end(old(self)@.tokens, old(self)@.current) ==> grammar::declaration(
                old(self)@.tokens,
                old(self)@.current,
            ).used >= 1,
        decreases remaining(old(self)@.tokens.len(), old(self)@.current), 199nat,
    {
        proof {
            productions::unfold_declaration(self@.tokens, self@.current);
        }
        let ghost tried = grammar::construct(self@.tokens, self@.current);
        match self.construct() {
            Ok(statement) => Some(statement),
            Err(error) => {
                let ghost middle = self@;
                self.report(&error);
                self.synchronize();
                proof {
                    assert(self@.reports =~= old(self)@.reports + tried.reports.push(
                        error_line(error.token@, error.message@),
                    ));
                }
                None
            },
        }
    }

    /// A declaration without recovery.
    fn construct(&mut self) -> (result: Result<Stmt, SyntaxError>)
        requires
            ready(old(self)@),
        ensures
            ready(final(self)@),
            final(self)@ == advanced(
                old(self)@,
                grammar::construct(old(self)@.tokens, old(self)@.current).used,
                grammar::construct(old(self)@.tokens, old(self)@.current).reports,
            ),
            outcome(result) == grammar::construct(old(self)@.tokens, old(self)@.current).result,
            result is Ok ==> grammar::construct(old(self)@.tokens, old(self)@.current).used >= 1,
        decreases remaining(old(self)@.tokens.len(), old(self)@.current), 198nat,
    {
        proof {
            productions::unfold_construct(self@.tokens, self@.current);
            lemma_quiet(old(self)@, grammar::construct(self@.tokens, self@.current).used);
        }
        if self.match_token(TokenType::Fun) {
            let ghost middle = self@;
            let result = self.function("function");
            proof {
                let inner = grammar::function(middle.tokens, middle.current, "function"@);
                lemma_quiet(old(self)@, 1);
                lemma_advanced_twice(old(self)@, 1, Seq::empty(), inner.used, inner.reports);
                assert(Seq::<Seq<char>>::empty() + inner.reports =~= inner.reports);
            }
            return result;
        }
        if self.match_token(TokenType::Var) {
            return self.var_declaration();
        }
        self.statement()
    }

    fn function(&mut self, kind: &str) -> (result: Result<Stmt, SyntaxError>)
        requires
            ready(old(self)@),
        ensures
            ready(final(self)@),
            final(self)@ == advanced(
                old(self)@,
                grammar::function(old(self)@.tokens, old(self)@.current, kind@).used,
                grammar::function(old(self)@.tokens, old(self)@.current, kind@).reports,
            ),
            outcome(result) == grammar::function(old(self)@.tokens, old(self)@.current, kind@).result,
        decreases remaining(old(self)@.tokens.len(), old(self)@.current), 197nat,
    {
        proof {
            productions::unfold_function(self@.tokens, self@.current, kind@);
            lemma_quiet(old(self)@, grammar::function(self@.tokens, self@.current, kind@).used);
        }
        let mut expect_name = String::from_str("Expect ");
        expect_name.append(kind);
        expect_name.append(" name.");
        let name = match self.consume(TokenType::Identifier, expect_name.as_str()) {
            Ok(name) => name,
            Err(error) => {
                return Err(error);
            },
        };
        let mut expect_open = String::from_str("Expect '(' after ");
        expect_open.append(kind);
        expect_open.append(" name.");
        match self.consume(TokenType::LeftParen, expect_open.as_str()) {
            Ok(_) => {},
            Err(error) => {
                return Err(error);
            },
        }
        let parameters = if self.check(TokenType::RightParen) {
            let parameters: Vec<Token> = Vec::new();
            assert(views(parameters@) =~= Seq::empty());
            parameters
        } else {
            match self.parameters() {
                Ok(parameters) => parameters,
                Err(error) => {
                    return Err(error);
                },
            }
        };
        match self.consume(TokenType::RightParen, "Expect '(' after parameters.") {
            Ok(_) => {},
            Err(error) => {
                return Err(error);
            },
        }
        let mut expect_body = String::from_str("Expect '{' before ");
        expect_body.append(kind);
        expect_body.append(" body.");
        match self.consume(TokenType::LeftBrace, expect_body.as_str()) {
            Ok(_) => {},
            Err(error) => {
                return Err(error);
            },
        }
        let ghost middle = self@;
        let ghost inner = grammar::block(middle.tokens, middle.current);
        proof {
            lemma_quiet(old(self)@, (middle.current - old(self)@.current) as nat);
            lemma_advanced_twice(
                old(self)@,
                (middle.current - old(self)@.current) as nat,
                Seq::empty(),
                inner.used,
                inner.reports,
            );
            assert(Seq::<Seq<char>>::empty() + inner.reports =~= inner.reports);
        }
        let body = match self.block() {
            Ok(body) => body,
            Err(error) => {
                return Err(error);
            },
        };
        proof {
            Stmt::lemma_function(name, parameters, body);
        }
        Ok(Stmt::Function(name, parameters, body))
    }

    /// The parameters of a function, of which there is at least one.
    fn parameters(&mut self) -> (result: Result<Vec<Token>, SyntaxError>)
        requires
            ready(old(self)@),
        ensures
            ready(final(self)@),
            final(self)@ == moved(old(self)@, grammar::parameters(old(self)@.tokens, old(self)@.current, 0).used),
            outcomes(result) == grammar::parameters(old(self)@.tokens, old(self)@.current, 0).result,
    {
        let ghost tokens = self@.tokens;
        let ghost start = self@.current;
        let mut parameters: Vec<Token> = Vec::new();
        proof {
            assert(views(parameters@) =~= Seq::empty());
            let all = grammar::parameters(tokens, start, 0);
            if all.result is Ok {
                assert(Seq::<TokenView>::empty() + all.result->Ok_0 =~= all.result->Ok_0);
            }
        }
        loop
            invariant
                ready(self@),
                tokens == old(self)@.tokens,
                start == old(self)@.current,
                self@ == moved(old(self)@, (self@.current - start) as nat),
                start <= self@.current,
                grammar::parameters(tokens, start, 0) == behind(
                    views(parameters@),
                    grammar::parameters(tokens, self@.current, parameters.len() as nat),
                ).after((self@.current - start) as nat),
            decreases remaining(self@.tokens.len(), self@.current),
        {
            if parameters.len() >= 255 {
                return Err(Self::error(self.peek(), "Can't have more than 255 parameters"));
            }
            let ghost before = views(parameters@);
            let parameter = match self.consume(TokenType::Identifier, "Expect paramter name.") {
                Ok(parameter) => parameter,
                Err(error) => {
                    return Err(error);
                },
            };
            parameters.push(parameter);
            proof {
                assert(views(parameters@) =~= before + seq![parameter@]);
            }
            if !self.match_token(TokenType::Comma) {
                return Ok(parameters);
            }
            proof {
                let rest = grammar::parameters(tokens, self@.current, parameters.len() as nat);
                if rest.result is Ok {
                    assert((before + seq![parameter@]) + rest.result->Ok_0 =~= before + (seq![
                        parameter@,
                    ] + rest.result->Ok_0));
                }
            }
        }
    }

    fn var_declaration(&mut self) -> (result: Result<Stmt, SyntaxError>)
        requires
            ready(old(self)@),
        ensures
            ready(final(self)@),
            final(self)@ == moved(old(self)@, grammar::var_declaration(old(self)@.tokens, old(self)@.current).used),
            outcome(result) == grammar::var_declaration(old(self)@.tokens, old(self)@.current).result,
    {
        let name = match self.consume(TokenType::Identifier, "Expect variable name") {
            Ok(name) => name,
            Err(error) => {
                return Err(error);
            },
        };
        let mut initializer = None;
        if self.match_token(TokenType::Equal) {
            let expression = match self.expression() {
                Ok(expression) => expression,
                Err(error) => {
                    return Err(error);
                },
            };
            initializer = Some(expression);
        }
        match self.consume(TokenType::Semicolon, "Expect ';' after variable declaration.") {
            Ok(_) => {},
            Err(error) => {
                return Err(error);
            },
        }
        Ok(Stmt::Var(name, initializer))
    }

    fn statement(&mut self) -> (result: Result<Stmt, SyntaxError>)
        requires
            ready(old(self)@),
        ensures
            ready(final(self)@),
            final(self)@ == advanced(
                old(self)@,
                grammar::statement(old(self)@.tokens, old(self)@.current).used,
                grammar::statement(old(self)@.tokens, old(self)@.current).reports,
            ),
            outcome(result) == grammar::statement(old(self)@.tokens, old(self)@.current).result,
            result is Ok ==> grammar::statement(old(self)@.tokens, old(self)@.current).used >= 1,
        decreases remaining(old(self)@.tokens.len(), old(self)@.current), 197nat,
    {
        proof {
            productions::unfold_statement(self@.tokens, self@.current);
            lemma_quiet(old(self)@, grammar::statement(self@.tokens, self@.current).used);
        }
        if self.match_token(TokenType::Print) {
            return self.print_statement();
        }
        if self.match_token(TokenType::LeftBrace) {
            let ghost middle = self@;
            let ghost inner = grammar::block(middle.tokens, middle.current);
            proof {
                lemma_quiet(old(self)@, 1);
                lemma_advanced_twice(old(self)@, 1, Seq::empty(), inner.used, inner.reports);
                assert(Seq::<Seq<char>>::empty() + inner.reports =~= inner.reports);
            }
            return match self.block() {
                Ok(statements) => {
                    proof {
                        Stmt::lemma_block(statements);
                    }
                    Ok(Stmt::Block(statements))
                },
                Err(error) => Err(error),
            };
        }
        if self.match_token(TokenType::If) {
            let ghost middle = self@;
            let ghost inner = grammar::if_statement(middle.tokens, middle.current);
            proof {
                lemma_quiet(old(self)@, 1);
                lemma_advanced_twice(old(self)@, 1, Seq::empty(), inner.used, inner.reports);
                assert(Seq::<Seq<char>>::empty() + inner.reports =~= inner.reports);
            }
            return self.if_statement();
        }
        if self.match_token(TokenType::While) {
            let ghost middle = self@;
            let ghost inner = grammar::while_statement(middle.tokens, middle.current);
            proof {
                lemma_quiet(old(self)@, 1);
                lemma_advanced_twice(old(self)@, 1, Seq::empty(), inner.used, inner.reports);
                assert(Seq::<Seq<char>>::empty() + inner.reports =~= inner.reports);
            }
            return self.while_statement();
        }
        if self.match_token(TokenType::For) {
            let ghost middle = self@;
            let ghost inner = grammar::for_statement(middle.tokens, middle.current);
            proof {
                lemma_quiet(old(self)@, 1);
                lemma_advanced_twice(old(self)@, 1, Seq::empty(), inner.used, inner.reports);
                assert(Seq::<Seq<char>>::empty() + inner.reports =~= inner.reports);
            }
            return self.for_statement();
        }
        if self.match_token(TokenType::Return) {
            return self.return_statement();
        }
        self.expression_statement()
    }

    fn return_statement(&mut self) -> (result: Result<Stmt, SyntaxError>)
        requires
            ready(old(self)@),
            old(self)@.current >= 1,
        ensures
            ready(final(self)@),
            final(self)@ == moved(old(self)@, grammar::return_statement(old(self)@.tokens, old(self)@.current).used),
            outcome(result) == grammar::return_statement(old(self)@.tokens, old(self)@.current).result,
    {
        let keyword = self.previous().clone();
        let value = if !self.check(TokenType::Semicolon) {
            match self.expression() {
                Ok(value) => Some(value),
                Err(error) => {
                    return Err(error);
                },
            }
        } else {
            None
        };
        match self.consume(TokenType::Semicolon, "Expect ';' after return value.") {
            Ok(_) => {},
            Err(error) => {
                return Err(error);
            },
        }
        Ok(Stmt::Return(keyword, value))
    }

    /// A condition in parentheses.
    fn condition(&mut self, before: &str, behind: &str) -> (result: Result<Expr, SyntaxError>)
        requires
            ready(old(self)@),
        ensures
            ready(final(self)@),
            final(self)@ == moved(
                old(self)@,
                grammar::condition(old(self)@.tokens, old(self)@.current, before@, behind@).used,
            ),
            outcome(result) == grammar::condition(old(self)@.tokens, old(self)@.current, before@, behind@).result,
    {
        match self.consume(TokenType::LeftParen, before) {
            Ok(_) => {},
            Err(error) => {
                return Err(error);
            },
        }
        let condition = match self.expression() {
            Ok(condition) => condition,
            Err(error) => {
                return Err(error);
            },
        };
        match self.consume(TokenType::RightParen, behind) {
            Ok(_) => {},
            Err(error) => {
                return Err(error);
            },
        }
        Ok(condition)
    }

    fn if_statement(&mut self) -> (result: Result<Stmt, SyntaxError>)
        requires
            ready(old(self)@),
        ensures
            ready(final(self)@),
            final(self)@ == advanced(
                old(self)@,
                grammar::if_statement(old(self)@.tokens, old(self)@.current).used,
                grammar::if_statement(old(self)@.tokens, old(self)@.current).reports,
            ),
            outcome(result) == grammar::if_statement(old(self)@.tokens, old(self)@.current).result,
        decreases remaining(old(self)@.tokens.len(), old(self)@.current), 250nat,
    {
        proof {
            productions::unfold_if_statement(self@.tokens, self@.current);
            lemma_quiet(old(self)@, grammar::if_statement(self@.tokens, self@.current).used);
        }
        let condition = match self.condition("Expect '(' after 'if'.", "Expect ')' after 'if'.") {
            Ok(condition) => condition,
            Err(error) => {
                return Err(error);
            },
        };
        let ghost second = self@;
        let ghost first_used = (second.current - old(self)@.current) as nat;
        let ghost then_part = grammar::statement(second.tokens, second.current);
        proof {
            lemma_quiet(old(self)@, first_used);
            lemma_advanced_twice(old(self)@, first_used, Seq::empty(), then_part.used, then_part.reports);
            assert(Seq::<Seq<char>>::empty() + then_part.reports =~= then_part.reports);
        }
        let then_branch = match self.statement() {
            Ok(then_branch) => then_branch,
            Err(error) => {
                return Err(error);
            },
        };
        let mut else_branch = None;
        if self.match_token(TokenType::Else) {
            let ghost third = self@;
            let ghost else_part = grammar::statement(third.tokens, third.current);
            proof {
                lemma_quiet(advanced(old(self)@, first_used + then_part.used, then_part.reports), 1);
                lemma_advanced_twice(
                    old(self)@,
                    first_used + then_part.used + 1,
                    then_part.reports,
                    else_part.used,
                    else_part.reports,
                );
            }
            let branch = match self.statement() {
                Ok(branch) => branch,
                Err(error) => {
                    return Err(error);
                },
            };
            else_branch = Some(Box::new(branch));
        }
        Ok(Stmt::If(condition, Box::new(then_branch), else_branch))
    }

    fn while_statement(&mut self) -> (result: Result<Stmt, SyntaxError>)
        requires
            ready(old(self)@),
        ensures
            ready(final(self)@),
            final(self)@ == advanced(
                old(self)@,
                grammar::while_statement(old(self)@.tokens, old(self)@.current).used,
                grammar::while_statement(old(self)@.tokens, old(self)@.current).reports,
            ),
            outcome(result) == grammar::while_statement(old(self)@.tokens, old(self)@.current).result,
        decreases remaining(old(self)@.tokens.len(), old(self)@.current), 250nat,
    {
        proof {
            productions::unfold_while_statement(self@.tokens, self@.current);
            lemma_quiet(old(self)@, grammar::while_statement(self@.tokens, self@.current).used);
        }
        let condition = match self.condition("Expect '(' before 'while'", "Expect ')' after 'conditon'") {
            Ok(condition) => condition,
            Err(error) => {
                return Err(error);
            },
        };
        let ghost second = self@;
        let ghost first_used = (second.current - old(self)@.current) as nat;
        let ghost inner = grammar::statement(second.tokens, second.current);
        proof {
            lemma_quiet(old(self)@, first_used);
            lemma_advanced_twice(old(self)@, first_used, Seq::empty(), inner.used, inner.reports);
            assert(Seq::<Seq<char>>::empty() + inner.reports =~= inner.reports);
        }
        match self.statement() {
            Ok(body) => Ok(Stmt::While(condition, Box::new(body))),
            Err(error) => Err(error),
        }
    }

    fn block(&mut self) -> (result: Result<Vec<Stmt>, SyntaxError>)
        requires
            ready(old(self)@),
        ensures
            ready(final(self)@),
            final(self)@ == advanced(
                old(self)@,
                grammar::block(old(self)@.tokens, old(self)@.current).used,
                grammar::block(old(self)@.tokens, old(self)@.current).reports,
            ),
            listed(result) == grammar::block(old(self)@.tokens, old(self)@.current).result,
        decreases remaining(old(self)@.tokens.len(), old(self)@.current), 201nat,
    {
        proof {
            productions::unfold_block(self@.tokens, self@.current);
        }
        let ghost list = grammar::declarations(self@.tokens, self@.current, true);
        let statements = self.declarations(true);
        proof {
            lemma_advanced_twice(old(self)@, list.used, list.reports, 0, Seq::empty());
            lemma_advanced_twice(old(self)@, list.used, list.reports, 1, Seq::empty());
            lemma_quiet(self@, 0);
            lemma_quiet(self@, 1);
            assert(list.reports + Seq::<Seq<char>>::empty() =~= list.reports);
        }
        match self.consume(TokenType::RightBrace, "Expect '}' after block.") {
            Ok(_) => {},
            Err(error) => {
                return Err(error);
            },
        }
        Ok(statements)
    }

    /// The first clause of a `for`.
    fn for_initializer(&mut self) -> (result: Result<Option<Stmt>, SyntaxError>)
        requires
            ready(old(self)@),
        ensures
            ready(final(self)@),
            final(self)@ == moved(old(self)@, grammar::for_initializer(old(self)@.tokens, old(self)@.current).used),
            optional(result) == grammar::for_initializer(old(self)@.tokens, old(self)@.current).result,
    {
        if self.match_token(TokenType::Semicolon) {
            return Ok(None);
        }
        let first = if self.match_token(TokenType::Var) {
            self.var_declaration()
        } else {
            self.expression_statement()
        };
        match first {
            Ok(statement) => Ok(Some(statement)),
            Err(error) => Err(error),
        }
    }

    /// An expression that may be left out in front of a closing token, and
    /// that token.
    fn clause(&mut self, closing: TokenType, message: &str) -> (result: Result<Option<Expr>, SyntaxError>)
        requires
            ready(old(self)@),
        ensures
            ready(final(self)@),
            final(self)@ == moved(
                old(self)@,
                grammar::clause(old(self)@.tokens, old(self)@.current, closing, message@).used,
            ),
            optional(result) == grammar::clause(old(self)@.tokens, old(self)@.current, closing, message@).result,
    {
        let mut value = None;
        if !self.check(closing) {
            let expression = match self.expression() {
                Ok(expression) => expression,
                Err(error) => {
                    return Err(error);
                },
            };
            value = Some(expression);
        }
        match self.consume(closing, message) {
            Ok(_) => {},
            Err(error) => {
                return Err(error);
            },
        }
        Ok(value)
    }

    fn for_statement(&mut self) -> (result: Result<Stmt, SyntaxError>)
        requires
            ready(old(self)@),
        ensures
            ready(final(self)@),
            final(self)@ == advanced(
                old(self)@,
                grammar::for_statement(old(self)@.tokens, old(self)@.current).used,
                grammar::for_statement(old(self)@.tokens, old(self)@.current).reports,
            ),
            outcome(result) == grammar::for_statement(old(self)@.tokens, old(self)@.current).result,
        decreases remaining(old(self)@.tokens.len(), old(self)@.current), 250nat,
    {
        proof {
            productions::unfold_for_statement(self@.tokens, self@.current);
            lemma_quiet(old(self)@, grammar::for_statement(self@.tokens, self@.current).used);
        }
        match self.consume(TokenType::LeftParen, "Expect '(' after 'for'.") {
            Ok(_) => {},
            Err(error) => {
                return Err(error);
            },
        }
        let initializer = match self.for_initializer() {
            Ok(initializer) => initializer,
            Err(error) => {
                return Err(error);
            },
        };
        let condition = match self.clause(TokenType::Semicolon, "Expect ';' after loop condition.") {
            Ok(condition) => condition,
            Err(error) => {
                return Err(error);
            },
        };
        let increment = match self.clause(TokenType::RightParen, "Expected ')' after 'for'.") {
            Ok(increment) => increment,
            Err(error) => {
                return Err(error);
            },
        };
        let ghost second = self@;
        let ghost first_used = (second.current - old(self)@.current) as nat;
        let ghost inner = grammar::statement(second.tokens, second.current);
        proof {
            lemma_quiet(old(self)@, first_used);
            lemma_advanced_twice(old(self)@, first_used, Seq::empty(), inner.used, inner.reports);
            assert(Seq::<Seq<char>>::empty() + inner.reports =~= inner.reports);
        }
        let body = match self.statement() {
            Ok(body) => body,
            Err(error) => {
                return Err(error);
            },
        };
        Ok(desugar(initializer, condition, increment, body))
    }

    fn print_statement(&mut self) -> (result: Result<Stmt, SyntaxError>)
        requires
            ready(old(self)@),
        ensures
            ready(final(self)@),
            final(self)@ == moved(old(self)@, grammar::print_statement(old(self)@.tokens, old(self)@.current).used),
            outcome(result) == grammar::print_statement(old(self)@.tokens, old(self)@.current).result,
    {
        let value = match self.expression() {
            Ok(value) => value,
            Err(error) => {
                return Err(error);
            },
        };
        match self.consume(TokenType::Semicolon, "Expect ';' after value.") {
            Ok(_) => {},
            Err(error) => {
                return Err(error);
            },
        }
        Ok(Stmt::Print(value))
    }

    fn expression_statement(&mut self) -> (result: Result<Stmt, SyntaxError>)
        requires
            ready(old(self)@),
        ensures
            ready(final(self)@),
            final(self)@ == moved(
                old(self)@,
                grammar::expression_statement(old(self)@.tokens, old(self)@.current).used,
            ),
            outcome(result) == grammar::expression_statement(old(self)@.tokens, old(self)@.current).result,
    {
        let expr = match self.expression() {
            Ok(expr) => expr,
            Err(error) => {
                return Err(error);
            },
        };
        match self.consume(TokenType::Semicolon, "Expect ';' after expression.") {
            Ok(_) => {},
            Err(error) => {
                return Err(error);
            },
        }
        Ok(Stmt::Expr(expr))
    }
}

} // verus!
