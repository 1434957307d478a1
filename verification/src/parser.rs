use vstd::prelude::*;
use vstd::string::StringExecFns;
use crate::error::{error, error_line};
use crate::grammar;
use crate::grammar::{Parsed, SyntaxErrorView};
use crate::scanner::{end_token, texts};
use crate::token::{Token, TokenView, views};
use crate::token_type::TokenType;

verus! {

/// A syntax error: the token it is laid to and the message.
#[derive(Debug, PartialEq)]
pub struct SyntaxError {
    pub token: Token,
    pub message: String,
}

impl View for SyntaxError {
    type V = SyntaxErrorView;

    open spec fn view(&self) -> SyntaxErrorView {
        SyntaxErrorView { token: self.token@, message: self.message@ }
    }
}

/// A recursive-descent parser over the tokens of one source text.
pub struct Parser {
    tokens: Vec<Token>,
    current: usize,
    had_error: bool,
    reports: Vec<String>,
}

/// The state of a parser: its tokens, the position of the next token, the
/// diagnostics so far, and whether any construct has failed.
pub struct ParserView {
    pub tokens: Seq<TokenView>,
    pub current: int,
    pub reports: Seq<Seq<char>>,
    pub had_error: bool,
}

impl View for Parser {
    type V = ParserView;

    closed spec fn view(&self) -> ParserView {
        ParserView {
            tokens: views(self.tokens@),
            current: self.current as int,
            reports: texts(self.reports@),
            had_error: self.had_error,
        }
    }
}

/// The tokens end with the end token, and the position lies among them.
pub open spec fn ready(state: ParserView) -> bool {
    &&& state.tokens.len() > 0
    &&& state.tokens.last().token_type == TokenType::Eof
    &&& 0 <= state.current < state.tokens.len()
}

/// The tokens that a parser works on: those given, closed with an end token
/// where they lack one.
pub open spec fn closed(tokens: Seq<TokenView>) -> Seq<TokenView> {
    if tokens.len() == 0 {
        seq![end_token(1)]
    } else if tokens.last().token_type == TokenType::Eof {
        tokens
    } else {
        tokens.push(end_token(tokens.last().line))
    }
}

/// The state `used` tokens further on.
pub open spec fn moved(before: ParserView, used: nat) -> ParserView {
    ParserView { current: before.current + used, ..before }
}

/// The state `used` tokens further on, with `reports` added; an added report
/// marks the parse as failed.
pub open spec fn advanced(before: ParserView, used: nat, reports: Seq<Seq<char>>) -> ParserView {
    ParserView {
        current: before.current + used,
        reports: before.reports + reports,
        had_error: before.had_error || reports.len() > 0,
        ..before
    }
}

/// The result of parsing one construct as a mathematical value.
pub open spec fn outcome<T: View>(result: Result<T, SyntaxError>) -> Result<T::V, SyntaxErrorView> {
    match result {
        Ok(value) => Ok(value@),
        Err(error) => Err(error@),
    }
}

/// The result of parsing a list of constructs as a mathematical value.
pub open spec fn outcomes<T: View>(result: Result<Vec<T>, SyntaxError>) -> Result<Seq<T::V>, SyntaxErrorView> {
    match result {
        Ok(values) => Ok(views(values@)),
        Err(error) => Err(error@),
    }
}

/// The result of parsing a construct that may be absent as a mathematical value.
pub open spec fn optional<T: View>(result: Result<Option<T>, SyntaxError>) -> Result<
    Option<T::V>,
    SyntaxErrorView,
> {
    match result {
        Ok(Some(value)) => Ok(Some(value@)),
        Ok(None) => Ok(None),
        Err(error) => Err(error@),
    }
}

/// A list of parsed items in front of what parsing the rest comes to.
pub open spec fn behind<T>(items: Seq<T>, rest: Parsed<Seq<T>>) -> Parsed<Seq<T>> {
    match rest.result {
        Ok(more) => grammar::done(items + more, rest.used),
        Err(error) => grammar::failed(error, rest.used),
    }
}

impl Parser {
    /// A parser at the first of `tokens`. The tokens are closed with an end
    /// token where they lack one.
    pub fn new(tokens: Vec<Token>) -> (parser: Parser)
        ensures
            parser@ == (ParserView {
                tokens: closed(views(tokens@)),
                current: 0,
                reports: Seq::empty(),
                had_error: false,
            }),
            ready(parser@),
    {
        let mut tokens = tokens;
        let ghost given = views(tokens@);
        let length = tokens.len();
        if length == 0 {
            tokens.push(Token::new(TokenType::Eof, String::new(), None, 1));
        } else if tokens[length - 1].token_type != TokenType::Eof {
            let line = tokens[length - 1].line;
            tokens.push(Token::new(TokenType::Eof, String::new(), None, line));
        }
        let parser = Parser { tokens, current: 0, had_error: false, reports: Vec::new() };
        proof {
            assert(parser@.tokens =~= closed(given));
            assert(parser@.reports =~= Seq::empty());
        }
        parser
    }

    /// Whether any construct has failed to parse.
    pub fn get_had_err(&self) -> (failed: bool)
        ensures
            failed == self@.had_error,
    {
        self.had_error
    }

    /// The diagnostics so far, one line each.
    pub fn reports(&self) -> (reports: &Vec<String>)
        ensures
            texts(reports@) == self@.reports,
    {
        &self.reports
    }

    /// Records the diagnostic of a syntax error and marks the parse as failed.
    pub(crate) fn report(&mut self, error: &SyntaxError)
        ensures
            final(self)@ == (ParserView {
                reports: old(self)@.reports.push(error_line(error.token@, error.message@)),
                had_error: true,
                ..old(self)@
            }),
    {
        let ghost before = self@;
        self.had_error = true;
        self.reports.push(crate::error::error(&error.token, error.message.as_str()));
        proof {
            assert(self@.reports =~= before.reports.push(error_line(error.token@, error.message@)));
        }
    }

    /// Takes the next token if it is of the given kind.
    pub(crate) fn match_token(&mut self, token_type: TokenType) -> (matched: bool)
        requires
            ready(old(self)@),
        ensures
            ready(final(self)@),
            matched == grammar::check(old(self)@.tokens, old(self)@.current, token_type),
            final(self)@ == moved(
                old(self)@,
                if matched {
                    1nat
                } else {
                    0nat
                },
            ),
    {
        if self.check(token_type) {
            self.advance();
            return true;
        }
        false
    }

    /// Takes the next token if it is of one of the given kinds.
    pub(crate) fn match_tokens(&mut self, token_types: Vec<TokenType>) -> (matched: bool)
        requires
            ready(old(self)@),
        ensures
            ready(final(self)@),
            matched == exists|i: int|
                0 <= i < token_types.len() && grammar::check(old(self)@.tokens, old(self)@.current, token_types[i]),
            final(self)@ == moved(
                old(self)@,
                if matched {
                    1nat
                } else {
                    0nat
                },
            ),
    {
        let mut i: usize = 0;
        while i < token_types.len()
            invariant
                i <= token_types.len(),
                self@ == old(self)@,
                ready(self@),
                forall|j: int| 0 <= j < i ==> !grammar::check(self@.tokens, self@.current, token_types[j]),
            decreases token_types.len() - i,
        {
            if self.match_token(token_types[i]) {
                return true;
            }
            i += 1;
        }
        false
    }

    /// Whether the next token is of the given kind.
    pub(crate) fn check(&self, token_type: TokenType) -> (same: bool)
        requires
            ready(self@),
        ensures
            same == grammar::check(self@.tokens, self@.current, token_type),
    {
        if self.is_at_end() {
            return false;
        }
        self.peek().token_type == token_type
    }

    /// Goes on to the next token, unless the end token is the next.
    pub(crate) fn advance(&mut self)
        requires
            ready(old(self)@),
        ensures
            ready(final(self)@),
            final(self)@ == moved(
                old(self)@,
                if grammar::at_end(old(self)@.tokens, old(self)@.current) {
                    0nat
                } else {
                    1nat
                },
            ),
    {
        if !self.is_at_end() {
            assert(self.tokens.len() == self.tokens@.len());
            self.current += 1;
        }
    }

    /// Takes the next token, which must be of the given kind.
    pub(crate) fn consume(&mut self, token_type: TokenType, message: &str) -> (result: Result<Token, SyntaxError>)
        requires
            ready(old(self)@),
        ensures
            ready(final(self)@),
            final(self)@ == moved(
                old(self)@,
                grammar::consume(old(self)@.tokens, old(self)@.current, token_type, message@).used,
            ),
            outcome(result) == grammar::consume(old(self)@.tokens, old(self)@.current, token_type, message@).result,
    {
        if self.check(token_type) {
            self.advance();
            return Ok(self.previous().clone());
        }
        Err(Self::error(self.peek(), message))
    }

    /// Whether the end token is the next.
    pub(crate) fn is_at_end(&self) -> (ended: bool)
        requires
            ready(self@),
        ensures
            ended == grammar::at_end(self@.tokens, self@.current),
    {
        self.peek().token_type == TokenType::Eof
    }

    /// The next token.
    pub(crate) fn peek(&self) -> (token: &Token)
        requires
            ready(self@),
        ensures
            token@ == grammar::peek(self@.tokens, self@.current),
    {
        &self.tokens[self.current]
    }

    /// The token that was taken last.
    pub(crate) fn previous(&self) -> (token: &Token)
        requires
            ready(self@),
            self@.current >= 1,
        ensures
            token@ == grammar::peek(self@.tokens, self@.current - 1),
    {
        &self.tokens[self.current - 1]
    }

    /// A syntax error at `token`.
    pub(crate) fn error(token: &Token, message: &str) -> (error: SyntaxError)
        ensures
            error@ == (SyntaxErrorView { token: token@, message: message@ }),
    {
        SyntaxError { token: token.clone(), message: String::from_str(message) }
    }
}

} // verus!
