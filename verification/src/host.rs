use vstd::prelude::*;
use crate::literal::{Literal, LiteralView, Number, NumberView};
use crate::token_type::TokenType;

verus! {

/// A computation on numbers that the interpreter hands to its host.
#[derive(Debug, PartialEq)]
pub enum Request {
    /// `+ - * /` on two numbers, answered by a number; a comparison or an
    /// equality test on two numbers, answered by a truth value.
    Binary(TokenType, Number, Number),
    /// The negation of a number, answered by a number.
    Negate(Number),
    /// The decimal text of a number, answered by text, which is then printed.
    Format(Number),
    /// The seconds since the epoch, answered by a number.
    Clock,
}

/// A request as a mathematical value.
pub enum RequestView {
    Binary(TokenType, NumberView, NumberView),
    Negate(NumberView),
    Format(NumberView),
    Clock,
}

impl View for Request {
    type V = RequestView;

    open spec fn view(&self) -> RequestView {
        match self {
            Request::Binary(operator, left, right) => RequestView::Binary(*operator, left@, right@),
            Request::Negate(number) => RequestView::Negate(number@),
            Request::Format(number) => RequestView::Format(number@),
            Request::Clock => RequestView::Clock,
        }
    }
}

impl Clone for Request {
    fn clone(&self) -> (copy: Request)
        ensures
            copy@ == self@,
    {
        match self {
            Request::Binary(operator, left, right) => Request::Binary(*operator, left.clone(), right.clone()),
            Request::Negate(number) => Request::Negate(number.clone()),
            Request::Format(number) => Request::Format(number.clone()),
            Request::Clock => Request::Clock,
        }
    }
}

/// The host's answer to a request.
#[derive(Debug, PartialEq)]
pub enum Reply {
    Number(u32),
    Bool(bool),
    Text(String),
}

/// A reply as a mathematical value.
pub enum ReplyView {
    Number(u32),
    Bool(bool),
    Text(Seq<char>),
}

impl View for Reply {
    type V = ReplyView;

    open spec fn view(&self) -> ReplyView {
        match self {
            Reply::Number(bits) => ReplyView::Number(*bits),
            Reply::Bool(value) => ReplyView::Bool(*value),
            Reply::Text(text) => ReplyView::Text(text@),
        }
    }
}

/// A runtime error: what went wrong, and the line of the token it is laid to.
#[derive(Debug, PartialEq)]
pub struct RuntimeError {
    pub message: String,
    pub line: usize,
}

/// A runtime error as a mathematical value.
pub struct RuntimeErrorView {
    pub message: Seq<char>,
    pub line: usize,
}

impl View for RuntimeError {
    type V = RuntimeErrorView;

    open spec fn view(&self) -> RuntimeErrorView {
        RuntimeErrorView { message: self.message@, line: self.line }
    }
}

/// What one operator application comes to.
#[derive(Debug, PartialEq)]
pub enum Outcome {
    Value(Literal),
    Ask(Request),
    Fail(RuntimeError),
}

/// An outcome as a mathematical value.
pub enum OutcomeView {
    Value(LiteralView),
    Ask(RequestView),
    Fail(RuntimeErrorView),
}

impl View for Outcome {
    type V = OutcomeView;

    open spec fn view(&self) -> OutcomeView {
        match self {
            Outcome::Value(value) => OutcomeView::Value(value@),
            Outcome::Ask(request) => OutcomeView::Ask(request@),
            Outcome::Fail(error) => OutcomeView::Fail(error@),
        }
    }
}

/// What the interpreter tells its host after a step.
#[derive(Debug, PartialEq)]
pub enum Action {
    /// A step was taken and there is more to do.
    Continue,
    /// A line for the output.
    Print(String),
    /// A computation on numbers; the interpreter waits for the reply.
    Ask(Request),
    /// A runtime error; what was left to run has been dropped.
    Fail(RuntimeError),
    /// Nothing is left to run.
    Done,
}

/// An action as a mathematical value.
pub enum ActionView {
    Continue,
    Print(Seq<char>),
    Ask(RequestView),
    Fail(RuntimeErrorView),
    Done,
}

impl View for Action {
    type V = ActionView;

    open spec fn view(&self) -> ActionView {
        match self {
            Action::Continue => ActionView::Continue,
            Action::Print(line) => ActionView::Print(line@),
            Action::Ask(request) => ActionView::Ask(request@),
            Action::Fail(error) => ActionView::Fail(error@),
            Action::Done => ActionView::Done,
        }
    }
}

} // verus!
