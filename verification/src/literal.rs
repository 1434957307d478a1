use vstd::prelude::*;
use vstd::string::StringExecFns;
use crate::host::{Action, Request};
use crate::interpreter::Interpreter;
use crate::machine::stepped;
use crate::semantics::{State, Stepped, called_clock, stringified};
use crate::token::views;

verus! {

/// A number, which this library carries and never computes with.
///
/// Arithmetic is IEEE-754 single precision and belongs to the host: a number is
/// either the digits of a numeral as the source spells them, or the 32-bit
/// pattern that the host handed back for the result of an operation.
#[derive(Debug, PartialEq)]
pub enum Number {
    Written(String),
    Bits(u32),
}

/// A number as a mathematical value.
pub enum NumberView {
    Written(Seq<char>),
    Bits(u32),
}

impl View for Number {
    type V = NumberView;

    open spec fn view(&self) -> NumberView {
        match self {
            Number::Written(digits) => NumberView::Written(digits@),
            Number::Bits(bits) => NumberView::Bits(*bits),
        }
    }
}

impl Clone for Number {
    fn clone(&self) -> (copy: Number)
        ensures
            copy@ == self@,
    {
        match self {
            Number::Written(digits) => Number::Written(digits.clone()),
            Number::Bits(bits) => Number::Bits(*bits),
        }
    }
}

/// What can be called: it takes a fixed number of arguments, and a call
/// with that many arguments changes the interpreter in a way that depends on
/// the callable, the arguments and the interpreter's state alone.
pub trait TCallable {
    /// The number of arguments that a call takes.
    spec fn takes(&self) -> nat;

    /// What a call does.
    spec fn called(&self, state: State, arguments: Seq<LiteralView>) -> Stepped;

    fn arity(&self) -> (count: usize)
        ensures
            count == self.takes(),
    ;

    fn call(&self, interpreter: &mut Interpreter, arguments: Vec<Literal>) -> (action: Action)
        requires
            arguments.len() == self.takes(),
        ensures
            stepped(*final(interpreter), action) == self.called(old(interpreter)@, views(arguments@)),
    ;
}

/// The native function `clock`: no parameters, the seconds since the epoch.
#[derive(Clone, Copy, Debug, PartialEq, Eq, Structural)]
pub struct Clock {}

impl TCallable for Clock {
    open spec fn takes(&self) -> nat {
        0
    }

    open spec fn called(&self, state: State, arguments: Seq<LiteralView>) -> Stepped {
        called_clock(state)
    }

    fn arity(&self) -> (count: usize) {
        0
    }

    fn call(&self, interpreter: &mut Interpreter, arguments: Vec<Literal>) -> (action: Action) {
        interpreter.ask(Request::Clock)
    }
}

/// Something that can be called: the native clock, or a user function by its
/// index in the interpreter's table of functions.
#[derive(Clone, Copy, Debug, PartialEq, Eq, Structural)]
pub enum Callable {
    Native(Clock),
    Function(usize),
}

/// A runtime value; also what a string or number token denotes.
#[derive(Debug, PartialEq)]
pub enum Literal {
    String(String),
    Number(Number),
    Bool(bool),
    Null,
    Callable(Callable),
}

/// A value as a mathematical value: text is a sequence of characters.
pub enum LiteralView {
    String(Seq<char>),
    Number(NumberView),
    Bool(bool),
    Null,
    Callable(Callable),
}

impl View for Literal {
    type V = LiteralView;

    open spec fn view(&self) -> LiteralView {
        match self {
            Literal::String(text) => LiteralView::String(text@),
            Literal::Number(number) => LiteralView::Number(number@),
            Literal::Bool(value) => LiteralView::Bool(*value),
            Literal::Null => LiteralView::Null,
            Literal::Callable(callable) => LiteralView::Callable(*callable),
        }
    }
}

impl Clone for Literal {
    fn clone(&self) -> (copy: Literal)
        ensures
            copy@ == self@,
    {
        match self {
            Literal::String(text) => Literal::String(text.clone()),
            Literal::Number(number) => Literal::Number(number.clone()),
            Literal::Bool(value) => Literal::Bool(*value),
            Literal::Null => Literal::Null,
            Literal::Callable(callable) => Literal::Callable(*callable),
        }
    }
}

impl Literal {
    /// The text that `print` writes for a value. A number has none here: its
    /// text is the host's to give.
    pub fn stringify(literal: Literal) -> (text: Option<String>)
        ensures
            match text {
                Some(text) => stringified(literal@) == Some(text@),
                None => stringified(literal@) is None,
            },
    {
        match literal {
            Literal::Null => Some(String::from_str("nil")),
            Literal::String(value) => Some(value),
            Literal::Number(_) => None,
            Literal::Bool(value) => Some(
                if value {
                    String::from_str("true")
                } else {
                    String::from_str("false")
                },
            ),
            Literal::Callable(Callable::Native(_)) => Some(String::from_str("<native fn>")),
            Literal::Callable(Callable::Function(_)) => Some(String::from_str("<fn>")),
        }
    }
}

} // verus!
