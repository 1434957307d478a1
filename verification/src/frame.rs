use vstd::prelude::*;
use crate::expr::{Expr, ExprView};
use crate::stmt::{Stmt, StmtView};
use crate::token::{Token, TokenView};

verus! {

/// One piece of pending work. The interpreter keeps its work on a stack of
/// frames and its intermediate results on a stack of values; a frame that
/// works on values takes them from the top of that stack.
#[derive(Debug, PartialEq)]
pub enum Frame {
    /// Execute a statement.
    Execute(Stmt),
    /// Evaluate an expression; its value goes on the value stack.
    Evaluate(Expr),
    /// Apply a binary operator to the two topmost values.
    Binary(Token),
    /// Apply a unary operator to the topmost value.
    Unary(Token),
    /// Decide `and` or `or` on the topmost value: keep it, or drop it and
    /// evaluate the right operand.
    Logical(Token, Expr),
    /// Store the topmost value in a variable; the value stays.
    Assign(Token),
    /// Call the value that lies under so many arguments.
    Invoke(Token, usize),
    /// Drop the topmost value.
    Discard,
    /// Print the topmost value.
    Print,
    /// Bind the topmost value to a new variable.
    Define(Token),
    /// Execute one branch or the other by the topmost value.
    Branch(Stmt, Option<Stmt>),
    /// Execute the body and test again if the topmost value is truthy.
    Loop(Expr, Stmt),
    /// The end of a block: go back to the scope around it.
    Leave(usize),
    /// The end of a function body: go back to the caller's scope, cut the
    /// value stack back to its height before the call, and give `nil`.
    Finish(usize, usize),
    /// Return from the function with the topmost value.
    Return,
    /// The end of a top-level statement.
    Boundary,
}

/// A frame as a mathematical value.
pub enum FrameView {
    Execute(StmtView),
    Evaluate(ExprView),
    Binary(TokenView),
    Unary(TokenView),
    Logical(TokenView, ExprView),
    Assign(TokenView),
    Invoke(TokenView, usize),
    Discard,
    Print,
    Define(TokenView),
    Branch(StmtView, Option<StmtView>),
    Loop(ExprView, StmtView),
    Leave(usize),
    Finish(usize, usize),
    Return,
    Boundary,
}

impl View for Frame {
    type V = FrameView;

    open spec fn view(&self) -> FrameView {
        match self {
            Frame::Execute(statement) => FrameView::Execute(statement@),
            Frame::Evaluate(expression) => FrameView::Evaluate(expression@),
            Frame::Binary(operator) => FrameView::Binary(operator@),
            Frame::Unary(operator) => FrameView::Unary(operator@),
            Frame::Logical(operator, right) => FrameView::Logical(operator@, right@),
            Frame::Assign(name) => FrameView::Assign(name@),
            Frame::Invoke(paren, count) => FrameView::Invoke(paren@, *count),
            Frame::Discard => FrameView::Discard,
            Frame::Print => FrameView::Print,
            Frame::Define(name) => FrameView::Define(name@),
            Frame::Branch(then_branch, else_branch) => FrameView::Branch(
                then_branch@,
                match else_branch {
                    Some(branch) => Some(branch@),
                    None => None,
                },
            ),
            Frame::Loop(condition, body) => FrameView::Loop(condition@, body@),
            Frame::Leave(scope) => FrameView::Leave(*scope),
            Frame::Finish(scope, base) => FrameView::Finish(*scope, *base),
            Frame::Return => FrameView::Return,
            Frame::Boundary => FrameView::Boundary,
        }
    }
}

} // verus!
