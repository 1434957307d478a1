use vstd::prelude::*;
use crate::literal::{Literal, LiteralView};
use crate::token::{Token, TokenView, views};

verus! {

/// An expression tree. Every node owns its operands.
#[derive(Debug, PartialEq)]
pub enum Expr {
    Assign(Token, Box<Expr>),
    Binary(Box<Expr>, Token, Box<Expr>),
    Unary(Token, Box<Expr>),
    Literal(Literal),
    Logical(Box<Expr>, Token, Box<Expr>),
    Variable(Token),
    Grouping(Box<Expr>),
    /// The callee, the closing parenthesis, the arguments in order.
    Call(Box<Expr>, Token, Vec<Expr>),
}

/// An expression tree as a mathematical value.
pub enum ExprView {
    Assign(TokenView, Box<ExprView>),
    Binary(Box<ExprView>, TokenView, Box<ExprView>),
    Unary(TokenView, Box<ExprView>),
    Literal(LiteralView),
    Logical(Box<ExprView>, TokenView, Box<ExprView>),
    Variable(TokenView),
    Grouping(Box<ExprView>),
    Call(Box<ExprView>, TokenView, Seq<ExprView>),
}

impl Expr {
    /// The tree as a mathematical value.
    pub open spec fn model(&self) -> ExprView
        decreases self,
    {
        match self {
            Expr::Assign(name, value) => ExprView::Assign(name@, Box::new(value.model())),
            Expr::Binary(left, operator, right) => ExprView::Binary(
                Box::new(left.model()),
                operator@,
                Box::new(right.model()),
            ),
            Expr::Unary(operator, right) => ExprView::Unary(operator@, Box::new(right.model())),
            Expr::Literal(value) => ExprView::Literal(value@),
            Expr::Logical(left, operator, right) => ExprView::Logical(
                Box::new(left.model()),
                operator@,
                Box::new(right.model()),
            ),
            Expr::Variable(name) => ExprView::Variable(name@),
            Expr::Grouping(inner) => ExprView::Grouping(Box::new(inner.model())),
            Expr::Call(callee, paren, arguments) => ExprView::Call(
                Box::new(callee.model()),
                paren@,
                Seq::new(
                    arguments.len() as nat,
                    |i: int|
                        if 0 <= i < arguments.len() {
                            arguments[i].model()
                        } else {
                            ExprView::Literal(LiteralView::Null)
                        },
                ),
            ),
        }
    }
}

impl Expr {
    /// The model of a call holds the models of its arguments.
    pub proof fn lemma_call(callee: Box<Expr>, paren: Token, arguments: Vec<Expr>)
        ensures
            Expr::Call(callee, paren, arguments)@ == ExprView::Call(
                Box::new(callee@),
                paren@,
                views(arguments@),
            ),
    {
        assert(Expr::Call(callee, paren, arguments)@->Call_2 =~= views(arguments@));
    }
}

impl View for Expr {
    type V = ExprView;

    open spec fn view(&self) -> ExprView {
        self.model()
    }
}

impl Clone for Expr {
    fn clone(&self) -> (copy: Expr)
        ensures
            copy@ == self@,
        decreases self,
    {
        match self {
            Expr::Assign(name, value) => Expr::Assign(name.clone(), Box::new((&**value).clone())),
            Expr::Binary(left, operator, right) => Expr::Binary(
                Box::new((&**left).clone()),
                operator.clone(),
                Box::new((&**right).clone()),
            ),
            Expr::Unary(operator, right) => Expr::Unary(operator.clone(), Box::new((&**right).clone())),
            Expr::Literal(value) => Expr::Literal(value.clone()),
            Expr::Logical(left, operator, right) => Expr::Logical(
                Box::new((&**left).clone()),
                operator.clone(),
                Box::new((&**right).clone()),
            ),
            Expr::Variable(name) => Expr::Variable(name.clone()),
            Expr::Grouping(inner) => Expr::Grouping(Box::new((&**inner).clone())),
            Expr::Call(callee, paren, arguments) => {
                let mut copies: Vec<Expr> = Vec::new();
                let mut i: usize = 0;
                while i < arguments.len()
                    invariant
                        i <= arguments.len(),
                        copies.len() == i,
                        forall|j: int| 0 <= j < i ==> copies[j]@ == arguments[j]@,
                        self matches Expr::Call(_, _, a) && a == arguments,
                    decreases arguments.len() - i,
                {
                    copies.push(arguments[i].clone());
                    i += 1;
                }
                let copy = Expr::Call(Box::new((&**callee).clone()), paren.clone(), copies);
                assert(copy@->Call_2 =~= self@->Call_2);
                copy
            },
        }
    }
}

} // verus!
