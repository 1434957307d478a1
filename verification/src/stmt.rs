use vstd::prelude::*;
use crate::expr::{Expr, ExprView};
use crate::token::{Token, TokenView, views};

verus! {

/// A statement tree.
#[derive(Debug, PartialEq)]
pub enum Stmt {
    Expr(Expr),
    Print(Expr),
    Var(Token, Option<Expr>),
    Block(Vec<Stmt>),
    If(Expr, Box<Stmt>, Option<Box<Stmt>>),
    While(Expr, Box<Stmt>),
    /// The name, the parameters in order, the body.
    Function(Token, Vec<Token>, Vec<Stmt>),
    /// The `return` keyword and the value, if one is given.
    Return(Token, Option<Expr>),
}

/// A statement tree as a mathematical value.
pub enum StmtView {
    Expr(ExprView),
    Print(ExprView),
    Var(TokenView, Option<ExprView>),
    Block(Seq<StmtView>),
    If(ExprView, Box<StmtView>, Option<Box<StmtView>>),
    While(ExprView, Box<StmtView>),
    Function(TokenView, Seq<TokenView>, Seq<StmtView>),
    Return(TokenView, Option<ExprView>),
}

/// The views of a list of statements, in order.
pub open spec fn models(statements: Seq<Stmt>) -> Seq<StmtView> {
    Seq::new(statements.len(), |i: int| statements[i]@)
}

impl Stmt {
    /// The tree as a mathematical value.
    pub open spec fn model(&self) -> StmtView
        decreases self,
    {
        match self {
            Stmt::Expr(expression) => StmtView::Expr(expression@),
            Stmt::Print(expression) => StmtView::Print(expression@),
            Stmt::Var(name, initializer) => StmtView::Var(
                name@,
                match initializer {
                    Some(expression) => Some(expression@),
                    None => None,
                },
            ),
            Stmt::Block(statements) => StmtView::Block(
                Seq::new(
                    statements.len() as nat,
                    |i: int|
                        if 0 <= i < statements.len() {
                            statements[i].model()
                        } else {
                            StmtView::Block(Seq::empty())
                        },
                ),
            ),
            Stmt::If(condition, then_branch, else_branch) => StmtView::If(
                condition@,
                Box::new(then_branch.model()),
                match else_branch {
                    Some(branch) => Some(Box::new(branch.model())),
                    None => None,
                },
            ),
            Stmt::While(condition, body) => StmtView::While(condition@, Box::new(body.model())),
            Stmt::Function(name, parameters, body) => StmtView::Function(
                name@,
                views(parameters@),
                Seq::new(
                    body.len() as nat,
                    |i: int|
                        if 0 <= i < body.len() {
                            body[i].model()
                        } else {
                            StmtView::Block(Seq::empty())
                        },
                ),
            ),
            Stmt::Return(keyword, value) => StmtView::Return(
                keyword@,
                match value {
                    Some(expression) => Some(expression@),
                    None => None,
                },
            ),
        }
    }

    /// The model of a block holds the models of its statements.
    pub proof fn lemma_block(statements: Vec<Stmt>)
        ensures
            Stmt::Block(statements)@ == StmtView::Block(models(statements@)),
    {
        assert(Stmt::Block(statements)@->Block_0 =~= models(statements@));
    }

    /// The model of a function declaration holds the models of its parts.
    pub proof fn lemma_function(name: Token, parameters: Vec<Token>, body: Vec<Stmt>)
        ensures
            Stmt::Function(name, parameters, body)@ == StmtView::Function(
                name@,
                views(parameters@),
                models(body@),
            ),
    {
        assert(Stmt::Function(name, parameters, body)@->Function_2 =~= models(body@));
    }
}

impl View for Stmt {
    type V = StmtView;

    open spec fn view(&self) -> StmtView {
        self.model()
    }
}

/// A copy of a list of tokens.
pub fn clone_tokens(tokens: &Vec<Token>) -> (copies: Vec<Token>)
    ensures
        views(copies@) == views(tokens@),
{
    let mut copies: Vec<Token> = Vec::new();
    let mut i: usize = 0;
    while i < tokens.len()
        invariant
            i <= tokens.len(),
            copies.len() == i,
            forall|j: int| 0 <= j < i ==> copies[j]@ == tokens[j]@,
        decreases tokens.len() - i,
    {
        copies.push(tokens[i].clone());
        i += 1;
    }
    assert(views(copies@) =~= views(tokens@));
    copies
}

/// A copy of a list of statements.
pub fn clone_statements(statements: &Vec<Stmt>) -> (copies: Vec<Stmt>)
    ensures
        models(copies@) == models(statements@),
    decreases statements,
{
    let mut copies: Vec<Stmt> = Vec::new();
    let mut i: usize = 0;
    while i < statements.len()
        invariant
            i <= statements.len(),
            copies.len() == i,
            forall|j: int| 0 <= j < i ==> copies[j]@ == statements[j]@,
        decreases statements.len() - i,
    {
        copies.push(statements[i].clone());
        i += 1;
    }
    assert(models(copies@) =~= models(statements@));
    copies
}

impl Clone for Stmt {
    fn clone(&self) -> (copy: Stmt)
        ensures
            copy@ == self@,
        decreases self,
    {
        match self {
            Stmt::Expr(expression) => Stmt::Expr(expression.clone()),
            Stmt::Print(expression) => Stmt::Print(expression.clone()),
            Stmt::Var(name, initializer) => Stmt::Var(
                name.clone(),
                match initializer {
                    Some(expression) => Some(expression.clone()),
                    None => None,
                },
            ),
            Stmt::Block(statements) => {
                let copies = clone_statements(statements);
                proof {
                    Stmt::lemma_block(copies);
                    Stmt::lemma_block(*statements);
                }
                Stmt::Block(copies)
            },
            Stmt::If(condition, then_branch, else_branch) => Stmt::If(
                condition.clone(),
                Box::new((&**then_branch).clone()),
                match else_branch {
                    Some(branch) => Some(Box::new((&**branch).clone())),
                    None => None,
                },
            ),
            Stmt::While(condition, body) => Stmt::While(condition.clone(), Box::new((&**body).clone())),
            Stmt::Function(name, parameters, body) => {
                let copy = Stmt::Function(name.clone(), clone_tokens(parameters), clone_statements(body));
                proof {
                    Stmt::lemma_function(copy->Function_0, copy->Function_1, copy->Function_2);
                    Stmt::lemma_function(*name, *parameters, *body);
                }
                copy
            },
            Stmt::Return(keyword, value) => Stmt::Return(
                keyword.clone(),
                match value {
                    Some(expression) => Some(expression.clone()),
                    None => None,
                },
            ),
        }
    }
}

} // verus!
