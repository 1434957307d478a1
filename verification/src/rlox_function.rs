use vstd::prelude::*;
use crate::frame::Frame;
use crate::host::Action;
use crate::interpreter::Interpreter;
use crate::literal::{Literal, LiteralView, TCallable};
use crate::semantics::{State, Stepped, called_function};
use crate::stmt::{Stmt, StmtView, clone_statements, models};
use crate::token::{TokenView, views};

verus! {

/// A user function: its declaration and the scope it was declared in, which is
/// the scope that its body sees around its own.
#[derive(Debug, PartialEq)]
pub struct RloxFunction {
    declaration: Stmt,
    closure: usize,
}

/// A user function as a mathematical value.
pub struct FunctionView {
    pub declaration: StmtView,
    pub closure: usize,
}

/// The parameters that a declaration names; a statement that declares no
/// function names none.
pub open spec fn parameters_of(declaration: StmtView) -> Seq<TokenView> {
    match declaration {
        StmtView::Function(_, parameters, _) => parameters,
        _ => Seq::empty(),
    }
}

/// The body that a declaration gives; a statement that declares no function
/// gives an empty one.
pub open spec fn body_of(declaration: StmtView) -> Seq<StmtView> {
    match declaration {
        StmtView::Function(_, _, body) => body,
        _ => Seq::empty(),
    }
}

impl View for RloxFunction {
    type V = FunctionView;

    closed spec fn view(&self) -> FunctionView {
        FunctionView { declaration: self.declaration@, closure: self.closure }
    }
}

impl RloxFunction {
    /// The function that `declaration` declares in the scope `closure`.
    pub fn new(declaration: Stmt, closure: usize) -> (function: RloxFunction)
        ensures
            function@ == (FunctionView { declaration: declaration@, closure }),
    {
        RloxFunction { declaration, closure }
    }

    /// The scope that the function was declared in.
    pub fn closure(&self) -> (scope: usize)
        ensures
            scope == self@.closure,
    {
        self.closure
    }

    /// The declaration.
    pub fn declaration(&self) -> (declaration: &Stmt)
        ensures
            declaration@ == self@.declaration,
    {
        &self.declaration
    }
}

impl Clone for RloxFunction {
    fn clone(&self) -> (copy: RloxFunction)
        ensures
            copy@ == self@,
    {
        RloxFunction { declaration: self.declaration.clone(), closure: self.closure }
    }
}

impl TCallable for RloxFunction {
    open spec fn takes(&self) -> nat {
        parameters_of(self@.declaration).len()
    }

    open spec fn called(&self, state: State, arguments: Seq<LiteralView>) -> Stepped {
        called_function(self@, state, arguments)
    }

    /// The number of parameters.
    fn arity(&self) -> (count: usize) {
        match &self.declaration {
            Stmt::Function(_, parameters, _) => {
                proof {
                    Stmt::lemma_function(
                        self.declaration->Function_0,
                        self.declaration->Function_1,
                        self.declaration->Function_2,
                    );
                }
                parameters.len()
            },
            _ => 0,
        }
    }

    /// Begins a call: the body becomes the next work of the interpreter.
    fn call(&self, interpreter: &mut Interpreter, arguments: Vec<Literal>) -> (action: Action) {
        let previous = interpreter.scope();
        let base = interpreter.height();
        let scope = interpreter.open_scope(self.closure);
        match &self.declaration {
            Stmt::Function(name, parameters, body) => {
                proof {
                    Stmt::lemma_function(*name, *parameters, *body);
                    assert(views(parameters@).len() == parameters.len());
                }
                interpreter.bind(scope, parameters, &arguments);
                interpreter.execute_block(clone_statements(body), scope, Frame::Finish(previous, base));
            },
            _ => {
                let body: Vec<Stmt> = Vec::new();
                proof {
                    assert(models(body@) =~= Seq::empty());
                }
                interpreter.execute_block(body, scope, Frame::Finish(previous, base));
            },
        }
        Action::Continue
    }
}

} // verus!
