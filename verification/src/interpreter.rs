use vstd::prelude::*;
use vstd::string::StringExecFns;
use crate::environment::{
    Environment, ScopeView, assigned, defined, fresh, holder, lookup, marked, undefined_read, undefined_write,
};
use crate::frame::{Frame, FrameView};
use crate::host::{Action, Outcome, Request, RuntimeError, RuntimeErrorView};
use crate::literal::{Callable, Clock, Literal, LiteralView};
use crate::rlox_function::{FunctionView, RloxFunction};
use crate::semantics::{
    State,
    Stepped,
    abort,
    back,
    ask,
    binary_outcome,
    booked,
    bound,
    entered,
    equal_values,
    scheduled,
    settled,
    top,
    truncated,
    truthy,
    type_error,
    unary_outcome,
    unwound,
    with_frame,
    with_value,
    without_value,
};
use crate::soundness::{lemma_sound_interpret, nested, sound};
use crate::stmt::{Stmt, models};
use crate::token::{Token, views};
use crate::token_type::TokenType;

verus! {

/// A tree-walking interpreter, run step by step.
///
/// The interpreter keeps the global scope and what was declared in it from
/// one list of statements to the next. It never computes with numbers and
/// never writes: it tells its host what to print and asks it for every
/// operation on numbers.
pub struct Interpreter {
    environment: Environment,
    scope: usize,
    functions: Vec<RloxFunction>,
    frames: Vec<Frame>,
    values: Vec<Literal>,
    pending: Option<Request>,
}

impl View for Interpreter {
    type V = State;

    closed spec fn view(&self) -> State {
        State {
            scopes: self.environment@,
            scope: self.scope,
            functions: views(self.functions@),
            frames: views(self.frames@),
            values: views(self.values@),
            pending: match self.pending {
                Some(request) => Some(request@),
                None => None,
            },
        }
    }
}

/// The state of a new interpreter: the global scope with the native function
/// `clock` in it, and no work.
pub open spec fn initial() -> State {
    State {
        scopes: seq![
            ScopeView {
                values: Map::empty().insert("clock"@, LiteralView::Callable(Callable::Native(Clock {  }))),
                enclosing: None,
                captured: false,
            },
        ],
        scope: 0,
        functions: Seq::empty(),
        frames: Seq::empty(),
        values: Seq::empty(),
        pending: None,
    }
}

impl Interpreter {
    /// An interpreter with the native function `clock` in its global scope and no work.
    pub fn new() -> (interpreter: Interpreter)
        ensures
            interpreter@ == initial(),
            sound(interpreter@),
    {
        let mut environment = Environment::new();
        environment.define(0, String::from_str("clock"), Some(Literal::Callable(Callable::Native(Clock {  }))));
        let interpreter = Interpreter {
            environment,
            scope: 0,
            functions: Vec::new(),
            frames: Vec::new(),
            values: Vec::new(),
            pending: None,
        };
        proof {
            assert(interpreter@.scopes =~= initial().scopes);
            assert(interpreter@.functions =~= Seq::empty());
            assert(interpreter@.frames =~= Seq::empty());
            assert(interpreter@.values =~= Seq::empty());
        }
        interpreter
    }

    /// Adds `stmts` to the work as top-level statements, to run in order
    /// before whatever work was pending.
    pub fn interpret(&mut self, stmts: &Vec<Stmt>)
        ensures
            final(self)@ == (State { frames: booked(old(self)@.frames, models(stmts@)), ..old(self)@ }),
            sound(old(self)@) && nested(old(self)@.frames, 0) ==> sound(final(self)@),
    {
        proof {
            if sound(self@) && nested(self@.frames, 0) {
                lemma_sound_interpret(self@, models(stmts@));
            }
        }
        let mut i: usize = stmts.len();
        proof {
            assert(models(stmts@).subrange(0, i as int) =~= models(stmts@));
        }
        while i > 0
            invariant
                i <= stmts.len(),
                self@ == (State { frames: self@.frames, ..old(self)@ }),
                booked(old(self)@.frames, models(stmts@)) == booked(
                    self@.frames,
                    models(stmts@).subrange(0, i as int),
                ),
            decreases i,
        {
            let ghost before = self@.frames;
            let ghost part = models(stmts@).subrange(0, i as int);
            i -= 1;
            self.frames.push(Frame::Boundary);
            self.frames.push(Frame::Execute(stmts[i].clone()));
            proof {
                assert(part.drop_last() =~= models(stmts@).subrange(0, i as int));
                assert(self@.frames =~= before.push(FrameView::Boundary).push(
                    FrameView::Execute(part.last()),
                ));
            }
        }
        proof {
            assert(models(stmts@).subrange(0, 0) =~= Seq::empty());
        }
    }

    /// The machine can count the scopes.
    pub proof fn lemma_fits(&self)
        ensures
            self@.scopes.len() <= usize::MAX,
    {
        self.environment.lemma_fits();
    }

    /// Whether no work is left and no request is pending.
    pub fn is_idle(&self) -> (idle: bool)
        ensures
            idle == (self@.frames.len() == 0 && self@.pending is None),
    {
        self.frames.len() == 0 && self.pending.is_none()
    }

    /// The scopes of the program.
    pub fn environment(&self) -> (environment: &Environment)
        ensures
            environment@ == self@.scopes,
    {
        &self.environment
    }

    /// Whether a value counts as true: all but `nil` and `false` do.
    pub fn is_truthy(literal: &Literal) -> (b: bool)
        ensures
            b == truthy(literal@),
    {
        match literal {
            Literal::Null => false,
            Literal::Bool(value) => *value,
            _ => true,
        }
    }

    /// Whether two values are equal, where the interpreter can tell: two numbers
    /// are for the host to compare.
    pub fn is_equal(left: &Literal, right: &Literal) -> (b: Option<bool>)
        ensures
            b == equal_values(left@, right@),
    {
        match (left, right) {
            (Literal::Number(_), Literal::Number(_)) => None,
            (Literal::String(a), Literal::String(b)) => Some(*a == *b),
            (Literal::Bool(a), Literal::Bool(b)) => Some(*a == *b),
            (Literal::Null, Literal::Null) => Some(true),
            (Literal::Callable(a), Literal::Callable(b)) => Some(*a == *b),
            _ => Some(false),
        }
    }

    fn type_error(message: &str, operator: &Token) -> (outcome: Outcome)
        ensures
            outcome@ == type_error(message@, operator@),
    {
        Outcome::Fail(RuntimeError { message: String::from_str(message), line: operator.line })
    }

    /// Applies a binary operator to two values.
    pub fn handle_binary(left: Literal, operator: &Token, right: Literal) -> (outcome: Outcome)
        ensures
            outcome@ == binary_outcome(left@, operator@, right@),
    {
        let kind = operator.token_type;
        match (left, right) {
            (Literal::Number(a), Literal::Number(b)) => {
                match kind {
                    TokenType::Plus
                    | TokenType::Minus
                    | TokenType::Slash
                    | TokenType::Star
                    | TokenType::Greater
                    | TokenType::GreaterEqual
                    | TokenType::Less
                    | TokenType::LessEqual
                    | TokenType::BangEqual
                    | TokenType::EqualEqual => Outcome::Ask(Request::Binary(kind, a, b)),
                    _ => Self::type_error("Operands must be numbers", operator),
                }
            },
            (Literal::String(a), Literal::String(b)) => {
                match kind {
                    TokenType::Plus => Outcome::Value(Literal::String(a.concat(b.as_str()))),
                    TokenType::BangEqual => Outcome::Value(Literal::Bool(!(a == b))),
                    TokenType::EqualEqual => Outcome::Value(Literal::Bool(a == b)),
                    _ => Self::type_error("Operands must be two numbers or two strings", operator),
                }
            },
            (left, right) => {
                match kind {
                    TokenType::BangEqual | TokenType::EqualEqual => {
                        let same = match Self::is_equal(&left, &right) {
                            Some(same) => same,
                            None => false,
                        };
                        Outcome::Value(
                            Literal::Bool(
                                if kind == TokenType::EqualEqual {
                                    same
                                } else {
                                    !same
                                },
                            ),
                        )
                    },
                    _ => Self::type_error("Operands must be two numbers or two strings", operator),
                }
            },
        }
    }

    /// Applies a unary operator to a value.
    pub fn handle_unary(operator: &Token, right: Literal) -> (outcome: Outcome)
        ensures
            outcome@ == unary_outcome(operator@, right@),
    {
        match (operator.token_type, right) {
            (TokenType::Minus, Literal::Number(number)) => Outcome::Ask(Request::Negate(number)),
            (TokenType::Bang, right) => Outcome::Value(Literal::Bool(!Self::is_truthy(&right))),
            _ => Self::type_error("Operand must be a number", operator),
        }
    }

    /// The request that the host has not answered yet.
    pub(crate) fn pending(&self) -> (request: Option<Request>)
        ensures
            match request {
                Some(request) => self@.pending == Some(request@),
                None => self@.pending is None,
            },
    {
        match &self.pending {
            Some(request) => Some(request.clone()),
            None => None,
        }
    }

    /// Ends the wait for the host.
    pub(crate) fn settle_pending(&mut self)
        ensures
            final(self)@ == (State { pending: None, ..old(self)@ }),
    {
        self.pending = None;
    }

    /// The scope that the code in hand runs in.
    pub(crate) fn scope(&self) -> (scope: usize)
        ensures
            scope == self@.scope,
    {
        self.scope
    }

    /// Goes back to `scope` at the end of a block or of a call.
    pub(crate) fn restore(&mut self, scope: usize)
        ensures
            final(self)@ == back(old(self)@, scope),
    {
        self.scope = scope;
        self.environment.release(scope);
    }

    /// Puts a frame on top of the work.
    pub(crate) fn push_frame(&mut self, frame: Frame)
        ensures
            final(self)@ == with_frame(old(self)@, frame@),
    {
        let ghost before = self@;
        self.frames.push(frame);
        proof {
            assert(self@.frames =~= before.frames.push(frame@));
        }
    }

    /// Takes the topmost frame off.
    pub(crate) fn pop_frame(&mut self) -> (frame: Option<Frame>)
        ensures
            match frame {
                Some(frame) => old(self)@.frames.len() > 0 && frame@ == old(self)@.frames.last()
                    && final(self)@ == (State { frames: old(self)@.frames.drop_last(), ..old(self)@ }),
                None => old(self)@.frames.len() == 0 && final(self)@ == old(self)@,
            },
    {
        let ghost before = self@;
        let frame = self.frames.pop();
        proof {
            if frame is Some {
                assert(self@.frames =~= before.frames.drop_last());
            }
        }
        frame
    }

    /// Puts a value on top of the values.
    pub(crate) fn push_value(&mut self, value: Literal)
        ensures
            final(self)@ == with_value(old(self)@, value@),
    {
        let ghost before = self@;
        self.values.push(value);
        proof {
            assert(self@.values =~= before.values.push(value@));
        }
    }

    /// Takes the topmost value off; `nil` where there is none.
    pub(crate) fn pop_value(&mut self) -> (value: Literal)
        ensures
            value@ == top(old(self)@.values),
            final(self)@ == without_value(old(self)@),
    {
        let ghost before = self@;
        match self.values.pop() {
            Some(value) => {
                proof {
                    assert(self@.values =~= before.values.drop_last());
                }
                value
            },
            None => Literal::Null,
        }
    }

    /// A copy of the topmost value; `nil` where there is none.
    pub(crate) fn peek_value(&self) -> (value: Literal)
        ensures
            value@ == top(self@.values),
    {
        let height = self.values.len();
        if height > 0 {
            self.values[height - 1].clone()
        } else {
            Literal::Null
        }
    }

    /// Cuts the values back to `height`.
    pub(crate) fn truncate_values(&mut self, height: usize)
        ensures
            final(self)@ == (State { values: truncated(old(self)@.values, height), ..old(self)@ }),
    {
        let ghost before = self@;
        self.values.truncate(height);
        proof {
            assert(self@.values =~= truncated(before.values, height));
        }
    }

    /// Raises a runtime error: drops all work and all intermediate results and
    /// goes back to the global scope.
    pub(crate) fn fail(&mut self, error: RuntimeError) -> (action: Action)
        ensures
            (Stepped { state: final(self)@, action: action@ }) == abort(old(self)@, error@),
    {
        self.frames.clear();
        self.values.clear();
        self.scope = 0;
        self.environment.release(0);
        self.pending = None;
        proof {
            assert(self@.frames =~= Seq::empty());
            assert(self@.values =~= Seq::empty());
        }
        Action::Fail(error)
    }

    /// Hands a request to the host.
    pub(crate) fn ask(&mut self, request: Request) -> (action: Action)
        ensures
            (Stepped { state: final(self)@, action: action@ }) == ask(old(self)@, request@),
    {
        self.pending = Some(request.clone());
        Action::Ask(request)
    }

    /// Does what an operator application came to, its operands taken.
    pub(crate) fn settle(&mut self, outcome: Outcome) -> (action: Action)
        ensures
            (Stepped { state: final(self)@, action: action@ }) == settled(old(self)@, outcome@),
    {
        match outcome {
            Outcome::Value(value) => {
                self.push_value(value);
                Action::Continue
            },
            Outcome::Ask(request) => self.ask(request),
            Outcome::Fail(error) => self.fail(error),
        }
    }

    /// The value of a variable for the code in hand.
    pub(crate) fn read(&self, name: &Token) -> (result: Result<Literal, RuntimeError>)
        ensures
            match lookup(self@.scopes, self@.scope as int, name.lexeme@) {
                Some(value) => result matches Ok(found) && found@ == value,
                None => result matches Err(error) && error@ == (RuntimeErrorView {
                    message: undefined_read(name.lexeme@),
                    line: name.line,
                }),
            },
    {
        self.environment.get(self.scope, name)
    }

    /// Stores a value in a variable that the code in hand sees.
    pub(crate) fn write(&mut self, name: &Token, value: &Literal) -> (result: Result<(), RuntimeError>)
        ensures
            final(self)@ == (State {
                scopes: assigned(old(self)@.scopes, old(self)@.scope as int, name.lexeme@, value@),
                ..old(self)@
            }),
            match holder(old(self)@.scopes, old(self)@.scope as int, name.lexeme@) {
                Some(_) => result is Ok,
                None => result matches Err(error) && error@ == (RuntimeErrorView {
                    message: undefined_write(name.lexeme@),
                    line: name.line,
                }),
            },
    {
        self.environment.assign(self.scope, name, value)
    }

    /// Binds a name in the current scope.
    pub(crate) fn define(&mut self, name: &Token, value: Literal)
        ensures
            final(self)@ == (State {
                scopes: defined(old(self)@.scopes, old(self)@.scope as int, name.lexeme@, value@),
                ..old(self)@
            }),
    {
        self.environment.define(self.scope, name.lexeme.clone(), Some(value));
    }

    /// Adds an empty scope inside `enclosing`.
    pub(crate) fn open_scope(&mut self, enclosing: usize) -> (scope: usize)
        ensures
            scope == old(self)@.scopes.len(),
            final(self)@ == (State {
                scopes: old(self)@.scopes.push(fresh(old(self)@.scopes, enclosing)),
                ..old(self)@
            }),
    {
        self.environment.from_existing(enclosing)
    }

    /// Enters a block: its statements become the topmost work, over the frame
    /// `last` that ends it, and `scope` becomes the current scope.
    pub fn execute_block(&mut self, stmts: Vec<Stmt>, environment: usize, last: Frame)
        ensures
            final(self)@ == entered(old(self)@, models(stmts@), environment, last@),
    {
        let mut rest = stmts;
        let ghost all = models(rest@);
        self.push_frame(last);
        self.scope = environment;
        loop
            invariant
                all == models(stmts@),
                self@ == (State { frames: self@.frames, scope: environment, ..old(self)@ }),
                scheduled(old(self)@.frames.push(last@), all) == scheduled(self@.frames, models(rest@)),
            decreases rest.len(),
        {
            let ghost before = self@.frames;
            let ghost left = models(rest@);
            match rest.pop() {
                Some(statement) => {
                    self.frames.push(Frame::Execute(statement));
                    proof {
                        assert(models(rest@) =~= left.drop_last());
                        assert(self@.frames =~= before.push(FrameView::Execute(left.last())));
                    }
                },
                None => {
                    proof {
                        assert(models(rest@).len() == 0);
                    }
                    return ;
                },
            }
        }
    }

    /// Records a function declared in the current scope and returns its index.
    pub(crate) fn declare(&mut self, declaration: Stmt) -> (index: usize)
        ensures
            index == old(self)@.functions.len(),
            final(self)@ == (State {
                functions: old(self)@.functions.push(
                    FunctionView { declaration: declaration@, closure: old(self)@.scope },
                ),
                scopes: marked(old(self)@.scopes, old(self)@.scope as int),
                ..old(self)@
            }),
    {
        let ghost before = self@;
        let index = self.functions.len();
        let function = RloxFunction::new(declaration, self.scope);
        self.environment.capture(self.scope);
        self.functions.push(function);
        proof {
            assert(self@.functions =~= before.functions.push(function@));
        }
        index
    }

    /// A copy of the function at `index`.
    pub(crate) fn function(&self, index: usize) -> (function: Option<RloxFunction>)
        ensures
            match function {
                Some(function) => index < self@.functions.len() && function@ == self@.functions[index as int],
                None => index >= self@.functions.len(),
            },
    {
        if index >= self.functions.len() {
            return None;
        }
        Some(self.functions[index].clone())
    }

    /// Takes the callee and its `count` arguments off the values.
    pub(crate) fn take_call(&mut self, count: usize) -> (call: Option<(Literal, Vec<Literal>)>)
        ensures
            match call {
                Some((callee, arguments)) => {
                    let base = old(self)@.values.len() - count - 1;
                    &&& old(self)@.values.len() > count
                    &&& callee@ == old(self)@.values[base]
                    &&& views(arguments@) == old(self)@.values.subrange(
                        base + 1,
                        old(self)@.values.len() as int,
                    )
                    &&& final(self)@ == (State { values: old(self)@.values.subrange(0, base), ..old(self)@ })
                },
                None => old(self)@.values.len() <= count && final(self)@ == old(self)@,
            },
    {
        let ghost before = self@;
        let height = self.values.len();
        if height <= count {
            return None;
        }
        let base = height - count - 1;
        let arguments = self.values.split_off(base + 1);
        match self.values.pop() {
            Some(callee) => {
                proof {
                    assert(views(arguments@) =~= before.values.subrange(base + 1, height as int));
                    assert(self@.values =~= before.values.subrange(0, base as int));
                }
                Some((callee, arguments))
            },
            None => None,
        }
    }

    /// Binds the parameters to the arguments in `scope`.
    pub(crate) fn bind(&mut self, scope: usize, parameters: &Vec<Token>, arguments: &Vec<Literal>)
        requires
            parameters.len() == arguments.len(),
        ensures
            final(self)@ == (State {
                scopes: bound(
                    old(self)@.scopes,
                    scope as int,
                    views(parameters@),
                    views(arguments@),
                    parameters.len() as nat,
                ),
                ..old(self)@
            }),
    {
        let mut i: usize = 0;
        while i < parameters.len()
            invariant
                i <= parameters.len(),
                parameters.len() == arguments.len(),
                self@ == (State {
                    scopes: bound(
                        old(self)@.scopes,
                        scope as int,
                        views(parameters@),
                        views(arguments@),
                        i as nat,
                    ),
                    ..old(self)@
                }),
            decreases parameters.len() - i,
        {
            self.environment.define(scope, parameters[i].lexeme.clone(), Some(arguments[i].clone()));
            i += 1;
        }
    }

    /// Drops the work from the top down to the nearest end of a function body
    /// or of a top-level statement, and returns that frame.
    pub(crate) fn unwind(&mut self) -> (target: Option<Frame>)
        ensures
            final(self)@ == (State { frames: unwound(old(self)@.frames).0, ..old(self)@ }),
            match target {
                Some(frame) => unwound(old(self)@.frames).1 == Some(frame@),
                None => unwound(old(self)@.frames).1 is None,
            },
    {
        loop
            invariant
                self@ == (State { frames: self@.frames, ..old(self)@ }),
                unwound(self@.frames) == unwound(old(self)@.frames),
            decreases self@.frames.len(),
        {
            let ghost before = self@.frames;
            match self.frames.pop() {
                Some(frame) => {
                    proof {
                        assert(self@.frames =~= before.drop_last());
                    }
                    match frame {
                        Frame::Finish(_, _) => {
                            return Some(frame);
                        },
                        Frame::Boundary => {
                            return Some(frame);
                        },
                        _ => {},
                    }
                },
                None => {
                    return None;
                },
            }
        }
    }

    /// The number of values.
    pub(crate) fn height(&self) -> (height: usize)
        ensures
            height == self@.values.len(),
    {
        self.values.len()
    }

    /// Drops all values.
    pub(crate) fn clear_values(&mut self)
        ensures
            final(self)@ == (State { values: Seq::empty(), ..old(self)@ }),
    {
        self.values.clear();
        proof {
            assert(self@.values =~= Seq::empty());
        }
    }
}

} // verus!
