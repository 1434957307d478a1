use vstd::prelude::*;
use vstd::string::StringExecFns;
use crate::error::push_decimal;
use crate::expr::{Expr, ExprView};
use crate::frame::{Frame, FrameView};
use crate::host::{Action, Reply, Request, RuntimeError};
use crate::interpreter::Interpreter;
use crate::literal::{Callable, Literal, Number, TCallable};
use crate::semantics;
use crate::semantics::{State, Stepped};
use crate::soundness::{lemma_sound_replied, lemma_sound_step, sound};
use crate::stmt::Stmt;
use crate::token::{Token, views};
use crate::token_type::TokenType;

verus! {

/// What a step left behind and what it told the host, as one value.
pub open spec fn stepped(interpreter: Interpreter, action: Action) -> Stepped {
    Stepped { state: interpreter@, action: action@ }
}

impl Interpreter {
    /// Takes one step.
    pub fn step(&mut self) -> (action: Action)
        ensures
            stepped(*final(self), action) == semantics::step(old(self)@),
            sound(old(self)@) ==> sound(final(self)@),
    {
        let action = match self.pending() {
            Some(request) => Action::Ask(request),
            None => match self.pop_frame() {
                Some(frame) => self.resume(frame),
                None => Action::Done,
            },
        };
        proof {
            self.lemma_fits();
            if sound(old(self)@) {
                lemma_sound_step(old(self)@);
            }
        }
        action
    }

    /// Steps until there is something for the host to do, but no more than
    /// `budget` times.
    pub fn run(&mut self, budget: usize) -> (action: Action)
        ensures
            stepped(*final(self), action) == semantics::ran(old(self)@, budget as nat),
            sound(old(self)@) ==> sound(final(self)@),
    {
        let mut left: usize = budget;
        while left > 0
            invariant
                semantics::ran(old(self)@, budget as nat) == semantics::ran(self@, left as nat),
                sound(old(self)@) ==> sound(self@),
            decreases left,
        {
            let action = self.step();
            match action {
                Action::Continue => {},
                _ => {
                    return action;
                },
            }
            left -= 1;
        }
        Action::Continue
    }

    /// Takes the host's reply to the pending request.
    pub fn reply(&mut self, reply: Reply) -> (action: Action)
        ensures
            stepped(*final(self), action) == semantics::replied(old(self)@, reply@),
            sound(old(self)@) ==> sound(final(self)@),
    {
        proof {
            if sound(self@) {
                lemma_sound_replied(self@, reply@);
            }
        }
        match self.pending() {
            None => Action::Continue,
            Some(request) => {
                let fits = match &request {
                    Request::Binary(operator, _, _) => {
                        let arithmetic = match operator {
                            TokenType::Plus | TokenType::Minus | TokenType::Slash | TokenType::Star => true,
                            _ => false,
                        };
                        match &reply {
                            Reply::Number(_) => arithmetic,
                            Reply::Bool(_) => !arithmetic,
                            Reply::Text(_) => false,
                        }
                    },
                    Request::Negate(_) => match &reply {
                        Reply::Number(_) => true,
                        _ => false,
                    },
                    Request::Format(_) => match &reply {
                        Reply::Text(_) => true,
                        _ => false,
                    },
                    Request::Clock => match &reply {
                        Reply::Number(_) => true,
                        _ => false,
                    },
                };
                if !fits {
                    return Action::Ask(request);
                }
                self.settle_pending();
                match reply {
                    Reply::Number(bits) => {
                        self.push_value(Literal::Number(Number::Bits(bits)));
                        Action::Continue
                    },
                    Reply::Bool(value) => {
                        self.push_value(Literal::Bool(value));
                        Action::Continue
                    },
                    Reply::Text(text) => Action::Print(text),
                }
            },
        }
    }

    /// Runs a frame that was taken off the work.
    fn resume(&mut self, frame: Frame) -> (action: Action)
        ensures
            stepped(*final(self), action) == semantics::resumed(old(self)@, frame@),
    {
        match frame {
            Frame::Execute(statement) => self.execute(statement),
            Frame::Evaluate(expression) => self.evaluate(expression),
            Frame::Binary(operator) => {
                let right = self.pop_value();
                let left = self.pop_value();
                self.settle(Self::handle_binary(left, &operator, right))
            },
            Frame::Unary(operator) => {
                let right = self.pop_value();
                self.settle(Self::handle_unary(&operator, right))
            },
            Frame::Logical(operator, right) => {
                let left = self.peek_value();
                let is_or = match operator.token_type {
                    TokenType::Or => true,
                    _ => false,
                };
                if is_or == Self::is_truthy(&left) {
                    Action::Continue
                } else {
                    self.pop_value();
                    self.push_frame(Frame::Evaluate(right));
                    Action::Continue
                }
            },
            Frame::Assign(name) => {
                let value = self.peek_value();
                match self.write(&name, &value) {
                    Ok(_) => Action::Continue,
                    Err(error) => self.fail(error),
                }
            },
            Frame::Invoke(paren, count) => self.invoke(&paren, count),
            Frame::Discard => {
                self.pop_value();
                Action::Continue
            },
            Frame::Print => {
                let value = self.pop_value();
                match value {
                    Literal::Number(number) => self.ask(Request::Format(number)),
                    value => match Literal::stringify(value) {
                        Some(text) => Action::Print(text),
                        None => Action::Continue,
                    },
                }
            },
            Frame::Define(name) => {
                let value = self.pop_value();
                self.define(&name, value);
                Action::Continue
            },
            Frame::Branch(then_branch, else_branch) => {
                let condition = self.pop_value();
                if Self::is_truthy(&condition) {
                    self.push_frame(Frame::Execute(then_branch));
                } else {
                    match else_branch {
                        Some(branch) => {
                            self.push_frame(Frame::Execute(branch));
                        },
                        None => {},
                    }
                }
                Action::Continue
            },
            Frame::Loop(condition, body) => {
                let value = self.pop_value();
                if Self::is_truthy(&value) {
                    self.push_frame(Frame::Loop(condition.clone(), body.clone()));
                    self.push_frame(Frame::Evaluate(condition));
                    self.push_frame(Frame::Execute(body));
                }
                Action::Continue
            },
            Frame::Leave(scope) => {
                self.restore(scope);
                Action::Continue
            },
            Frame::Finish(scope, base) => {
                self.restore(scope);
                self.truncate_values(base);
                self.push_value(Literal::Null);
                Action::Continue
            },
            Frame::Return => {
                let value = self.pop_value();
                self.leave(value)
            },
            Frame::Boundary => Action::Continue,
        }
    }

    /// Returns from the function in hand with `value`.
    fn leave(&mut self, value: Literal) -> (action: Action)
        ensures
            stepped(*final(self), action) == semantics::returned(old(self)@, value@),
    {
        match self.unwind() {
            Some(Frame::Finish(scope, base)) => {
                self.restore(scope);
                self.truncate_values(base);
                self.push_value(value);
            },
            _ => {
                self.restore(0);
                self.clear_values();
            },
        }
        Action::Continue
    }

    /// Begins the evaluation of an expression.
    pub fn accept_expression(&mut self, expression: Expr) -> (action: Action)
        ensures
            stepped(*final(self), action) == semantics::evaluate(old(self)@, expression@),
    {
        match expression {
            Expr::Binary(left, operator, right) => {
                self.push_frame(Frame::Binary(operator));
                self.push_frame(Frame::Evaluate(*right));
                self.push_frame(Frame::Evaluate(*left));
                Action::Continue
            },
            Expr::Unary(operator, right) => {
                self.push_frame(Frame::Unary(operator));
                self.push_frame(Frame::Evaluate(*right));
                Action::Continue
            },
            Expr::Literal(literal) => {
                self.push_value(literal);
                Action::Continue
            },
            Expr::Grouping(inner) => {
                self.push_frame(Frame::Evaluate(*inner));
                Action::Continue
            },
            Expr::Variable(name) => match self.read(&name) {
                Ok(value) => {
                    self.push_value(value);
                    Action::Continue
                },
                Err(error) => self.fail(error),
            },
            Expr::Assign(name, value) => {
                self.push_frame(Frame::Assign(name));
                self.push_frame(Frame::Evaluate(*value));
                Action::Continue
            },
            Expr::Logical(left, operator, right) => {
                self.push_frame(Frame::Logical(operator, *right));
                self.push_frame(Frame::Evaluate(*left));
                Action::Continue
            },
            Expr::Call(callee, paren, arguments) => {
                proof {
                    Expr::lemma_call(callee, paren, arguments);
                }
                let mut rest = arguments;
                let ghost all = views(rest@);
                let ghost whole = ExprView::Call(Box::new(callee@), paren@, all);
                let count = rest.len();
                self.push_frame(Frame::Invoke(paren, count));
                let ghost start = self@.frames;
                loop
                    invariant
                        expression@ == whole,
                        whole == ExprView::Call(Box::new(callee@), paren@, all),
                        count == all.len(),
                        start == old(self)@.frames.push(FrameView::Invoke(paren@, count)),
                        self@ == (State { frames: self@.frames, ..old(self)@ }),
                        semantics::queued(start, all) == semantics::queued(self@.frames, views(rest@)),
                    decreases rest.len(),
                {
                    let ghost left = views(rest@);
                    match rest.pop() {
                        Some(argument) => {
                            self.push_frame(Frame::Evaluate(argument));
                            proof {
                                assert(views(rest@) =~= left.drop_last());
                            }
                        },
                        None => {
                            proof {
                                assert(views(rest@).len() == 0);
                            }
                            self.push_frame(Frame::Evaluate(*callee));
                            proof {
                                assert(stepped(*self, Action::Continue) == semantics::evaluate(old(self)@, whole));
                            }
                            return Action::Continue;
                        },
                    }
                }
            },
        }
    }

    /// Begins the execution of a statement.
    pub fn accept_statement(&mut self, statement: Stmt) -> (action: Action)
        ensures
            stepped(*final(self), action) == semantics::execute(old(self)@, statement@),
    {
        match statement {
            Stmt::Expr(expression) => {
                self.push_frame(Frame::Discard);
                self.push_frame(Frame::Evaluate(expression));
                Action::Continue
            },
            Stmt::Print(expression) => {
                self.push_frame(Frame::Print);
                self.push_frame(Frame::Evaluate(expression));
                Action::Continue
            },
            Stmt::Var(name, initializer) => {
                match initializer {
                    Some(expression) => {
                        self.push_frame(Frame::Define(name));
                        self.push_frame(Frame::Evaluate(expression));
                    },
                    None => {
                        self.define(&name, Literal::Null);
                    },
                }
                Action::Continue
            },
            Stmt::Block(statements) => {
                proof {
                    Stmt::lemma_block(statements);
                }
                let previous = self.scope();
                let scope = self.open_scope(previous);
                self.execute_block(statements, scope, Frame::Leave(previous));
                Action::Continue
            },
            Stmt::If(condition, then_branch, else_branch) => {
                let else_branch = match else_branch {
                    Some(branch) => Some(*branch),
                    None => None,
                };
                self.push_frame(Frame::Branch(*then_branch, else_branch));
                self.push_frame(Frame::Evaluate(condition));
                Action::Continue
            },
            Stmt::While(condition, body) => {
                self.push_frame(Frame::Loop(condition.clone(), *body));
                self.push_frame(Frame::Evaluate(condition));
                Action::Continue
            },
            Stmt::Function(name, parameters, body) => {
                let token = name.clone();
                let index = self.declare(Stmt::Function(name, parameters, body));
                self.define(&token, Literal::Callable(Callable::Function(index)));
                Action::Continue
            },
            Stmt::Return(_, value) => match value {
                Some(expression) => {
                    self.push_frame(Frame::Return);
                    self.push_frame(Frame::Evaluate(expression));
                    Action::Continue
                },
                None => self.leave(Literal::Null),
            },
        }
    }

    fn evaluate(&mut self, expression: Expr) -> (action: Action)
        ensures
            stepped(*final(self), action) == semantics::evaluate(old(self)@, expression@),
    {
        self.accept_expression(expression)
    }

    fn execute(&mut self, statement: Stmt) -> (action: Action)
        ensures
            stepped(*final(self), action) == semantics::execute(old(self)@, statement@),
    {
        self.accept_statement(statement)
    }

    /// The error for a call with the wrong number of arguments.
    fn arity_error(expected: usize, given: usize, paren: &Token) -> (error: RuntimeError)
        ensures
            error@ == semantics::arity_error(expected as nat, given as nat, paren@),
    {
        let mut message = String::from_str("Expected ");
        push_decimal(&mut message, expected);
        message.append("  arguments, but got ");
        push_decimal(&mut message, given);
        message.append(".");
        RuntimeError { message, line: paren.line }
    }

    /// The error for a call of a value that cannot be called.
    fn not_callable(paren: &Token) -> (error: RuntimeError)
        ensures
            error@ == semantics::not_callable(paren@),
    {
        RuntimeError { message: String::from_str("Can only call functions and classes."), line: paren.line }
    }

    /// Calls the value that lies under `count` arguments.
    fn invoke(&mut self, paren: &Token, count: usize) -> (action: Action)
        ensures
            stepped(*final(self), action) == semantics::invoked(old(self)@, paren@, count),
    {
        match self.take_call(count) {
            None => self.fail(Self::not_callable(paren)),
            Some((callee, arguments)) => {
                assert(views(arguments@).len() == arguments.len());
                match callee {
                    Literal::Callable(Callable::Native(clock)) => {
                        if count != clock.arity() {
                            self.fail(Self::arity_error(clock.arity(), count, paren))
                        } else {
                            clock.call(self, arguments)
                        }
                    },
                    Literal::Callable(Callable::Function(index)) => match self.function(index) {
                        None => self.fail(Self::not_callable(paren)),
                        Some(function) => {
                            if count != function.arity() {
                                self.fail(Self::arity_error(function.arity(), count, paren))
                            } else {
                                function.call(self, arguments)
                            }
                        },
                    },
                    _ => self.fail(Self::not_callable(paren)),
                }
            },
        }
    }
}

} // verus!
