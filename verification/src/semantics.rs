use vstd::prelude::*;
use crate::environment::{
    ScopeView, assigned, defined, fresh, holder, lookup, marked, released, undefined_read, undefined_write,
};
use crate::error::decimal;
use crate::expr::ExprView;
use crate::frame::FrameView;
use crate::host::{ActionView, OutcomeView, ReplyView, RequestView, RuntimeErrorView};
use crate::literal::{Callable, LiteralView, NumberView};
use crate::rlox_function::{FunctionView, body_of, parameters_of};
use crate::stmt::StmtView;
use crate::token::TokenView;
use crate::token_type::TokenType;

verus! {

/// Truthiness: `nil` and `false` are falsy, every other value is truthy.
pub open spec fn truthy(value: LiteralView) -> bool {
    match value {
        LiteralView::Null => false,
        LiteralView::Bool(b) => b,
        _ => true,
    }
}

/// The operators that are defined on two numbers.
pub open spec fn numeric_operator(operator: TokenType) -> bool {
    arithmetic(operator) || comparing(operator)
}

/// The operators on two numbers that give a number.
pub open spec fn arithmetic(operator: TokenType) -> bool {
    operator == TokenType::Plus || operator == TokenType::Minus || operator == TokenType::Slash
        || operator == TokenType::Star
}

/// The operators on two numbers that give a truth value.
pub open spec fn comparing(operator: TokenType) -> bool {
    operator == TokenType::Greater || operator == TokenType::GreaterEqual || operator
        == TokenType::Less || operator == TokenType::LessEqual || operator == TokenType::BangEqual
        || operator == TokenType::EqualEqual
}

/// Equality of two values of which at most one is a number: the same variant
/// and the same content. Two numbers are compared by the host.
pub open spec fn equal_values(left: LiteralView, right: LiteralView) -> Option<bool> {
    if left is Number && right is Number {
        None
    } else {
        Some(left == right)
    }
}

/// A type error laid to `operator`.
pub open spec fn type_error(message: Seq<char>, operator: TokenView) -> OutcomeView {
    OutcomeView::Fail(RuntimeErrorView { message, line: operator.line })
}

/// A binary operator applied to two values.
///
/// Two numbers under one of the ten numeric operators go to the host. Two
/// strings are joined by `+`. `==` and `!=` compare any other pair and never
/// fail. Whatever is left is a type error.
pub open spec fn binary_outcome(left: LiteralView, operator: TokenView, right: LiteralView) -> OutcomeView {
    match (left, right) {
        (LiteralView::Number(a), LiteralView::Number(b)) => {
            if numeric_operator(operator.token_type) {
                OutcomeView::Ask(RequestView::Binary(operator.token_type, a, b))
            } else {
                type_error("Operands must be numbers"@, operator)
            }
        },
        _ => {
            if operator.token_type == TokenType::EqualEqual {
                OutcomeView::Value(LiteralView::Bool(left == right))
            } else if operator.token_type == TokenType::BangEqual {
                OutcomeView::Value(LiteralView::Bool(left != right))
            } else if operator.token_type == TokenType::Plus && left is String && right is String {
                OutcomeView::Value(LiteralView::String(left->String_0 + right->String_0))
            } else {
                type_error("Operands must be two numbers or two strings"@, operator)
            }
        },
    }
}

/// A unary operator applied to a value: `-` sends a number to the host, `!`
/// negates the truthiness of any value, and `-` on anything else is a type error.
pub open spec fn unary_outcome(operator: TokenView, right: LiteralView) -> OutcomeView {
    if operator.token_type == TokenType::Minus && right is Number {
        OutcomeView::Ask(RequestView::Negate(right->Number_0))
    } else if operator.token_type == TokenType::Bang {
        OutcomeView::Value(LiteralView::Bool(!truthy(right)))
    } else {
        type_error("Operand must be a number"@, operator)
    }
}

/// The text that `print` writes for a value that is no number. The text of a
/// number is the host's to give.
pub open spec fn stringified(value: LiteralView) -> Option<Seq<char>> {
    match value {
        LiteralView::Null => Some("nil"@),
        LiteralView::String(text) => Some(text),
        LiteralView::Number(_) => None,
        LiteralView::Bool(b) => Some(
            if b {
                "true"@
            } else {
                "false"@
            },
        ),
        LiteralView::Callable(Callable::Native(_)) => Some("<native fn>"@),
        LiteralView::Callable(Callable::Function(_)) => Some("<fn>"@),
    }
}

/// The state of an interpreter.
pub struct State {
    /// The scopes; scope 0 is the global one.
    pub scopes: Seq<ScopeView>,
    /// The scope that the code in hand runs in.
    pub scope: usize,
    /// The functions declared so far; a function value names one by its index.
    pub functions: Seq<FunctionView>,
    /// The pending work; the last frame is the next to run.
    pub frames: Seq<FrameView>,
    /// The intermediate results; the last value is the topmost.
    pub values: Seq<LiteralView>,
    /// The request that the host has not answered yet.
    pub pending: Option<RequestView>,
}

/// What one step comes to: the state after it and what the host is told.
pub struct Stepped {
    pub state: State,
    pub action: ActionView,
}

/// A step that tells the host nothing.
pub open spec fn proceed(state: State) -> Stepped {
    Stepped { state, action: ActionView::Continue }
}

/// The state back in `scope` at the end of a block or of a call: the scopes
/// that nothing needs any more are given up.
pub open spec fn back(state: State, scope: usize) -> State {
    State { scope, scopes: released(state.scopes, scope as int), ..state }
}

/// A runtime error: all pending work and all intermediate results are
/// dropped, and the global scope is the current one again.
pub open spec fn abort(state: State, error: RuntimeErrorView) -> Stepped {
    Stepped {
        state: back(State { frames: Seq::empty(), values: Seq::empty(), pending: None, ..state }, 0),
        action: ActionView::Fail(error),
    }
}

/// A request to the host, which stays pending until it is answered.
pub open spec fn ask(state: State, request: RequestView) -> Stepped {
    Stepped { state: State { pending: Some(request), ..state }, action: ActionView::Ask(request) }
}

/// The state with `frame` on top of the work.
pub open spec fn with_frame(state: State, frame: FrameView) -> State {
    State { frames: state.frames.push(frame), ..state }
}

/// The state with `value` on top of the values.
pub open spec fn with_value(state: State, value: LiteralView) -> State {
    State { values: state.values.push(value), ..state }
}

/// The topmost value; `nil` where there is none.
pub open spec fn top(values: Seq<LiteralView>) -> LiteralView {
    if values.len() > 0 {
        values.last()
    } else {
        LiteralView::Null
    }
}

/// The values under the topmost.
pub open spec fn popped(values: Seq<LiteralView>) -> Seq<LiteralView> {
    if values.len() > 0 {
        values.drop_last()
    } else {
        values
    }
}

/// The state without its topmost value.
pub open spec fn without_value(state: State) -> State {
    State { values: popped(state.values), ..state }
}

/// The values cut back to `height`; fewer values stay as they are.
pub open spec fn truncated(values: Seq<LiteralView>, height: usize) -> Seq<LiteralView> {
    if height <= values.len() {
        values.subrange(0, height as int)
    } else {
        values
    }
}

/// The frames with `statements` on top, the first of them topmost.
pub open spec fn scheduled(frames: Seq<FrameView>, statements: Seq<StmtView>) -> Seq<FrameView>
    decreases statements.len(),
{
    if statements.len() == 0 {
        frames
    } else {
        scheduled(frames.push(FrameView::Execute(statements.last())), statements.drop_last())
    }
}

/// The frames with `statements` on top as top-level statements, the first
/// of them topmost and each with its boundary under it.
pub open spec fn booked(frames: Seq<FrameView>, statements: Seq<StmtView>) -> Seq<FrameView>
    decreases statements.len(),
{
    if statements.len() == 0 {
        frames
    } else {
        booked(
            frames.push(FrameView::Boundary).push(FrameView::Execute(statements.last())),
            statements.drop_last(),
        )
    }
}

/// The frames with the evaluation of `arguments` on top, the first of them topmost.
pub open spec fn queued(frames: Seq<FrameView>, arguments: Seq<ExprView>) -> Seq<FrameView>
    decreases arguments.len(),
{
    if arguments.len() == 0 {
        frames
    } else {
        queued(frames.push(FrameView::Evaluate(arguments.last())), arguments.drop_last())
    }
}

/// The scopes after the first `count` parameters are bound in `scope` to the
/// arguments at their positions.
pub open spec fn bound(
    scopes: Seq<ScopeView>,
    scope: int,
    parameters: Seq<TokenView>,
    arguments: Seq<LiteralView>,
    count: nat,
) -> Seq<ScopeView>
    decreases count,
{
    if count == 0 {
        scopes
    } else {
        defined(
            bound(scopes, scope, parameters, arguments, (count - 1) as nat),
            scope,
            parameters[count - 1].lexeme,
            arguments[count - 1],
        )
    }
}

/// What a `return` finds when it drops the pending work from the top: the
/// frames under the nearest end of a function body or of a top-level
/// statement, and that frame; no frames and none where there is none.
pub open spec fn unwound(frames: Seq<FrameView>) -> (Seq<FrameView>, Option<FrameView>)
    decreases frames.len(),
{
    if frames.len() == 0 {
        (frames, None)
    } else {
        match frames.last() {
            FrameView::Finish(_, _) => (frames.drop_last(), Some(frames.last())),
            FrameView::Boundary => (frames.drop_last(), Some(frames.last())),
            _ => unwound(frames.drop_last()),
        }
    }
}

/// A `return` with `value`. Inside a function the call ends with the value as
/// its result, in the caller's scope. Outside of any function the top-level
/// statement ends.
pub open spec fn returned(state: State, value: LiteralView) -> Stepped {
    let (frames, target) = unwound(state.frames);
    match target {
        Some(FrameView::Finish(scope, base)) => proceed(
            back(State { frames, values: truncated(state.values, base).push(value), ..state }, scope),
        ),
        _ => proceed(back(State { frames, values: Seq::empty(), ..state }, 0)),
    }
}

/// The error for a name that no visible scope binds.
pub open spec fn undefined(message: Seq<char>, name: TokenView) -> RuntimeErrorView {
    RuntimeErrorView { message, line: name.line }
}

/// The evaluation of an expression, begun.
pub open spec fn evaluate(state: State, expression: ExprView) -> Stepped {
    match expression {
        ExprView::Literal(value) => proceed(with_value(state, value)),
        ExprView::Variable(name) => match lookup(state.scopes, state.scope as int, name.lexeme) {
            Some(value) => proceed(with_value(state, value)),
            None => abort(state, undefined(undefined_read(name.lexeme), name)),
        },
        ExprView::Grouping(inner) => proceed(with_frame(state, FrameView::Evaluate(*inner))),
        ExprView::Unary(operator, right) => proceed(
            with_frame(with_frame(state, FrameView::Unary(operator)), FrameView::Evaluate(*right)),
        ),
        ExprView::Binary(left, operator, right) => proceed(
            with_frame(
                with_frame(with_frame(state, FrameView::Binary(operator)), FrameView::Evaluate(*right)),
                FrameView::Evaluate(*left),
            ),
        ),
        ExprView::Logical(left, operator, right) => proceed(
            with_frame(with_frame(state, FrameView::Logical(operator, *right)), FrameView::Evaluate(*left)),
        ),
        ExprView::Assign(name, value) => proceed(
            with_frame(with_frame(state, FrameView::Assign(name)), FrameView::Evaluate(*value)),
        ),
        ExprView::Call(callee, paren, arguments) => proceed(
            State {
                frames: queued(
                    state.frames.push(FrameView::Invoke(paren, arguments.len() as usize)),
                    arguments,
                ).push(FrameView::Evaluate(*callee)),
                ..state
            },
        ),
    }
}

/// The state on entering a block of `statements` that runs in `scope` and
/// ends with `last`.
pub open spec fn entered(state: State, statements: Seq<StmtView>, scope: usize, last: FrameView) -> State {
    State { scope, frames: scheduled(state.frames.push(last), statements), ..state }
}

/// The execution of a statement, begun.
pub open spec fn execute(state: State, statement: StmtView) -> Stepped {
    match statement {
        StmtView::Expr(expression) => proceed(
            with_frame(with_frame(state, FrameView::Discard), FrameView::Evaluate(expression)),
        ),
        StmtView::Print(expression) => proceed(
            with_frame(with_frame(state, FrameView::Print), FrameView::Evaluate(expression)),
        ),
        StmtView::Var(name, initializer) => match initializer {
            Some(expression) => proceed(
                with_frame(with_frame(state, FrameView::Define(name)), FrameView::Evaluate(expression)),
            ),
            None => proceed(
                State {
                    scopes: defined(state.scopes, state.scope as int, name.lexeme, LiteralView::Null),
                    ..state
                },
            ),
        },
        StmtView::Block(statements) => proceed(
            entered(
                State { scopes: state.scopes.push(fresh(state.scopes, state.scope)), ..state },
                statements,
                state.scopes.len() as usize,
                FrameView::Leave(state.scope),
            ),
        ),
        StmtView::If(condition, then_branch, else_branch) => proceed(
            with_frame(
                with_frame(
                    state,
                    FrameView::Branch(
                        *then_branch,
                        match else_branch {
                            Some(branch) => Some(*branch),
                            None => None,
                        },
                    ),
                ),
                FrameView::Evaluate(condition),
            ),
        ),
        StmtView::While(condition, body) => proceed(
            with_frame(with_frame(state, FrameView::Loop(condition, *body)), FrameView::Evaluate(condition)),
        ),
        StmtView::Function(name, _, _) => proceed(
            State {
                functions: state.functions.push(
                    FunctionView { declaration: statement, closure: state.scope },
                ),
                scopes: defined(
                    marked(state.scopes, state.scope as int),
                    state.scope as int,
                    name.lexeme,
                    LiteralView::Callable(Callable::Function(state.functions.len() as usize)),
                ),
                ..state
            },
        ),
        StmtView::Return(_, value) => match value {
            Some(expression) => proceed(
                with_frame(with_frame(state, FrameView::Return), FrameView::Evaluate(expression)),
            ),
            None => returned(state, LiteralView::Null),
        },
    }
}

/// What an operator application does to the state, its operands taken.
pub open spec fn settled(state: State, outcome: OutcomeView) -> Stepped {
    match outcome {
        OutcomeView::Value(value) => proceed(with_value(state, value)),
        OutcomeView::Ask(request) => ask(state, request),
        OutcomeView::Fail(error) => abort(state, error),
    }
}

/// The message for a call with `given` arguments of a callable that takes `expected`.
pub open spec fn arity_message(expected: nat, given: nat) -> Seq<char> {
    "Expected "@ + decimal(expected) + "  arguments, but got "@ + decimal(given) + "."@
}

/// The error for a call of a value that cannot be called.
pub open spec fn not_callable(paren: TokenView) -> RuntimeErrorView {
    RuntimeErrorView { message: "Can only call functions and classes."@, line: paren.line }
}

/// What calling the native clock does: the host is asked for the time.
pub open spec fn called_clock(state: State) -> Stepped {
    ask(state, RequestView::Clock)
}

/// What calling a user function does, the callee and the arguments taken off
/// the values: the body runs in a new scope inside the scope of the
/// declaration, with the parameters bound to the arguments in order, and
/// over a frame that ends the call in the caller's scope.
pub open spec fn called_function(function: FunctionView, state: State, arguments: Seq<LiteralView>) -> Stepped {
    let scope = state.scopes.len() as usize;
    let parameters = parameters_of(function.declaration);
    let scopes = bound(
        state.scopes.push(fresh(state.scopes, function.closure)),
        scope as int,
        parameters,
        arguments,
        parameters.len(),
    );
    proceed(
        entered(
            State { scopes, ..state },
            body_of(function.declaration),
            scope,
            FrameView::Finish(state.scope, state.values.len() as usize),
        ),
    )
}

/// The error for a call with `given` arguments of a callable that takes `expected`.
pub open spec fn arity_error(expected: nat, given: nat, paren: TokenView) -> RuntimeErrorView {
    RuntimeErrorView { message: arity_message(expected, given), line: paren.line }
}

/// A call of the value that lies under `count` arguments on the value stack.
///
/// The value must be callable and take exactly `count` arguments.
pub open spec fn invoked(state: State, paren: TokenView, count: usize) -> Stepped {
    if state.values.len() <= count {
        abort(state, not_callable(paren))
    } else {
        let base = state.values.len() - count - 1;
        let callee = state.values[base];
        let arguments = state.values.subrange(base + 1, state.values.len() as int);
        let rest = State { values: state.values.subrange(0, base), ..state };
        match callee {
            LiteralView::Callable(Callable::Native(_)) => {
                if count != 0 {
                    abort(state, arity_error(0, count as nat, paren))
                } else {
                    called_clock(rest)
                }
            },
            LiteralView::Callable(Callable::Function(index)) => {
                if index >= state.functions.len() {
                    abort(state, not_callable(paren))
                } else {
                    let function = state.functions[index as int];
                    let expected = parameters_of(function.declaration).len();
                    if count != expected {
                        abort(state, arity_error(expected, count as nat, paren))
                    } else {
                        called_function(function, rest, arguments)
                    }
                }
            },
            _ => abort(state, not_callable(paren)),
        }
    }
}

/// A frame that was taken off the work, run.
pub open spec fn resumed(state: State, frame: FrameView) -> Stepped {
    let value = top(state.values);
    let rest = without_value(state);
    match frame {
        FrameView::Binary(operator) => settled(
            without_value(rest),
            binary_outcome(top(rest.values), operator, value),
        ),
        FrameView::Unary(operator) => settled(rest, unary_outcome(operator, value)),
        FrameView::Logical(operator, right) => {
            if (operator.token_type == TokenType::Or) == truthy(value) {
                proceed(state)
            } else {
                proceed(with_frame(rest, FrameView::Evaluate(right)))
            }
        },
        FrameView::Assign(name) => match holder(state.scopes, state.scope as int, name.lexeme) {
            Some(_) => proceed(
                State { scopes: assigned(state.scopes, state.scope as int, name.lexeme, value), ..state },
            ),
            None => abort(state, undefined(undefined_write(name.lexeme), name)),
        },
        FrameView::Invoke(paren, count) => invoked(state, paren, count),
        FrameView::Discard => proceed(rest),
        FrameView::Print => match stringified(value) {
            Some(text) => Stepped { state: rest, action: ActionView::Print(text) },
            None => ask(rest, RequestView::Format(value->Number_0)),
        },
        FrameView::Define(name) => proceed(
            State { scopes: defined(state.scopes, state.scope as int, name.lexeme, value), ..rest },
        ),
        FrameView::Branch(then_branch, else_branch) => {
            if truthy(value) {
                proceed(with_frame(rest, FrameView::Execute(then_branch)))
            } else {
                match else_branch {
                    Some(branch) => proceed(with_frame(rest, FrameView::Execute(branch))),
                    None => proceed(rest),
                }
            }
        },
        FrameView::Loop(condition, body) => {
            if truthy(value) {
                proceed(
                    with_frame(
                        with_frame(
                            with_frame(rest, FrameView::Loop(condition, body)),
                            FrameView::Evaluate(condition),
                        ),
                        FrameView::Execute(body),
                    ),
                )
            } else {
                proceed(rest)
            }
        },
        FrameView::Leave(scope) => proceed(back(state, scope)),
        FrameView::Finish(scope, base) => proceed(
            back(State { values: truncated(state.values, base).push(LiteralView::Null), ..state }, scope),
        ),
        FrameView::Return => returned(rest, value),
        FrameView::Boundary => proceed(state),
        FrameView::Execute(statement) => execute(state, statement),
        FrameView::Evaluate(expression) => evaluate(state, expression),
    }
}

/// One step. While a request is pending the step repeats the request. With
/// no work left the interpreter is done. Else the topmost frame is taken
/// off and run.
pub open spec fn step(state: State) -> Stepped {
    match state.pending {
        Some(request) => Stepped { state, action: ActionView::Ask(request) },
        None => {
            if state.frames.len() == 0 {
                Stepped { state, action: ActionView::Done }
            } else {
                resumed(State { frames: state.frames.drop_last(), ..state }, state.frames.last())
            }
        },
    }
}

/// Whether `reply` answers `request`: a number answers arithmetic, a
/// negation and the clock; a truth value answers a comparison; text answers
/// a formatting.
pub open spec fn answers(request: RequestView, reply: ReplyView) -> bool {
    match request {
        RequestView::Binary(operator, _, _) => if arithmetic(operator) {
            reply is Number
        } else {
            reply is Bool
        },
        RequestView::Negate(_) => reply is Number,
        RequestView::Format(_) => reply is Text,
        RequestView::Clock => reply is Number,
    }
}

/// What the host's reply does. An answer to the pending request ends the
/// wait: a number or a truth value becomes the topmost value, text is
/// printed. Anything else changes nothing, and a pending request is repeated.
pub open spec fn replied(state: State, reply: ReplyView) -> Stepped {
    match state.pending {
        Some(request) => {
            if answers(request, reply) {
                let ready = State { pending: None, ..state };
                match reply {
                    ReplyView::Number(bits) => proceed(
                        with_value(ready, LiteralView::Number(NumberView::Bits(bits))),
                    ),
                    ReplyView::Bool(value) => proceed(with_value(ready, LiteralView::Bool(value))),
                    ReplyView::Text(text) => Stepped { state: ready, action: ActionView::Print(text) },
                }
            } else {
                Stepped { state, action: ActionView::Ask(request) }
            }
        },
        None => proceed(state),
    }
}

/// Steps up to `budget` times, up to the first step that tells the host
/// anything other than to continue.
pub open spec fn ran(state: State, budget: nat) -> Stepped
    decreases budget,
{
    if budget == 0 {
        proceed(state)
    } else {
        let one = step(state);
        if one.action is Continue {
            ran(one.state, (budget - 1) as nat)
        } else {
            one
        }
    }
}

/// Whether two values are of the same variant.
pub open spec fn same_variant(left: LiteralView, right: LiteralView) -> bool {
    ||| left is String && right is String
    ||| left is Number && right is Number
    ||| left is Bool && right is Bool
    ||| left is Null && right is Null
    ||| left is Callable && right is Callable
}

/// Values of different variants are never equal: `==` gives `false` and `!=`
/// gives `true`, whatever the values are.
pub proof fn lemma_variants_apart(left: LiteralView, operator: TokenView, right: LiteralView)
    requires
        !same_variant(left, right),
    ensures
        operator.token_type == TokenType::EqualEqual ==> binary_outcome(left, operator, right)
            == OutcomeView::Value(LiteralView::Bool(false)),
        operator.token_type == TokenType::BangEqual ==> binary_outcome(left, operator, right)
            == OutcomeView::Value(LiteralView::Bool(true)),
{
}

/// `==` and `!=` never fail. On two numbers they go to the host; on any other
/// pair `==` says whether the two are the same value and `!=` says the opposite.
pub proof fn lemma_equality_total(left: LiteralView, operator: TokenView, right: LiteralView)
    requires
        operator.token_type == TokenType::EqualEqual || operator.token_type == TokenType::BangEqual,
    ensures
        !(binary_outcome(left, operator, right) is Fail),
        left is Number && right is Number ==> binary_outcome(left, operator, right) == OutcomeView::Ask(
            RequestView::Binary(operator.token_type, left->Number_0, right->Number_0),
        ),
        !(left is Number && right is Number) ==> binary_outcome(left, operator, right) == OutcomeView::Value(
            LiteralView::Bool((left == right) == (operator.token_type == TokenType::EqualEqual)),
        ),
{
}

/// `+` joins two strings, and on a string and a number it is a type error.
pub proof fn lemma_plus_on_strings(left: Seq<char>, operator: TokenView, other: LiteralView)
    requires
        operator.token_type == TokenType::Plus,
    ensures
        other is String ==> binary_outcome(LiteralView::String(left), operator, other) == OutcomeView::Value(
            LiteralView::String(left + other->String_0),
        ),
        !(other is String) ==> binary_outcome(LiteralView::String(left), operator, other) == type_error(
            "Operands must be two numbers or two strings"@,
            operator,
        ),
        !(other is String) ==> binary_outcome(other, operator, LiteralView::String(left)) == type_error(
            "Operands must be two numbers or two strings"@,
            operator,
        ),
{
}

/// An arithmetic operator or a comparison wants two numbers: it hands them,
/// as they are, to the host, and fails on any other pair of operands.
pub proof fn lemma_numbers_only(left: LiteralView, operator: TokenView, right: LiteralView)
    requires
        numeric_operator(operator.token_type),
        operator.token_type != TokenType::Plus,
        operator.token_type != TokenType::EqualEqual,
        operator.token_type != TokenType::BangEqual,
    ensures
        left is Number && right is Number ==> binary_outcome(left, operator, right) == OutcomeView::Ask(
            RequestView::Binary(operator.token_type, left->Number_0, right->Number_0),
        ),
        !(left is Number && right is Number) ==> binary_outcome(left, operator, right) is Fail,
{
}

/// A call with a number of arguments other than the function's number of
/// parameters is a runtime error that names both numbers, and the function
/// does not run.
pub proof fn lemma_arity(state: State, paren: TokenView, count: usize, index: usize)
    requires
        state.values.len() > count,
        state.values[state.values.len() - count - 1] == LiteralView::Callable(Callable::Function(index)),
        index < state.functions.len(),
        count != parameters_of(state.functions[index as int].declaration).len(),
    ensures
        invoked(state, paren, count) == abort(
            state,
            RuntimeErrorView {
                message: arity_message(
                    parameters_of(state.functions[index as int].declaration).len(),
                    count as nat,
                ),
                line: paren.line,
            },
        ),
        invoked(state, paren, count).state.frames.len() == 0,
{
}

/// A call of a value that is no function is a runtime error.
pub proof fn lemma_callables_only(state: State, paren: TokenView, count: usize)
    requires
        state.values.len() > count,
        !(state.values[state.values.len() - count - 1] is Callable),
    ensures
        invoked(state, paren, count) == abort(state, not_callable(paren)),
{
}

/// Reading a name that no visible scope binds is a runtime error that names
/// the identifier and its line; so is assigning to it, and the assignment
/// declares nothing.
pub proof fn lemma_undefined_access(state: State, name: TokenView)
    requires
        holder(state.scopes, state.scope as int, name.lexeme) is None,
    ensures
        evaluate(state, ExprView::Variable(name)) == abort(
            state,
            RuntimeErrorView { message: undefined_read(name.lexeme), line: name.line },
        ),
        resumed(state, FrameView::Assign(name)) == abort(
            state,
            RuntimeErrorView { message: undefined_write(name.lexeme), line: name.line },
        ),
        resumed(state, FrameView::Assign(name)).state.scopes == released(state.scopes, 0),
{
}

/// A runtime error leaves no work, no intermediate result and no pending
/// request, and the global scope is the current one: the interpreter is
/// ready for the next statements. The functions stay, and of the scopes those
/// that are not given up.
pub proof fn lemma_abort(state: State, error: RuntimeErrorView)
    ensures
        step(abort(state, error).state).action == ActionView::Done,
        abort(state, error).state.scope == 0,
        abort(state, error).state.scopes == released(state.scopes, 0),
        abort(state, error).state.functions == state.functions,
{
}

/// A block runs in a new scope inside the current one, and the frame under
/// its statements brings the current scope back.
pub proof fn lemma_block_scope(state: State, statements: Seq<StmtView>)
    requires
        state.scope < state.scopes.len() <= usize::MAX,
    ensures
        ({
            let inside = execute(state, StmtView::Block(statements)).state;
            &&& inside.scope == state.scopes.len()
            &&& inside.scopes[inside.scope as int].enclosing == Some(state.scope)
            &&& resumed(inside, FrameView::Leave(state.scope)).state.scope == state.scope
        }),
{
}

/// Scheduling puts the statements of a block on top of the work, the first
/// statement topmost, and leaves the work under them as it was.
pub proof fn lemma_scheduled(frames: Seq<FrameView>, statements: Seq<StmtView>)
    ensures
        scheduled(frames, statements).len() == frames.len() + statements.len(),
        forall|i: int|
            0 <= i < frames.len() ==> #[trigger] scheduled(frames, statements)[i] == frames[i],
        forall|i: int|
            0 <= i < statements.len() ==> #[trigger] scheduled(frames, statements)[frames.len() + statements.len() - 1 - i]
                == FrameView::Execute(statements[i]),
    decreases statements.len(),
{
    if statements.len() > 0 {
        let pushed = frames.push(FrameView::Execute(statements.last()));
        lemma_scheduled(pushed, statements.drop_last());
        assert forall|i: int| 0 <= i < statements.len() implies #[trigger] scheduled(frames, statements)[frames.len()
            + statements.len() - 1 - i] == FrameView::Execute(statements[i]) by {
            if i < statements.len() - 1 {
                assert(statements.drop_last()[i] == statements[i]);
            }
        }
    }
}

} // verus!
