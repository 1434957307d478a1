//! What holds of every state that an interpreter can reach.
//!
//! Scopes are given up at the end of blocks and calls. This is safe because
//! the scopes in use are ordered by age: the work that is pending goes back
//! to ever older scopes, the current scope is the youngest in use, and a scope
//! that a function was declared in is never given up.

use vstd::prelude::*;
use crate::environment::{
    ScopeView, assigned, chained, defined, fresh, lemma_chained, lemma_nearest, lemma_released, marked,
    released,
};
use crate::frame::FrameView;
use crate::host::ReplyView;
use crate::interpreter::initial;
use crate::literal::{Callable, LiteralView};
use crate::rlox_function::{FunctionView, body_of, parameters_of};
use crate::semantics::{
    State, back, booked, bound, queued, replied, resumed, returned, scheduled, step, top, unwound,
    without_value,
};
use crate::expr::ExprView;
use crate::stmt::StmtView;
use crate::token::TokenView;

verus! {

/// The scope that a frame goes back to, where it ends a block or a call.
pub open spec fn target(frame: FrameView) -> Option<usize> {
    match frame {
        FrameView::Leave(scope) => Some(scope),
        FrameView::Finish(scope, _) => Some(scope),
        _ => None,
    }
}

/// The pending work goes back to ever older scopes: from the top down, every
/// frame that ends a block or a call goes back to a scope older than `scope`
/// and older than where the frame above it went back to. Under the end of a
/// top-level statement no block and no call is open.
pub open spec fn nested(frames: Seq<FrameView>, scope: int) -> bool
    decreases frames.len(),
{
    if frames.len() == 0 {
        true
    } else if frames.last() is Boundary {
        nested(frames.drop_last(), 0)
    } else {
        match target(frames.last()) {
            Some(outer) => outer < scope && nested(frames.drop_last(), outer as int),
            None => nested(frames.drop_last(), scope),
        }
    }
}

/// Every function has the scope of its declaration, and that scope is marked.
pub open spec fn anchored(scopes: Seq<ScopeView>, functions: Seq<FunctionView>) -> bool {
    forall|i: int|
        0 <= i < functions.len() ==> (#[trigger] functions[i]).closure < scopes.len()
            && scopes[functions[i].closure as int].captured
}

/// A state in which nothing refers to a scope that is not there: the current
/// scope exists, the pending work goes back to older scopes, every function
/// has its scope, and every enclosing scope is older than the scope inside it.
pub open spec fn sound(state: State) -> bool {
    &&& state.scope < state.scopes.len()
    &&& nested(state.frames, state.scope as int)
    &&& anchored(state.scopes, state.functions)
    &&& chained(state.scopes)
}

/// The marked scopes of `before` are there and marked in `after`.
pub open spec fn keeps(before: Seq<ScopeView>, after: Seq<ScopeView>) -> bool {
    forall|scope: int|
        0 <= scope < before.len() && (#[trigger] before[scope]).captured ==> scope < after.len()
            && after[scope].captured
}

/// Work that goes back to scopes older than `scope` goes back to scopes older
/// than any younger scope.
pub proof fn lemma_nested_wider(frames: Seq<FrameView>, scope: int, younger: int)
    requires
        nested(frames, scope),
        scope <= younger,
    ensures
        nested(frames, younger),
    decreases frames.len(),
{
    if frames.len() > 0 && !(frames.last() is Boundary) && target(frames.last()) is None {
        lemma_nested_wider(frames.drop_last(), scope, younger);
    }
}

/// Statements on top of the work open no block and no call.
pub proof fn lemma_nested_scheduled(frames: Seq<FrameView>, statements: Seq<StmtView>, scope: int)
    ensures
        nested(scheduled(frames, statements), scope) == nested(frames, scope),
    decreases statements.len(),
{
    if statements.len() > 0 {
        let pushed = frames.push(FrameView::Execute(statements.last()));
        lemma_nested_scheduled(pushed, statements.drop_last(), scope);
        assert(pushed.drop_last() =~= frames);
    }
}

/// Arguments on top of the work open no block and no call.
pub proof fn lemma_nested_queued(frames: Seq<FrameView>, arguments: Seq<ExprView>, scope: int)
    ensures
        nested(queued(frames, arguments), scope) == nested(frames, scope),
    decreases arguments.len(),
{
    if arguments.len() > 0 {
        let pushed = frames.push(FrameView::Evaluate(arguments.last()));
        lemma_nested_queued(pushed, arguments.drop_last(), scope);
        assert(pushed.drop_last() =~= frames);
    }
}

/// Top-level statements can be added where no block and no call is open.
pub proof fn lemma_nested_booked(frames: Seq<FrameView>, statements: Seq<StmtView>, scope: int)
    requires
        nested(frames, 0),
        0 <= scope,
    ensures
        nested(booked(frames, statements), scope),
    decreases statements.len(),
{
    if statements.len() > 0 {
        let first = frames.push(FrameView::Boundary);
        let second = first.push(FrameView::Execute(statements.last()));
        assert(first.drop_last() =~= frames);
        assert(second.drop_last() =~= first);
        assert(nested(first, 0));
        assert(nested(second, 0));
        lemma_nested_booked(second, statements.drop_last(), scope);
    } else {
        lemma_nested_wider(frames, 0, scope);
    }
}

/// A frame that ends no block, no call and no top-level statement changes
/// nothing in what the work goes back to.
pub proof fn lemma_nested_push(frames: Seq<FrameView>, frame: FrameView, scope: int)
    requires
        target(frame) is None,
        !(frame is Boundary),
    ensures
        nested(frames.push(frame), scope) == nested(frames, scope),
{
    assert(frames.push(frame).drop_last() =~= frames);
}

/// What a `return` drops leaves the work under it in order.
pub proof fn lemma_nested_unwound(frames: Seq<FrameView>, scope: int)
    requires
        nested(frames, scope),
    ensures
        match unwound(frames).1 {
            Some(FrameView::Finish(outer, _)) => outer < scope && nested(unwound(frames).0, outer as int),
            Some(_) => nested(unwound(frames).0, 0),
            None => unwound(frames).0.len() == 0,
        },
    decreases frames.len(),
{
    if frames.len() > 0 {
        match frames.last() {
            FrameView::Finish(_, _) => {},
            FrameView::Boundary => {},
            FrameView::Leave(outer) => {
                lemma_nested_unwound(frames.drop_last(), outer as int);
            },
            _ => {
                lemma_nested_unwound(frames.drop_last(), scope);
            },
        }
    }
}

/// Functions keep their scopes through every change that keeps the marked scopes.
pub proof fn lemma_anchored(before: Seq<ScopeView>, after: Seq<ScopeView>, functions: Seq<FunctionView>)
    requires
        anchored(before, functions),
        keeps(before, after),
    ensures
        anchored(after, functions),
{
    assert forall|i: int| 0 <= i < functions.len() implies (#[trigger] functions[i]).closure < after.len()
        && after[functions[i].closure as int].captured by {
        assert(before[functions[i].closure as int].captured);
    }
}

/// Every change that the environment offers keeps the marked scopes.
pub proof fn lemma_keeps(scopes: Seq<ScopeView>, scope: int, name: Seq<char>, value: LiteralView, enclosing: usize)
    ensures
        keeps(scopes, scopes),
        keeps(scopes, scopes.push(fresh(scopes, enclosing))),
        keeps(scopes, defined(scopes, scope, name, value)),
        keeps(scopes, assigned(scopes, scope, name, value)),
        keeps(scopes, marked(scopes, scope)),
        keeps(scopes, released(scopes, scope)),
{
    lemma_released(scopes, scope);
    lemma_nearest(scopes, scope, name);
    let kept = released(scopes, scope);
    assert forall|s: int| 0 <= s < scopes.len() && (#[trigger] scopes[s]).captured implies s < kept.len()
        && kept[s].captured by {
        assert(kept[s] == scopes[s]);
    }
}

/// Keeping the marked scopes carries over from change to change.
pub proof fn lemma_keeps_twice(first: Seq<ScopeView>, second: Seq<ScopeView>, third: Seq<ScopeView>)
    requires
        keeps(first, second),
        keeps(second, third),
    ensures
        keeps(first, third),
{
    assert forall|scope: int| 0 <= scope < first.len() && (#[trigger] first[scope]).captured implies scope
        < third.len() && third[scope].captured by {
        assert(second[scope].captured);
    }
}

/// Binding parameters keeps the marked scopes and the number of scopes.
pub proof fn lemma_keeps_bound(
    scopes: Seq<ScopeView>,
    scope: int,
    parameters: Seq<TokenView>,
    arguments: Seq<LiteralView>,
    count: nat,
)
    ensures
        keeps(scopes, bound(scopes, scope, parameters, arguments, count)),
        bound(scopes, scope, parameters, arguments, count).len() == scopes.len(),
    decreases count,
{
    if count > 0 {
        let before = bound(scopes, scope, parameters, arguments, (count - 1) as nat);
        lemma_keeps_bound(scopes, scope, parameters, arguments, (count - 1) as nat);
        lemma_keeps(before, scope, parameters[count - 1].lexeme, arguments[count - 1], 0);
        lemma_keeps_twice(scopes, before, bound(scopes, scope, parameters, arguments, count));
    } else {
        lemma_keeps(scopes, scope, Seq::empty(), LiteralView::Null, 0);
    }
}

/// Going back to an older scope at the end of a block or of a call leaves a
/// sound state: the scopes that are given up are younger than all that is in use.
pub proof fn lemma_sound_back(state: State, scope: usize)
    requires
        scope < state.scopes.len(),
        nested(state.frames, scope as int),
        anchored(state.scopes, state.functions),
        chained(state.scopes),
    ensures
        sound(back(state, scope)),
{
    lemma_chained(state.scopes, scope as int, Seq::empty(), LiteralView::Null, 0);
    lemma_released(state.scopes, scope as int);
    lemma_keeps(state.scopes, scope as int, Seq::empty(), LiteralView::Null, 0);
    lemma_anchored(state.scopes, released(state.scopes, scope as int), state.functions);
}

/// A `return` leaves a sound state.
pub proof fn lemma_sound_returned(state: State, value: LiteralView)
    requires
        sound(state),
    ensures
        sound(returned(state, value).state),
{
    let (frames, found) = unwound(state.frames);
    lemma_nested_unwound(state.frames, state.scope as int);
    match found {
        Some(FrameView::Finish(scope, base)) => {
            lemma_sound_back(State { frames, ..state }, scope);
        },
        _ => {
            lemma_sound_back(State { frames, ..state }, 0);
        },
    }
}

/// A new interpreter is in a sound state.
pub proof fn lemma_sound_initial()
    ensures
        sound(initial()),
{
}

/// Statements handed to an interpreter that is in its global scope, with no
/// block and no call open, leave it in a sound state.
pub proof fn lemma_sound_interpret(state: State, statements: Seq<StmtView>)
    requires
        sound(state),
        nested(state.frames, 0),
    ensures
        sound(State { frames: booked(state.frames, statements), ..state }),
        state.scope == 0 ==> nested(booked(state.frames, statements), 0),
{
    lemma_nested_booked(state.frames, statements, state.scope as int);
    lemma_nested_booked(state.frames, statements, 0);
}

/// No reply takes an interpreter out of the sound states.
pub proof fn lemma_sound_replied(state: State, reply: ReplyView)
    requires
        sound(state),
    ensures
        sound(replied(state, reply).state),
{
}

/// No step takes an interpreter out of the sound states, as long as the
/// machine can count the scopes: no scope is given up while the current code,
/// a pending block or call, or a function still refers to it.
pub proof fn lemma_sound_step(state: State)
    requires
        sound(state),
        step(state).state.scopes.len() <= usize::MAX,
    ensures
        sound(step(state).state),
{
    lemma_sound_back(State { frames: Seq::empty(), values: Seq::empty(), pending: None, ..state }, 0);
    if state.pending is None && state.frames.len() > 0 {
        let frame = state.frames.last();
        let rest = State { frames: state.frames.drop_last(), ..state };
        let here = rest.scope as int;
        lemma_sound_back(State { frames: Seq::empty(), values: Seq::empty(), pending: None, ..rest }, 0);
        if frame is Boundary {
            lemma_nested_wider(rest.frames, 0, here);
        } else if target(frame) is Some {
            let scope = target(frame)->Some_0;
            match frame {
                FrameView::Leave(_) => {
                    lemma_sound_back(rest, scope);
                },
                FrameView::Finish(_, base) => {
                    lemma_sound_back(
                        State {
                            values: crate::semantics::truncated(rest.values, base).push(LiteralView::Null),
                            ..rest
                        },
                        scope,
                    );
                },
                _ => {},
            }
        } else {
            assert(nested(rest.frames, here));
            lemma_sound_resumed(rest, frame);
        }
    }
}

/// A frame that ends no block, no call and no top-level statement, run in a
/// sound state, leaves a sound state.
pub proof fn lemma_sound_resumed(rest: State, frame: FrameView)
    requires
        sound(rest),
        resumed(rest, frame).state.scopes.len() <= usize::MAX,
        target(frame) is None,
        !(frame is Boundary),
    ensures
        sound(resumed(rest, frame).state),
{
    let here = rest.scope as int;
    let value = top(rest.values);
    let after = resumed(rest, frame).state;
    lemma_resumed_chained(rest, frame);
    lemma_sound_back(State { frames: Seq::empty(), values: Seq::empty(), pending: None, ..rest }, 0);
    lemma_keeps(rest.scopes, here, Seq::empty(), LiteralView::Null, rest.scope);
    match frame {
        FrameView::Execute(statement) => {
            match statement {
                StmtView::Expr(expression) => {
                    lemma_nested_push(rest.frames, FrameView::Discard, here);
                    lemma_nested_push(
                        rest.frames.push(FrameView::Discard),
                        FrameView::Evaluate(expression),
                        here,
                    );
                },
                StmtView::Print(expression) => {
                    lemma_nested_push(rest.frames, FrameView::Print, here);
                    lemma_nested_push(rest.frames.push(FrameView::Print), FrameView::Evaluate(expression), here);
                },
                StmtView::Var(name, initializer) => {
                    match initializer {
                        Some(expression) => {
                            lemma_nested_push(rest.frames, FrameView::Define(name), here);
                            lemma_nested_push(
                                rest.frames.push(FrameView::Define(name)),
                                FrameView::Evaluate(expression),
                                here,
                            );
                        },
                        None => {
                            lemma_keeps(rest.scopes, here, name.lexeme, LiteralView::Null, 0);
                            lemma_anchored(rest.scopes, after.scopes, rest.functions);
                        },
                    }
                },
                StmtView::Block(statements) => {
                    let leave = FrameView::Leave(rest.scope);
                    lemma_nested_scheduled(rest.frames.push(leave), statements, rest.scopes.len() as int);
                    assert(rest.frames.push(leave).drop_last() =~= rest.frames);
                    lemma_anchored(rest.scopes, after.scopes, rest.functions);
                },
                StmtView::If(condition, then_branch, else_branch) => {
                    let branch = FrameView::Branch(
                        *then_branch,
                        match else_branch {
                            Some(branch) => Some(*branch),
                            None => None,
                        },
                    );
                    lemma_nested_push(rest.frames, branch, here);
                    lemma_nested_push(rest.frames.push(branch), FrameView::Evaluate(condition), here);
                },
                StmtView::While(condition, body) => {
                    lemma_nested_push(rest.frames, FrameView::Loop(condition, *body), here);
                    lemma_nested_push(
                        rest.frames.push(FrameView::Loop(condition, *body)),
                        FrameView::Evaluate(condition),
                        here,
                    );
                },
                StmtView::Function(name, _, _) => {
                    let first = marked(rest.scopes, here);
                    let index = LiteralView::Callable(Callable::Function(rest.functions.len() as usize));
                    lemma_keeps(first, here, name.lexeme, index, 0);
                    lemma_keeps_twice(rest.scopes, first, after.scopes);
                    lemma_anchored(rest.scopes, after.scopes, rest.functions);
                    assert(first[here].captured);
                    assert(after.scopes[here].captured);
                },
                StmtView::Return(_, given) => {
                    match given {
                        Some(expression) => {
                            lemma_nested_push(rest.frames, FrameView::Return, here);
                            lemma_nested_push(
                                rest.frames.push(FrameView::Return),
                                FrameView::Evaluate(expression),
                                here,
                            );
                        },
                        None => {
                            lemma_sound_returned(rest, LiteralView::Null);
                        },
                    }
                },
            }
        },
        FrameView::Evaluate(expression) => {
            match expression {
                ExprView::Grouping(inner) => {
                    lemma_nested_push(rest.frames, FrameView::Evaluate(*inner), here);
                },
                ExprView::Unary(operator, right) => {
                    lemma_nested_push(rest.frames, FrameView::Unary(operator), here);
                    lemma_nested_push(
                        rest.frames.push(FrameView::Unary(operator)),
                        FrameView::Evaluate(*right),
                        here,
                    );
                },
                ExprView::Binary(left, operator, right) => {
                    let one = rest.frames.push(FrameView::Binary(operator));
                    lemma_nested_push(rest.frames, FrameView::Binary(operator), here);
                    lemma_nested_push(one, FrameView::Evaluate(*right), here);
                    lemma_nested_push(one.push(FrameView::Evaluate(*right)), FrameView::Evaluate(*left), here);
                },
                ExprView::Logical(left, operator, right) => {
                    lemma_nested_push(rest.frames, FrameView::Logical(operator, *right), here);
                    lemma_nested_push(
                        rest.frames.push(FrameView::Logical(operator, *right)),
                        FrameView::Evaluate(*left),
                        here,
                    );
                },
                ExprView::Assign(name, given) => {
                    lemma_nested_push(rest.frames, FrameView::Assign(name), here);
                    lemma_nested_push(
                        rest.frames.push(FrameView::Assign(name)),
                        FrameView::Evaluate(*given),
                        here,
                    );
                },
                ExprView::Call(callee, paren, arguments) => {
                    let invoke = FrameView::Invoke(paren, arguments.len() as usize);
                    lemma_nested_push(rest.frames, invoke, here);
                    lemma_nested_queued(rest.frames.push(invoke), arguments, here);
                    lemma_nested_push(
                        queued(rest.frames.push(invoke), arguments),
                        FrameView::Evaluate(*callee),
                        here,
                    );
                },
                _ => {},
            }
        },
        FrameView::Logical(operator, right) => {
            lemma_nested_push(rest.frames, FrameView::Evaluate(right), here);
        },
        FrameView::Assign(name) => {
            lemma_keeps(rest.scopes, here, name.lexeme, value, 0);
            lemma_anchored(rest.scopes, assigned(rest.scopes, here, name.lexeme, value), rest.functions);
            lemma_nearest(rest.scopes, here, name.lexeme);
        },
        FrameView::Define(name) => {
            lemma_keeps(rest.scopes, here, name.lexeme, value, 0);
            lemma_anchored(rest.scopes, defined(rest.scopes, here, name.lexeme, value), rest.functions);
        },
        FrameView::Branch(then_branch, else_branch) => {
            lemma_nested_push(rest.frames, FrameView::Execute(then_branch), here);
            match else_branch {
                Some(branch) => {
                    lemma_nested_push(rest.frames, FrameView::Execute(branch), here);
                },
                None => {},
            }
        },
        FrameView::Loop(condition, body) => {
            let one = rest.frames.push(FrameView::Loop(condition, body));
            lemma_nested_push(rest.frames, FrameView::Loop(condition, body), here);
            lemma_nested_push(one, FrameView::Evaluate(condition), here);
            lemma_nested_push(one.push(FrameView::Evaluate(condition)), FrameView::Execute(body), here);
        },
        FrameView::Return => {
            lemma_sound_returned(without_value(rest), value);
        },
        FrameView::Invoke(paren, count) => {
            if rest.values.len() > count {
                let base = rest.values.len() - count - 1;
                match rest.values[base] {
                    LiteralView::Callable(Callable::Function(index)) => {
                        if index < rest.functions.len() {
                            let function = rest.functions[index as int];
                            let parameters = parameters_of(function.declaration);
                            if count == parameters.len() {
                                let scope = (rest.scopes.len() as usize) as int;
                                let opened = rest.scopes.push(fresh(rest.scopes, function.closure));
                                let arguments = rest.values.subrange(base + 1, rest.values.len() as int);
                                let finish = FrameView::Finish(rest.scope, base as usize);
                                lemma_keeps(rest.scopes, here, Seq::empty(), LiteralView::Null, function.closure);
                                lemma_keeps_bound(opened, scope, parameters, arguments, parameters.len());
                                lemma_keeps_twice(rest.scopes, opened, after.scopes);
                                lemma_anchored(rest.scopes, after.scopes, rest.functions);
                                lemma_nested_scheduled(
                                    rest.frames.push(finish),
                                    body_of(function.declaration),
                                    scope,
                                );
                                assert(rest.frames.push(finish).drop_last() =~= rest.frames);
                            }
                        }
                    },
                    _ => {},
                }
            }
        },
        _ => {},
    }
}

/// Binding parameters leaves every link between scopes as it was.
pub proof fn lemma_bound_chained(
    scopes: Seq<ScopeView>,
    scope: int,
    parameters: Seq<TokenView>,
    arguments: Seq<LiteralView>,
    count: nat,
)
    requires
        chained(scopes),
    ensures
        chained(bound(scopes, scope, parameters, arguments, count)),
    decreases count,
{
    if count > 0 {
        lemma_bound_chained(scopes, scope, parameters, arguments, (count - 1) as nat);
        lemma_chained(
            bound(scopes, scope, parameters, arguments, (count - 1) as nat),
            scope,
            parameters[count - 1].lexeme,
            arguments[count - 1],
            0,
        );
    }
}

/// No frame, run, makes a chain of scopes run in a circle.
pub proof fn lemma_resumed_chained(rest: State, frame: FrameView)
    requires
        chained(rest.scopes),
    ensures
        chained(resumed(rest, frame).state.scopes),
{
    let value = top(rest.values);
    lemma_chained(rest.scopes, 0, Seq::empty(), value, 0);
    match frame {
        FrameView::Execute(statement) => {
            match statement {
                StmtView::Var(name, _) => {
                    lemma_chained(rest.scopes, rest.scope as int, name.lexeme, LiteralView::Null, rest.scope);
                },
                StmtView::Block(_) => {
                    lemma_chained(rest.scopes, 0, Seq::empty(), LiteralView::Null, rest.scope);
                },
                StmtView::Function(name, _, _) => {
                    lemma_chained(rest.scopes, rest.scope as int, name.lexeme, LiteralView::Null, rest.scope);
                    lemma_chained(
                        marked(rest.scopes, rest.scope as int),
                        rest.scope as int,
                        name.lexeme,
                        LiteralView::Callable(Callable::Function(rest.functions.len() as usize)),
                        rest.scope,
                    );
                },
                StmtView::Return(_, _) => {
                    lemma_returned_chained(rest, LiteralView::Null);
                },
                _ => {},
            }
        },
        FrameView::Assign(name) => {
            lemma_chained(rest.scopes, rest.scope as int, name.lexeme, value, 0);
        },
        FrameView::Define(name) => {
            lemma_chained(rest.scopes, rest.scope as int, name.lexeme, value, 0);
        },
        FrameView::Leave(scope) => {
            lemma_chained(rest.scopes, scope as int, Seq::empty(), value, 0);
        },
        FrameView::Finish(scope, _) => {
            lemma_chained(rest.scopes, scope as int, Seq::empty(), value, 0);
        },
        FrameView::Return => {
            lemma_returned_chained(without_value(rest), value);
        },
        FrameView::Invoke(paren, count) => {
            if rest.values.len() > count {
                let base = rest.values.len() - count - 1;
                match rest.values[base] {
                    LiteralView::Callable(Callable::Function(index)) => {
                        if index < rest.functions.len() {
                            let function = rest.functions[index as int];
                            lemma_chained(rest.scopes, 0, Seq::empty(), value, function.closure);
                            lemma_bound_chained(
                                rest.scopes.push(fresh(rest.scopes, function.closure)),
                                rest.scopes.len() as usize as int,
                                parameters_of(function.declaration),
                                rest.values.subrange(base + 1, rest.values.len() as int),
                                parameters_of(function.declaration).len(),
                            );
                        }
                    },
                    _ => {},
                }
            }
        },
        _ => {},
    }
}

/// A `return` leaves every link between scopes as it was.
pub proof fn lemma_returned_chained(state: State, value: LiteralView)
    requires
        chained(state.scopes),
    ensures
        chained(returned(state, value).state.scopes),
{
    let (frames, target) = unwound(state.frames);
    match target {
        Some(FrameView::Finish(scope, base)) => {
            lemma_chained(state.scopes, scope as int, Seq::empty(), value, 0);
        },
        _ => {
            lemma_chained(state.scopes, 0, Seq::empty(), value, 0);
        },
    }
}

} // verus!
