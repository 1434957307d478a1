use vstd::prelude::*;
use vstd::string::StringExecFns;
use crate::host::{RuntimeError, RuntimeErrorView};
use crate::literal::{Literal, LiteralView};
use crate::token::Token;

verus! {

struct Binding {
    name: String,
    value: Literal,
}

struct Scope {
    bindings: Vec<Binding>,
    enclosing: Option<usize>,
    captured: bool,
}

/// The scopes of a program: each maps names to values and may name the scope
/// that encloses it.
///
/// A scope is known by its index. Scope 0 is the global scope. A younger scope
/// has a larger index, and an enclosing scope is always older than the scope
/// inside it, so that no chain of scopes runs in a circle. A scope in which a
/// function was declared is kept for as long as the environment lives, with
/// all scopes older than it: the function can be called after the block that
/// made the scope has ended.
pub struct Environment {
    scopes: Vec<Scope>,
}

/// One scope: its bindings, the scope around it, and whether a function was
/// declared in it. Such a scope is kept for the function when the block that
/// made it has ended.
pub struct ScopeView {
    pub values: Map<Seq<char>, LiteralView>,
    pub enclosing: Option<usize>,
    pub captured: bool,
}

/// An empty scope inside `enclosing`, which must be an older scope.
pub open spec fn fresh(scopes: Seq<ScopeView>, enclosing: usize) -> ScopeView {
    ScopeView {
        values: Map::empty(),
        enclosing: if enclosing < scopes.len() {
            Some(enclosing)
        } else {
            None
        },
        captured: false,
    }
}

/// The global scope of a new environment.
pub open spec fn global() -> ScopeView {
    ScopeView { values: Map::empty(), enclosing: None, captured: false }
}

/// The map that a list of bindings stands for: a later binding of a name
/// replaces an earlier one.
pub open spec fn as_map(bindings: Seq<(Seq<char>, LiteralView)>) -> Map<Seq<char>, LiteralView>
    decreases bindings.len(),
{
    if bindings.len() == 0 {
        Map::empty()
    } else {
        as_map(bindings.drop_last()).insert(bindings.last().0, bindings.last().1)
    }
}

/// The scope that binds `name` for code running in `scope`: `scope` itself or
/// the nearest scope around it that has the name, if there is one.
pub open spec fn holder(scopes: Seq<ScopeView>, scope: int, name: Seq<char>) -> Option<int>
    decreases scope,
{
    if scope < 0 || scope >= scopes.len() {
        None
    } else if scopes[scope].values.dom().contains(name) {
        Some(scope)
    } else {
        match scopes[scope].enclosing {
            Some(outer) => if outer < scope {
                holder(scopes, outer as int, name)
            } else {
                None
            },
            None => None,
        }
    }
}

/// The value of `name` for code running in `scope`.
pub open spec fn lookup(scopes: Seq<ScopeView>, scope: int, name: Seq<char>) -> Option<LiteralView> {
    match holder(scopes, scope, name) {
        Some(found) => Some(scopes[found].values[name]),
        None => None,
    }
}

/// The scopes after `name` is bound to `value` in `scope` itself.
pub open spec fn defined(scopes: Seq<ScopeView>, scope: int, name: Seq<char>, value: LiteralView) -> Seq<
    ScopeView,
> {
    if 0 <= scope < scopes.len() {
        scopes.update(
            scope,
            ScopeView { values: scopes[scope].values.insert(name, value), ..scopes[scope] },
        )
    } else {
        scopes
    }
}

/// The scopes after `value` is stored in the binding of `name` that code
/// running in `scope` sees. Where there is none, nothing changes.
pub open spec fn assigned(scopes: Seq<ScopeView>, scope: int, name: Seq<char>, value: LiteralView) -> Seq<
    ScopeView,
> {
    match holder(scopes, scope, name) {
        Some(found) => defined(scopes, found, name, value),
        None => scopes,
    }
}

/// The scopes after `scope` is marked as one that a function was declared in.
pub open spec fn marked(scopes: Seq<ScopeView>, scope: int) -> Seq<ScopeView> {
    if 0 <= scope < scopes.len() {
        scopes.update(scope, ScopeView { captured: true, ..scopes[scope] })
    } else {
        scopes
    }
}

/// The scopes after those that nothing needs any more are given up: from the
/// youngest down, every scope that is younger than `keep` and that no
/// function was declared in, up to the first that must stay.
pub open spec fn released(scopes: Seq<ScopeView>, keep: int) -> Seq<ScopeView>
    decreases scopes.len(),
{
    if scopes.len() > 1 && scopes.len() > keep + 1 && !scopes.last().captured {
        released(scopes.drop_last(), keep)
    } else {
        scopes
    }
}

/// Every link to an enclosing scope points to an older scope, so the chain from
/// any scope ends at a scope without a link.
pub open spec fn chained(scopes: Seq<ScopeView>) -> bool {
    forall|i: int|
        0 <= i < scopes.len() ==> match (#[trigger] scopes[i]).enclosing {
            Some(outer) => outer < i,
            None => true,
        }
}

/// The message of `get` for a name that no scope binds.
pub open spec fn undefined_read(name: Seq<char>) -> Seq<char> {
    "Undefined variable "@ + name + "."@
}

/// The message of `assign` for a name that no scope binds.
pub open spec fn undefined_write(name: Seq<char>) -> Seq<char> {
    "Undefined variable '"@ + name + "'."@
}

/// A scope that code running in `from` can see: `from` itself and, link by
/// link, the scopes around it.
pub open spec fn visible(scopes: Seq<ScopeView>, from: int, scope: int) -> bool
    decreases from,
{
    if from < 0 || from >= scopes.len() {
        false
    } else if from == scope {
        true
    } else {
        match scopes[from].enclosing {
            Some(outer) => outer < from && visible(scopes, outer as int, scope),
            None => false,
        }
    }
}

/// A name is undefined for the code in a scope exactly when no scope that
/// the code can see binds it. Reading it and assigning to it are then errors;
/// else both succeed.
pub proof fn lemma_undefined(scopes: Seq<ScopeView>, from: int, name: Seq<char>)
    ensures
        holder(scopes, from, name) is None <==> forall|scope: int|
            visible(scopes, from, scope) ==> !(#[trigger] scopes[scope]).values.dom().contains(name),
        lookup(scopes, from, name) is None <==> holder(scopes, from, name) is None,
    decreases from,
{
    if 0 <= from < scopes.len() {
        if scopes[from].values.dom().contains(name) {
            assert(visible(scopes, from, from));
        } else {
            match scopes[from].enclosing {
                Some(outer) => {
                    if outer < from {
                        lemma_undefined(scopes, outer as int, name);
                        if holder(scopes, outer as int, name) is None {
                            assert forall|scope: int| visible(scopes, from, scope) implies !(
                            #[trigger] scopes[scope]).values.dom().contains(name) by {
                                if scope != from {
                                    assert(visible(scopes, outer as int, scope));
                                }
                            }
                        } else {
                            let found = choose|scope: int|
                                visible(scopes, outer as int, scope) && (#[trigger] scopes[scope]).values.dom().contains(
                                    name,
                                );
                            assert(visible(scopes, from, found));
                        }
                    }
                },
                None => {},
            }
        }
    }
}

/// The scope that binds a name is one that the code can see, it has the name,
/// and no scope nearer to the code has it.
pub proof fn lemma_nearest(scopes: Seq<ScopeView>, from: int, name: Seq<char>)
    ensures
        match holder(scopes, from, name) {
            Some(found) => {
                &&& 0 <= found < scopes.len()
                &&& visible(scopes, from, found)
                &&& scopes[found].values.dom().contains(name)
                &&& forall|scope: int|
                    visible(scopes, from, scope) && visible(scopes, scope, found) && scope != found ==> !(
                    #[trigger] scopes[scope]).values.dom().contains(name)
            },
            None => true,
        },
    decreases from,
{
    if 0 <= from < scopes.len() {
        if scopes[from].values.dom().contains(name) {
            assert forall|scope: int|
                visible(scopes, from, scope) && visible(scopes, scope, from) && scope != from implies !(
            #[trigger] scopes[scope]).values.dom().contains(name) by {
                lemma_inward(scopes, from);
                lemma_inward(scopes, scope);
            }
        } else {
            match scopes[from].enclosing {
                Some(outer) => {
                    if outer < from {
                        lemma_nearest(scopes, outer as int, name);
                        match holder(scopes, outer as int, name) {
                            Some(found) => {
                                assert(visible(scopes, from, found));
                                assert forall|scope: int|
                                    visible(scopes, from, scope) && visible(scopes, scope, found) && scope
                                        != found implies !(#[trigger] scopes[scope]).values.dom().contains(
                                    name,
                                ) by {
                                    if scope != from {
                                        assert(visible(scopes, outer as int, scope));
                                    }
                                }
                            },
                            None => {},
                        }
                    }
                },
                None => {},
            }
        }
    }
}

/// A scope sees only itself and older scopes.
pub proof fn lemma_inward(scopes: Seq<ScopeView>, from: int)
    ensures
        forall|scope: int| #[trigger] visible(scopes, from, scope) ==> 0 <= scope <= from,
    decreases from,
{
    if 0 <= from < scopes.len() {
        match scopes[from].enclosing {
            Some(outer) => {
                if outer < from {
                    lemma_inward(scopes, outer as int);
                }
            },
            None => {},
        }
        assert forall|scope: int| #[trigger] visible(scopes, from, scope) implies 0 <= scope <= from by {
            if scope != from {
                match scopes[from].enclosing {
                    Some(outer) => {
                        assert(visible(scopes, outer as int, scope));
                    },
                    None => {},
                }
            }
        }
    }
}

/// What code running in `from` sees does not depend on scopes younger than `from`.
pub proof fn lemma_older_only(before: Seq<ScopeView>, after: Seq<ScopeView>, from: int, name: Seq<char>)
    requires
        0 <= from < before.len() <= after.len(),
        forall|scope: int| 0 <= scope <= from ==> before[scope] == after[scope],
    ensures
        holder(after, from, name) == holder(before, from, name),
        lookup(after, from, name) == lookup(before, from, name),
    decreases from,
{
    if !before[from].values.dom().contains(name) {
        match before[from].enclosing {
            Some(outer) => {
                if outer < from {
                    lemma_older_only(before, after, outer as int, name);
                }
            },
            None => {},
        }
    }
}

/// Giving up scopes takes the youngest scopes away and nothing else: the
/// scopes up to `keep` stay, and so does every scope in which a function was
/// declared, with all that is older than it.
pub proof fn lemma_released(scopes: Seq<ScopeView>, keep: int)
    ensures
        released(scopes, keep).len() <= scopes.len(),
        released(scopes, keep) == scopes.subrange(0, released(scopes, keep).len() as int),
        0 <= keep < scopes.len() ==> keep < released(scopes, keep).len(),
        scopes.len() > 0 ==> released(scopes, keep).len() > 0,
        forall|scope: int|
            0 <= scope < scopes.len() && (#[trigger] scopes[scope]).captured ==> scope < released(scopes, keep).len(),
    decreases scopes.len(),
{
    if scopes.len() > 1 && scopes.len() > keep + 1 && !scopes.last().captured {
        lemma_released(scopes.drop_last(), keep);
        let rest = released(scopes.drop_last(), keep);
        assert(rest =~= scopes.subrange(0, rest.len() as int));
        assert forall|scope: int| 0 <= scope < scopes.len() && (#[trigger] scopes[scope]).captured implies scope
            < rest.len() by {
            assert(scopes.drop_last()[scope] == scopes[scope]);
        }
    } else {
        assert(scopes =~= scopes.subrange(0, scopes.len() as int));
    }
}

/// Giving up scopes changes nothing for the code in the scope that is kept,
/// nor for a function declared in any scope.
pub proof fn lemma_release_keeps(scopes: Seq<ScopeView>, keep: int, from: int, name: Seq<char>)
    requires
        0 <= from < scopes.len(),
        from <= keep || scopes[from].captured,
    ensures
        lookup(released(scopes, keep), from, name) == lookup(scopes, from, name),
        holder(released(scopes, keep), from, name) == holder(scopes, from, name),
{
    lemma_released(scopes, keep);
    lemma_older_only(released(scopes, keep), scopes, from, name);
}

/// No change that the environment offers makes a chain of scopes run in a
/// circle: a new scope is younger than the scope around it, and a binding, a
/// mark or a release changes no link.
pub proof fn lemma_chained(scopes: Seq<ScopeView>, scope: int, name: Seq<char>, value: LiteralView, enclosing: usize)
    requires
        chained(scopes),
    ensures
        chained(scopes.push(fresh(scopes, enclosing))),
        chained(defined(scopes, scope, name, value)),
        chained(assigned(scopes, scope, name, value)),
        chained(marked(scopes, scope)),
        chained(released(scopes, scope)),
{
    lemma_released(scopes, scope);
    lemma_nearest(scopes, scope, name);
    let kept = released(scopes, scope);
    assert forall|i: int| 0 <= i < kept.len() implies match (#[trigger] kept[i]).enclosing {
        Some(outer) => outer < i,
        None => true,
    } by {
        assert(kept[i] == scopes[i]);
    }
}

/// Shadowing: a declaration in a block hides an outer variable of the same
/// name from the code in the block and leaves it as it was for the code
/// around the block, which sees it again when the block has ended.
pub proof fn lemma_shadowing(scopes: Seq<ScopeView>, outer: usize, name: Seq<char>, value: LiteralView)
    requires
        outer < scopes.len(),
    ensures
        ({
            let inner = scopes.len() as int;
            let block = scopes.push(fresh(scopes, outer));
            let declared = defined(block, inner, name, value);
            &&& lookup(declared, inner, name) == Some(value)
            &&& forall|other: Seq<char>| other != name ==> lookup(declared, inner, other) == lookup(scopes, outer as int, other)
            &&& forall|any: Seq<char>| lookup(declared, outer as int, any) == lookup(scopes, outer as int, any)
        }),
{
    let inner = scopes.len() as int;
    let block = scopes.push(fresh(scopes, outer));
    let declared = defined(block, inner, name, value);
    assert forall|any: Seq<char>| lookup(declared, outer as int, any) == lookup(scopes, outer as int, any) by {
        lemma_older_only(scopes, declared, outer as int, any);
    }
    assert forall|other: Seq<char>| other != name implies lookup(declared, inner, other) == lookup(
        scopes,
        outer as int,
        other,
    ) by {
        lemma_older_only(scopes, declared, outer as int, other);
    }
}

/// Assignment changes the variable that a read finds, and only that one: the
/// name reads as the new value afterwards, and every other name reads as before.
pub proof fn lemma_assigned(scopes: Seq<ScopeView>, from: int, name: Seq<char>, value: LiteralView)
    requires
        holder(scopes, from, name) is Some,
    ensures
        lookup(assigned(scopes, from, name, value), from, name) == Some(value),
        holder(assigned(scopes, from, name, value), from, name) == holder(scopes, from, name),
        forall|other: Seq<char>| other != name ==> lookup(assigned(scopes, from, name, value), from, other) == lookup(scopes, from, other),
{
    let found = holder(scopes, from, name)->Some_0;
    let after = assigned(scopes, from, name, value);
    lemma_nearest(scopes, from, name);
    lemma_written(scopes, from, found, name, value, name);
    assert forall|other: Seq<char>| other != name implies lookup(after, from, other) == lookup(
        scopes,
        from,
        other,
    ) by {
        lemma_written(scopes, from, found, name, value, other);
    }
}

/// A binding written in the scope `target` changes, for the code in `from`,
/// what `name` reads as where `target` is the scope that binds it, and
/// nothing for a name other than `name`.
proof fn lemma_written(
    scopes: Seq<ScopeView>,
    from: int,
    target: int,
    name: Seq<char>,
    value: LiteralView,
    read: Seq<char>,
)
    requires
        0 <= target < scopes.len(),
        scopes[target].values.dom().contains(name),
    ensures
        read != name ==> holder(defined(scopes, target, name, value), from, read) == holder(scopes, from, read),
        read != name ==> lookup(defined(scopes, target, name, value), from, read) == lookup(scopes, from, read),
        holder(defined(scopes, target, name, value), from, name) == holder(scopes, from, name),
        holder(scopes, from, name) == Some(target) ==> lookup(defined(scopes, target, name, value), from, name)
            == Some(value),
    decreases from,
{
    let after = defined(scopes, target, name, value);
    if 0 <= from < scopes.len() {
        if !scopes[from].values.dom().contains(read) {
            match scopes[from].enclosing {
                Some(outer) => {
                    if outer < from {
                        lemma_written(scopes, outer as int, target, name, value, read);
                    }
                },
                None => {},
            }
        }
        if !scopes[from].values.dom().contains(name) {
            match scopes[from].enclosing {
                Some(outer) => {
                    if outer < from {
                        lemma_written(scopes, outer as int, target, name, value, name);
                    }
                },
                None => {},
            }
        }
    }
}

impl Binding {
    spec fn pair(self) -> (Seq<char>, LiteralView) {
        (self.name@, self.value@)
    }
}

impl Scope {
    spec fn pairs(self) -> Seq<(Seq<char>, LiteralView)> {
        Seq::new(self.bindings@.len(), |i: int| self.bindings@[i].pair())
    }

    spec fn model(self) -> ScopeView {
        ScopeView { values: as_map(self.pairs()), enclosing: self.enclosing, captured: self.captured }
    }

    /// The index of the last binding of `name`.
    fn find(&self, name: &String) -> (found: Option<usize>)
        ensures
            match found {
                Some(i) => i < self.bindings.len() && self.model().values.dom().contains(name@)
                    && self.model().values[name@] == self.bindings[i as int].value@
                    && self.bindings[i as int].name@ == name@
                    && forall|j: int| i < j < self.bindings.len() ==> self.bindings[j].name@ != name@,
                None => !self.model().values.dom().contains(name@),
            },
    {
        let mut i: usize = self.bindings.len();
        while i > 0
            invariant
                i <= self.bindings.len(),
                forall|j: int| i <= j < self.bindings.len() ==> self.bindings[j].name@ != name@,
            decreases i,
        {
            i -= 1;
            if self.bindings[i].name == *name {
                proof {
                    lemma_last(self.pairs(), i as int, name@);
                }
                return Some(i);
            }
        }
        proof {
            lemma_absent(self.pairs(), name@);
        }
        None
    }
}

proof fn lemma_absent(pairs: Seq<(Seq<char>, LiteralView)>, name: Seq<char>)
    requires
        forall|j: int| 0 <= j < pairs.len() ==> pairs[j].0 != name,
    ensures
        !as_map(pairs).dom().contains(name),
    decreases pairs.len(),
{
    if pairs.len() > 0 {
        lemma_absent(pairs.drop_last(), name);
    }
}

proof fn lemma_last(pairs: Seq<(Seq<char>, LiteralView)>, i: int, name: Seq<char>)
    requires
        0 <= i < pairs.len(),
        pairs[i].0 == name,
        forall|j: int| i < j < pairs.len() ==> pairs[j].0 != name,
    ensures
        as_map(pairs).dom().contains(name),
        as_map(pairs)[name] == pairs[i].1,
    decreases pairs.len(),
{
    if i < pairs.len() - 1 {
        lemma_last(pairs.drop_last(), i, name);
    }
}

proof fn lemma_update(pairs: Seq<(Seq<char>, LiteralView)>, i: int, name: Seq<char>, value: LiteralView)
    requires
        0 <= i < pairs.len(),
        pairs[i].0 == name,
        forall|j: int| i < j < pairs.len() ==> pairs[j].0 != name,
    ensures
        as_map(pairs.update(i, (name, value))) == as_map(pairs).insert(name, value),
    decreases pairs.len(),
{
    let changed = pairs.update(i, (name, value));
    if i < pairs.len() - 1 {
        lemma_update(pairs.drop_last(), i, name, value);
        assert(changed.drop_last() =~= pairs.drop_last().update(i, (name, value)));
        assert(as_map(changed) =~= as_map(pairs).insert(name, value));
    } else {
        assert(changed.drop_last() =~= pairs.drop_last());
        assert(as_map(changed) =~= as_map(pairs).insert(name, value));
    }
}

impl View for Environment {
    type V = Seq<ScopeView>;

    closed spec fn view(&self) -> Seq<ScopeView> {
        Seq::new(self.scopes@.len(), |i: int| self.scopes@[i].model())
    }
}

impl Environment {
    /// An environment that holds the global scope, empty, and nothing else.
    pub fn new() -> (environment: Environment)
        ensures
            environment@ == seq![global()],
            chained(environment@),
    {
        let mut scopes: Vec<Scope> = Vec::new();
        scopes.push(Scope { bindings: Vec::new(), enclosing: None, captured: false });
        let environment = Environment { scopes };
        assert(environment.scopes@[0].pairs() =~= Seq::empty());
        assert(environment@ =~= seq![global()]);
        environment
    }

    fn undefined(name: &Token, before: &str, after: &str) -> (error: RuntimeError)
        ensures
            error@ == (RuntimeErrorView { message: before@ + name.lexeme@ + after@, line: name.line }),
    {
        let mut message = String::from_str(before);
        message.append(name.lexeme.as_str());
        message.append(after);
        RuntimeError { message, line: name.line }
    }

    /// The machine can count the scopes.
    pub proof fn lemma_fits(&self)
        ensures
            self@.len() <= usize::MAX,
    {
        assert(self.scopes.len() == self.scopes@.len());
    }

    /// The number of scopes.
    pub fn len(&self) -> (n: usize)
        ensures
            n == self@.len(),
    {
        self.scopes.len()
    }

    /// Adds an empty scope inside the scope `enclosing` and returns its index.
    /// Where `enclosing` is no scope of this environment the new scope has
    /// nothing around it.
    pub fn from_existing(&mut self, enclosing: usize) -> (scope: usize)
        ensures
            scope == old(self)@.len(),
            final(self)@ == old(self)@.push(fresh(old(self)@, enclosing)),
            chained(old(self)@) ==> chained(final(self)@),
    {
        let scope = self.scopes.len();
        let link = if enclosing < scope {
            Some(enclosing)
        } else {
            None
        };
        self.scopes.push(Scope { bindings: Vec::new(), enclosing: link, captured: false });
        proof {
            assert(self.scopes@[scope as int].pairs() =~= Seq::empty());
            assert(self@ =~= old(self)@.push(fresh(old(self)@, enclosing)));
        }
        scope
    }

    /// Marks `scope` as one that a function was declared in, so that it is
    /// kept for the function. Where `scope` is no scope of this environment
    /// nothing changes.
    pub fn capture(&mut self, scope: usize)
        ensures
            final(self)@ == marked(old(self)@, scope as int),
            chained(old(self)@) ==> chained(final(self)@),
    {
        if scope < self.scopes.len() {
            self.scopes[scope].captured = true;
            proof {
                assert(self.scopes@[scope as int].pairs() =~= old(self).scopes@[scope as int].pairs());
                assert(self@ =~= marked(old(self)@, scope as int));
            }
        }
    }

    /// Gives up the scopes that nothing needs any more once `keep` is the
    /// current scope: from the youngest down, every scope younger than `keep`
    /// in which no function was declared, up to the first that must stay.
    pub fn release(&mut self, keep: usize)
        ensures
            final(self)@ == released(old(self)@, keep as int),
            chained(old(self)@) ==> chained(final(self)@),
    {
        loop
            invariant
                released(self@, keep as int) == released(old(self)@, keep as int),
                chained(old(self)@) ==> chained(self@),
            decreases self.scopes.len(),
        {
            let length = self.scopes.len();
            if length <= 1 || length - 1 <= keep || self.scopes[length - 1].captured {
                return ;
            }
            let ghost before = self@;
            self.scopes.pop();
            proof {
                assert(self@ =~= before.drop_last());
            }
        }
    }

    /// Binds `name` in `scope` itself, over any binding the scope has of it;
    /// no value binds it to `nil`. Where `scope` is no scope of this
    /// environment nothing changes.
    pub fn define(&mut self, scope: usize, name: String, value: Option<Literal>)
        ensures
            final(self)@ == defined(
                old(self)@,
                scope as int,
                name@,
                match value {
                    Some(value) => value@,
                    None => LiteralView::Null,
                },
            ),
            chained(old(self)@) ==> chained(final(self)@),
    {
        let value = match value {
            Some(value) => value,
            None => Literal::Null,
        };
        if scope < self.scopes.len() {
            let ghost before = self.scopes@[scope as int];
            let found = self.scopes[scope].find(&name);
            match found {
                Some(i) => {
                    proof {
                        lemma_update(before.pairs(), i as int, name@, value@);
                    }
                    self.scopes[scope].bindings[i].value = value;
                    proof {
                        let after = self.scopes@[scope as int];
                        assert(after.pairs() =~= before.pairs().update(i as int, (name@, value@)));
                    }
                },
                None => {
                    self.scopes[scope].bindings.push(Binding { name, value });
                    proof {
                        let after = self.scopes@[scope as int];
                        assert(after.pairs().drop_last() =~= before.pairs());
                    }
                },
            }
            proof {
                assert(self@ =~= defined(old(self)@, scope as int, name@, value@));
            }
        }
    }

    /// The value of the variable that `name` names for code running in
    /// `scope`: the scope itself is searched first, then each scope around it.
    pub fn get(&self, scope: usize, name: &Token) -> (result: Result<Literal, RuntimeError>)
        ensures
            match lookup(self@, scope as int, name.lexeme@) {
                Some(value) => result matches Ok(found) && found@ == value,
                None => result matches Err(error) && error@ == (RuntimeErrorView {
                    message: undefined_read(name.lexeme@),
                    line: name.line,
                }),
            },
    {
        let mut at: usize = scope;
        while at < self.scopes.len()
            invariant
                holder(self@, scope as int, name.lexeme@) == holder(self@, at as int, name.lexeme@),
            decreases at,
        {
            match self.scopes[at].find(&name.lexeme) {
                Some(i) => {
                    return Ok(self.scopes[at].bindings[i].value.clone());
                },
                None => {
                    match self.scopes[at].enclosing {
                        Some(outer) => {
                            if outer < at {
                                at = outer;
                            } else {
                                return Err(Self::undefined(name, "Undefined variable ", "."));
                            }
                        },
                        None => {
                            return Err(Self::undefined(name, "Undefined variable ", "."));
                        },
                    }
                },
            }
        }
        Err(Self::undefined(name, "Undefined variable ", "."))
    }

    /// Stores `value` in the variable that `name` names for code running in
    /// `scope`. Assignment never declares: a name that no scope binds is an error.
    pub fn assign(&mut self, scope: usize, name: &Token, value: &Literal) -> (result: Result<(), RuntimeError>)
        ensures
            final(self)@ == assigned(old(self)@, scope as int, name.lexeme@, value@),
            chained(old(self)@) ==> chained(final(self)@),
            match holder(old(self)@, scope as int, name.lexeme@) {
                Some(_) => result is Ok,
                None => result matches Err(error) && error@ == (RuntimeErrorView {
                    message: undefined_write(name.lexeme@),
                    line: name.line,
                }),
            },
    {
        let mut at: usize = scope;
        while at < self.scopes.len()
            invariant
                *self == *old(self),
                holder(self@, scope as int, name.lexeme@) == holder(self@, at as int, name.lexeme@),
            decreases at,
        {
            match self.scopes[at].find(&name.lexeme) {
                Some(_) => {
                    self.define(at, name.lexeme.clone(), Some(value.clone()));
                    return Ok(());
                },
                None => {
                    match self.scopes[at].enclosing {
                        Some(outer) => {
                            if outer < at {
                                at = outer;
                            } else {
                                return Err(Self::undefined(name, "Undefined variable '", "'."));
                            }
                        },
                        None => {
                            return Err(Self::undefined(name, "Undefined variable '", "'."));
                        },
                    }
                },
            }
        }
        Err(Self::undefined(name, "Undefined variable '", "'."))
    }
}

} // verus!
