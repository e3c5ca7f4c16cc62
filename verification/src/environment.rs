//! The scopes of a running program.
//!
//! Scopes are kept in one arena and named by their index. A scope is never
//! copied: a block, a call and every closure that captured a scope all name
//! the same entry, so an assignment made through one of them is seen through
//! the others.
//!
//! A scope is opened for a block or a call. When that is over the scope is
//! given up, unless a function was declared in it (the function may be
//! called later and will look for the scope) or a scope opened after it is
//! still there.

use vstd::prelude::*;
use crate::interpreter::{undefined_variable, RuntimeError};
use crate::literal::{Literal, LiteralView};
use crate::token::Token;
use vstd::hash_map::StringHashMap;

verus! {

/// One scope: what it binds, the scope around it, and whether a function
/// was declared in it, which may outlive the block or call that opened it.
pub struct Scope {
    values: StringHashMap<Literal>,
    enclosing: Option<usize>,
    captured: bool,
}

/// The mathematical value of a [`Scope`].
pub struct ScopeView {
    pub values: Map<Seq<char>, LiteralView>,
    pub enclosing: Option<nat>,
    pub captured: bool,
}

/// The values of what a scope binds.
pub open spec fn value_views(values: Map<Seq<char>, Literal>) -> Map<Seq<char>, LiteralView> {
    Map::new(|name: Seq<char>| values.dom().contains(name), |name: Seq<char>| values[name]@)
}

impl View for Scope {
    type V = ScopeView;

    closed spec fn view(&self) -> ScopeView {
        ScopeView {
            values: value_views(self.values@),
            enclosing: match self.enclosing {
                Some(outer) => Some(outer as nat),
                None => None,
            },
            captured: self.captured,
        }
    }
}

/// The global scope before anything is bound in it.
pub open spec fn empty_global() -> ScopeView {
    ScopeView { values: Map::empty(), enclosing: None, captured: false }
}

/// The scopes form a tree rooted in scope 0, the global scope: it alone has
/// no enclosing scope, and every other scope is enclosed by one made before
/// it.
pub open spec fn is_scope_tree(scopes: Seq<ScopeView>) -> bool {
    &&& scopes.len() >= 1
    &&& scopes[0].enclosing is None
    &&& forall|i: int|
        1 <= i < scopes.len() ==> (#[trigger] scopes[i]).enclosing is Some
            && scopes[i].enclosing->0 < i
}

/// The scope reached from `scope` by going outward `distance` times.
pub open spec fn ancestor_of(scopes: Seq<ScopeView>, scope: nat, distance: nat) -> Option<nat>
    decreases distance,
{
    if scope >= scopes.len() {
        None
    } else if distance == 0 {
        Some(scope)
    } else {
        match scopes[scope as int].enclosing {
            Some(outer) => ancestor_of(scopes, outer, (distance - 1) as nat),
            None => None,
        }
    }
}

/// The innermost scope, from `scope` outward, that binds `name`.
pub open spec fn holder(scopes: Seq<ScopeView>, scope: nat, name: Seq<char>) -> Option<nat>
    decreases scope,
{
    if scope >= scopes.len() {
        None
    } else if scopes[scope as int].values.dom().contains(name) {
        Some(scope)
    } else {
        match scopes[scope as int].enclosing {
            Some(outer) => if outer < scope {
                holder(scopes, outer, name)
            } else {
                None
            },
            None => None,
        }
    }
}

/// The value that `name` has when looked up from `scope`: that of its
/// binding in the innermost scope that has one.
pub open spec fn lookup(scopes: Seq<ScopeView>, scope: nat, name: Seq<char>) -> Option<
    LiteralView,
> {
    match holder(scopes, scope, name) {
        Some(at) => Some(scopes[at as int].values[name]),
        None => None,
    }
}

/// The scopes after `name` is bound to `value` in scope `at`.
pub open spec fn with_binding(
    scopes: Seq<ScopeView>,
    at: nat,
    name: Seq<char>,
    value: LiteralView,
) -> Seq<ScopeView> {
    scopes.update(
        at as int,
        ScopeView { values: scopes[at as int].values.insert(name, value), ..scopes[at as int] },
    )
}

/// The scopes after one more is opened inside `enclosing`.
pub open spec fn with_scope(scopes: Seq<ScopeView>, enclosing: nat) -> Seq<ScopeView> {
    scopes.push(ScopeView { values: Map::empty(), enclosing: Some(enclosing), captured: false })
}

/// The scopes after a function was declared in scope `at`.
pub open spec fn with_capture(scopes: Seq<ScopeView>, at: nat) -> Seq<ScopeView> {
    scopes.update(at as int, ScopeView { captured: true, ..scopes[at as int] })
}

/// The scopes after the block or call that opened `scope` is over. The
/// scope is given up if it is the newest and no function was declared in
/// it; else it stays, for the functions that may still need it or the scopes
/// inside it.
pub open spec fn without_scope(scopes: Seq<ScopeView>, scope: nat) -> Seq<ScopeView> {
    if 0 < scope && scope + 1 == scopes.len() && !scopes[scope as int].captured {
        scopes.drop_last()
    } else {
        scopes
    }
}

/// A scope index that may be absent, as a mathematical value.
pub open spec fn index_view(index: Option<usize>) -> Option<nat> {
    match index {
        Some(i) => Some(i as nat),
        None => None,
    }
}

/// The arena of scopes.
pub struct Environment {
    scopes: Vec<Scope>,
}

impl View for Environment {
    type V = Seq<ScopeView>;

    closed spec fn view(&self) -> Seq<ScopeView> {
        Seq::new(self.scopes.len() as nat, |i: int| self.scopes[i]@)
    }
}

impl Environment {
    /// An arena that holds the global scope, empty, as scope 0.
    pub fn new() -> (environment: Self)
        ensures
            environment@ == seq![empty_global()],
            is_scope_tree(environment@),
    {
        let mut scopes: Vec<Scope> = Vec::new();
        let global = Scope { values: StringHashMap::new(), enclosing: None, captured: false };
        assert(global@.values =~= Map::empty());
        scopes.push(global);
        let environment = Environment { scopes };
        assert(environment@ =~= seq![empty_global()]);
        environment
    }

    /// The number of scopes.
    pub fn len(&self) -> (n: usize)
        ensures
            n == self@.len(),
    {
        self.scopes.len()
    }

    /// Opens an empty scope inside `enclosing` and returns its index.
    pub fn open_scope(&mut self, enclosing: usize) -> (scope: usize)
        requires
            is_scope_tree(old(self)@),
            enclosing < old(self)@.len(),
        ensures
            scope == old(self)@.len(),
            final(self)@ == with_scope(old(self)@, enclosing as nat),
            is_scope_tree(final(self)@),
    {
        let scope = self.scopes.len();
        let inner = Scope {
            values: StringHashMap::new(),
            enclosing: Some(enclosing),
            captured: false,
        };
        assert(inner@.values =~= Map::empty());
        self.scopes.push(inner);
        assert(self@ =~= with_scope(old(self)@, enclosing as nat));
        scope
    }

    /// Gives up `scope` at the end of the block or call that opened it, if
    /// it is the newest scope and no function was declared in it. The
    /// caller sees to it that nothing names the scope any more.
    pub fn close_scope(&mut self, scope: usize)
        requires
            is_scope_tree(old(self)@),
        ensures
            final(self)@ == without_scope(old(self)@, scope as nat),
            is_scope_tree(final(self)@),
    {
        let n = self.scopes.len();
        if 0 < scope && scope == n - 1 && !self.scopes[scope].captured {
            self.scopes.pop();
            assert(self@ =~= old(self)@.drop_last());
        }
    }

    /// Records that a function was declared in `scope`.
    pub fn capture(&mut self, scope: usize)
        requires
            is_scope_tree(old(self)@),
            scope < old(self)@.len(),
        ensures
            final(self)@ == with_capture(old(self)@, scope as nat),
            is_scope_tree(final(self)@),
    {
        self.scopes[scope].captured = true;
        assert(self@ =~= with_capture(old(self)@, scope as nat));
    }

    /// Binds `name` to `value` in `scope`, whether or not the scope bound
    /// the name before. No other scope changes.
    pub fn define(&mut self, scope: usize, name: String, value: Literal)
        requires
            is_scope_tree(old(self)@),
            scope < old(self)@.len(),
        ensures
            final(self)@ == with_binding(old(self)@, scope as nat, name@, value@),
            is_scope_tree(final(self)@),
    {
        self.scopes[scope].values.insert(name, value);
        proof {
            assert(self.scopes[scope as int]@.values =~= old(self).scopes[scope as int]@.values.insert(
                name@,
                value@,
            ));
            assert(self@ =~= with_binding(old(self)@, scope as nat, name@, value@));
        }
    }

    /// The scope `distance` steps outward from `scope`, if the chain is that
    /// long.
    pub fn ancestor(&self, scope: usize, distance: usize) -> (found: Option<usize>)
        requires
            is_scope_tree(self@),
        ensures
            index_view(found) == ancestor_of(self@, scope as nat, distance as nat),
    {
        if scope >= self.scopes.len() {
            return None;
        }
        let mut current: usize = scope;
        let mut remaining: usize = distance;
        while remaining > 0
            invariant
                is_scope_tree(self@),
                current < self.scopes.len(),
                ancestor_of(self@, current as nat, remaining as nat) == ancestor_of(
                    self@,
                    scope as nat,
                    distance as nat,
                ),
            decreases remaining,
        {
            match self.scopes[current].enclosing {
                Some(outer) => {
                    assert(self@[current as int].enclosing == Some(outer as nat));
                    current = outer;
                    remaining -= 1;
                },
                None => {
                    assert(self@[current as int].enclosing is None);
                    return None;
                },
            }
        }
        Some(current)
    }

    /// The value that scope `at` itself binds to `name`.
    fn bound_in(&self, at: usize, name: &String) -> (value: Option<Literal>)
        requires
            at < self@.len(),
        ensures
            if self@[at as int].values.dom().contains(name@) {
                value matches Some(v) && v@ == self@[at as int].values[name@]
            } else {
                value is None
            },
    {
        match self.scopes[at].values.get(name.as_str()) {
            Some(value) => Some(value.clone()),
            None => None,
        }
    }

    /// The value bound to `name` in the scope `distance` steps outward from
    /// `scope`; no other scope is searched.
    pub fn get_at(&self, scope: usize, distance: usize, name: &String) -> (value: Option<Literal>)
        requires
            is_scope_tree(self@),
        ensures
            match ancestor_of(self@, scope as nat, distance as nat) {
                Some(at) => if self@[at as int].values.dom().contains(name@) {
                    value matches Some(v) && v@ == self@[at as int].values[name@]
                } else {
                    value is None
                },
                None => value is None,
            },
    {
        match self.ancestor(scope, distance) {
            Some(at) => {
                proof {
                    ancestor_is_scope(self@, scope as nat, distance as nat);
                }
                self.bound_in(at, name)
            },
            None => None,
        }
    }

    /// Binds `name` to `value` in the scope `distance` steps outward from
    /// `scope`, and tells whether there is such a scope. Without one nothing
    /// changes.
    pub fn assign_at(&mut self, scope: usize, distance: usize, name: &Token, value: Literal) -> (stored:
        bool)
        requires
            is_scope_tree(old(self)@),
        ensures
            is_scope_tree(final(self)@),
            match ancestor_of(old(self)@, scope as nat, distance as nat) {
                Some(at) => stored && final(self)@ == with_binding(
                    old(self)@,
                    at,
                    name@.lexeme,
                    value@,
                ),
                None => !stored && final(self)@ == old(self)@,
            },
    {
        match self.ancestor(scope, distance) {
            Some(at) => {
                proof {
                    ancestor_is_scope(self@, scope as nat, distance as nat);
                }
                self.define(at, name.lexeme.clone(), value);
                true
            },
            None => false,
        }
    }

    /// The innermost scope, from `scope` outward, that binds `name`.
    fn find(&self, scope: usize, name: &String) -> (found: Option<usize>)
        requires
            is_scope_tree(self@),
        ensures
            index_view(found) == holder(self@, scope as nat, name@),
            found matches Some(at) ==> at < self@.len() && self@[at as int].values.dom().contains(
                name@,
            ),
    {
        if scope >= self.scopes.len() {
            return None;
        }
        let mut current: usize = scope;
        loop
            invariant
                is_scope_tree(self@),
                current < self.scopes.len(),
                holder(self@, current as nat, name@) == holder(self@, scope as nat, name@),
            decreases current,
        {
            if self.scopes[current].values.contains_key(name.as_str()) {
                return Some(current);
            }
            match self.scopes[current].enclosing {
                Some(outer) => {
                    assert(self@[current as int].enclosing == Some(outer as nat));
                    current = outer;
                },
                None => {
                    assert(self@[current as int].enclosing is None);
                    return None;
                },
            }
        }
    }

    /// The value of `name` as seen from `scope`: the scopes are searched
    /// outward from `scope`, and the first that binds the name gives the
    /// value. A name that none binds is an error.
    pub fn get(&self, scope: usize, name: &Token) -> (value: Result<Literal, RuntimeError>)
        requires
            is_scope_tree(self@),
        ensures
            match lookup(self@, scope as nat, name@.lexeme) {
                Some(v) => value matches Ok(found) && found@ == v,
                None => value matches Err(error) && error@ == undefined_variable(name@),
            },
    {
        match self.find(scope, &name.lexeme) {
            Some(at) => match self.bound_in(at, &name.lexeme) {
                Some(value) => Ok(value),
                None => Err(RuntimeError::undefined(name)),
            },
            None => Err(RuntimeError::undefined(name)),
        }
    }

    /// Gives `name` the value `value` in the innermost scope, from `scope`
    /// outward, that binds it. A name that none binds is an error, and then
    /// nothing changes: assignment never declares.
    pub fn assign(&mut self, scope: usize, name: &Token, value: Literal) -> (done: Result<
        (),
        RuntimeError,
    >)
        requires
            is_scope_tree(old(self)@),
        ensures
            is_scope_tree(final(self)@),
            match holder(old(self)@, scope as nat, name@.lexeme) {
                Some(at) => done is Ok && final(self)@ == with_binding(
                    old(self)@,
                    at,
                    name@.lexeme,
                    value@,
                ),
                None => done matches Err(error) && error@ == undefined_variable(name@)
                    && final(self)@ == old(self)@,
            },
    {
        match self.find(scope, &name.lexeme) {
            Some(at) => {
                self.define(at, name.lexeme.clone(), value);
                Ok(())
            },
            None => Err(RuntimeError::undefined(name)),
        }
    }
}

/// An ancestor, where there is one, is a scope of the arena.
pub proof fn ancestor_is_scope(scopes: Seq<ScopeView>, scope: nat, distance: nat)
    requires
        is_scope_tree(scopes),
    ensures
        ancestor_of(scopes, scope, distance) matches Some(at) ==> at < scopes.len() && at <= scope,
    decreases distance,
{
    if scope < scopes.len() && distance > 0 {
        match scopes[scope as int].enclosing {
            Some(outer) => {
                ancestor_is_scope(scopes, outer, (distance - 1) as nat);
            },
            None => {},
        }
    }
}

/// A name bound in a scope is found there, with the value it was bound to.
pub proof fn binding_is_found(scopes: Seq<ScopeView>, at: nat, name: Seq<char>, value: LiteralView)
    requires
        at < scopes.len(),
    ensures
        lookup(with_binding(scopes, at, name, value), at, name) == Some(value),
{
}

/// Shadowing: what is bound in an inner scope changes nothing that is
/// looked up from a scope made before it, whatever the name.
pub proof fn inner_binding_is_hidden(
    scopes: Seq<ScopeView>,
    outer: nat,
    inner: nat,
    name: Seq<char>,
    value: LiteralView,
    sought: Seq<char>,
)
    requires
        is_scope_tree(scopes),
        outer < inner < scopes.len(),
    ensures
        holder(with_binding(scopes, inner, name, value), outer, sought) == holder(
            scopes,
            outer,
            sought,
        ),
        lookup(with_binding(scopes, inner, name, value), outer, sought) == lookup(
            scopes,
            outer,
            sought,
        ),
    decreases outer,
{
    let after = with_binding(scopes, inner, name, value);
    assert(after[outer as int] == scopes[outer as int]);
    if !scopes[outer as int].values.dom().contains(sought) {
        match scopes[outer as int].enclosing {
            Some(next) => {
                if next < outer {
                    inner_binding_is_hidden(scopes, next, inner, name, value, sought);
                }
            },
            None => {},
        }
    }
    holder_is_within(scopes, outer, sought);
}

/// The scope that holds a name is the scope the search started from or one
/// made before it, and binds the name.
pub proof fn holder_is_within(scopes: Seq<ScopeView>, scope: nat, name: Seq<char>)
    ensures
        holder(scopes, scope, name) matches Some(at) ==> at <= scope && at < scopes.len()
            && scopes[at as int].values.dom().contains(name),
    decreases scope,
{
    if scope < scopes.len() && !scopes[scope as int].values.dom().contains(name) {
        match scopes[scope as int].enclosing {
            Some(outer) => {
                if outer < scope {
                    holder_is_within(scopes, outer, name);
                }
            },
            None => {},
        }
    }
}

/// Sharing: a scope is one thing to all who name it. After a name is given
/// a value in the scope that holds it, every scope that found the name
/// there finds the new value, and finds every other name as before.
pub proof fn assignment_is_shared(
    scopes: Seq<ScopeView>,
    from: nat,
    at: nat,
    name: Seq<char>,
    value: LiteralView,
    sought: Seq<char>,
)
    requires
        holder(scopes, from, name) == Some(at),
    ensures
        lookup(with_binding(scopes, at, name, value), from, name) == Some(value),
        sought != name ==> lookup(with_binding(scopes, at, name, value), from, sought) == lookup(
            scopes,
            from,
            sought,
        ),
    decreases from,
{
    let after = with_binding(scopes, at, name, value);
    holder_is_within(scopes, from, name);
    same_names_same_holder(scopes, after, from, name);
    if sought != name {
        same_names_same_holder(scopes, after, from, sought);
        holder_is_within(scopes, from, sought);
    }
}

/// Where two arenas have the same scopes around each other and bind the
/// same names in each, a name is held by the same scope in both.
pub proof fn same_names_same_holder(
    scopes: Seq<ScopeView>,
    others: Seq<ScopeView>,
    from: nat,
    name: Seq<char>,
)
    requires
        scopes.len() == others.len(),
        forall|i: int|
            0 <= i < scopes.len() ==> (#[trigger] scopes[i]).enclosing == others[i].enclosing
                && scopes[i].values.dom().contains(name) == others[i].values.dom().contains(name),
    ensures
        holder(scopes, from, name) == holder(others, from, name),
    decreases from,
{
    if from < scopes.len() {
        assert(scopes[from as int].enclosing == others[from as int].enclosing);
        if !scopes[from as int].values.dom().contains(name) {
            match scopes[from as int].enclosing {
                Some(outer) => {
                    if outer < from {
                        same_names_same_holder(scopes, others, outer, name);
                    }
                },
                None => {},
            }
        }
    }
}

/// A scope that has just been opened binds nothing of its own: every name
/// looked up from it is found as from the scope around it, and the scopes
/// that were there find every name as before.
pub proof fn new_scope_sees_enclosing(
    scopes: Seq<ScopeView>,
    enclosing: nat,
    from: nat,
    sought: Seq<char>,
)
    requires
        is_scope_tree(scopes),
        enclosing < scopes.len(),
        from < scopes.len(),
    ensures
        lookup(with_scope(scopes, enclosing), scopes.len(), sought) == lookup(
            scopes,
            enclosing,
            sought,
        ),
        lookup(with_scope(scopes, enclosing), from, sought) == lookup(scopes, from, sought),
{
    let after = with_scope(scopes, enclosing);
    prefix_same_holder(scopes, after, from, sought);
    prefix_same_holder(scopes, after, enclosing, sought);
    holder_is_within(scopes, from, sought);
    holder_is_within(scopes, enclosing, sought);
}

/// Scopes added at the end of an arena change nothing for the scopes that
/// were there.
pub proof fn prefix_same_holder(
    scopes: Seq<ScopeView>,
    longer: Seq<ScopeView>,
    from: nat,
    name: Seq<char>,
)
    requires
        scopes.len() <= longer.len(),
        forall|i: int| 0 <= i < scopes.len() ==> #[trigger] scopes[i] == longer[i],
        from < scopes.len(),
    ensures
        holder(scopes, from, name) == holder(longer, from, name),
    decreases from,
{
    assert(scopes[from as int] == longer[from as int]);
    if !scopes[from as int].values.dom().contains(name) {
        match scopes[from as int].enclosing {
            Some(outer) => {
                if outer < from {
                    prefix_same_holder(scopes, longer, outer, name);
                }
            },
            None => {},
        }
    }
}

} // verus!
