//! Static resolution of variables.

use vstd::prelude::*;
use std::collections::HashMap;
use crate::expression::{call_arguments_view, expr_views, Expr, ExprView};
use crate::statement::{block_view, function_view, stmt_views, Stmt, StmtView};
use crate::token::{token_views, Token, TokenView};

verus! {

/// For each reference to a local variable, the number of scopes between the
/// reference and the scope that declares the variable (0 for the innermost
/// scope). References are named by the number that their node carries. A
/// reference without an entry is to a global variable.
pub struct ResolutionMap {
    distances: HashMap<usize, usize>,
}

impl View for ResolutionMap {
    type V = Map<usize, usize>;

    closed spec fn view(&self) -> Map<usize, usize> {
        self.distances@
    }
}

impl ResolutionMap {
    /// A table without entries.
    pub fn new() -> (table: Self)
        ensures
            table@ == Map::<usize, usize>::empty(),
    {
        ResolutionMap { distances: HashMap::new() }
    }

    /// Records the distance of reference `id`, in place of an earlier entry
    /// for it.
    pub fn record(&mut self, id: usize, distance: usize)
        ensures
            final(self)@ == old(self)@.insert(id, distance),
    {
        self.distances.insert(id, distance);
    }

    /// The recorded distance of reference `id`, or `None` for a reference
    /// without an entry.
    pub fn distance(&self, id: usize) -> (found: Option<usize>)
        ensures
            found == (if self@.dom().contains(id) {
                Some(self@[id])
            } else {
                None
            }),
    {
        match self.distances.get(&id) {
            Some(distance) => Some(*distance),
            None => None,
        }
    }
}

/// The scopes around a place in the program, outermost first, each with
/// the names declared in it so far. The global scope is not among them.
pub type Nesting = Seq<Seq<Seq<char>>>;

/// The number of scopes between a reference to `name` and the innermost
/// scope that declares it, or `None` where no scope does.
pub open spec fn distance_of(scopes: Nesting, name: Seq<char>) -> Option<nat>
    decreases scopes.len(),
{
    if scopes.len() == 0 {
        None
    } else if scopes.last().contains(name) {
        Some(0)
    } else {
        match distance_of(scopes.drop_last(), name) {
            Some(distance) => Some(distance + 1),
            None => None,
        }
    }
}

/// A reference belongs to the innermost scope that declares its name: the
/// distance leads to a scope that declares the name, and no scope nearer to
/// the reference does. A name without a distance is declared by no scope.
pub proof fn distance_is_innermost(scopes: Nesting, name: Seq<char>)
    ensures
        match distance_of(scopes, name) {
            Some(distance) => distance < scopes.len() && scopes[scopes.len() - 1
                - distance].contains(name) && forall|nearer: int|
                0 <= nearer < distance ==> !(#[trigger] scopes[scopes.len() - 1
                    - nearer]).contains(name),
            None => forall|i: int| 0 <= i < scopes.len() ==> !(#[trigger] scopes[i]).contains(name),
        },
    decreases scopes.len(),
{
    if scopes.len() > 0 && !scopes.last().contains(name) {
        let outer = scopes.drop_last();
        distance_is_innermost(outer, name);
        match distance_of(outer, name) {
            Some(distance) => {
                assert(outer[outer.len() - 1 - distance] == scopes[scopes.len() - 1 - (distance
                    + 1)]);
                assert forall|nearer: int| 0 <= nearer < distance + 1 implies !(
                #[trigger] scopes[scopes.len() - 1 - nearer]).contains(name) by {
                    if nearer > 0 {
                        assert(scopes[scopes.len() - 1 - nearer] == outer[outer.len() - 1 - (
                        nearer - 1)]);
                    }
                }
            },
            None => {
                assert forall|i: int| 0 <= i < scopes.len() implies !(#[trigger] scopes[i]).contains(
                    name,
                ) by {
                    if i < outer.len() {
                        assert(scopes[i] == outer[i]);
                    }
                }
            },
        }
    }
}

/// The scopes after `name` is declared in the innermost one. At the top
/// level, where there is none, nothing is recorded: the name is global.
pub open spec fn declared(scopes: Nesting, name: Seq<char>) -> Nesting {
    if scopes.len() == 0 {
        scopes
    } else {
        scopes.update(scopes.len() - 1, scopes.last().push(name))
    }
}

/// The scopes after each of the `count` first parameters is declared in the
/// innermost one.
pub open spec fn declared_all(scopes: Nesting, parameters: Seq<TokenView>, count: nat) -> Nesting
    decreases count,
{
    if count == 0 {
        scopes
    } else {
        declared(
            declared_all(scopes, parameters, (count - 1) as nat),
            parameters[count - 1].lexeme,
        )
    }
}

/// The table after reference `id` to `name` is resolved among `scopes`: it
/// has the distance for a name that a scope declares, and is unchanged for
/// any other.
pub open spec fn noted(table: Map<usize, usize>, scopes: Nesting, name: Seq<char>, id: usize)
    -> Map<usize, usize> {
    match distance_of(scopes, name) {
        Some(distance) => table.insert(id, distance as usize),
        None => table,
    }
}

/// The table after the references in `expr` are resolved among `scopes`.
/// In an assignment the assigned expression comes before the target.
pub open spec fn resolved_expr(table: Map<usize, usize>, scopes: Nesting, expr: ExprView) -> Map<
    usize,
    usize,
>
    decreases expr, 0nat,
{
    match expr {
        ExprView::Literal(_) => table,
        ExprView::Variable(name, id) => noted(table, scopes, name.lexeme, id),
        ExprView::Assign(name, id, value) => noted(
            resolved_expr(table, scopes, *value),
            scopes,
            name.lexeme,
            id,
        ),
        ExprView::Binary(left, _, right) => resolved_expr(
            resolved_expr(table, scopes, *left),
            scopes,
            *right,
        ),
        ExprView::Logical(left, _, right) => resolved_expr(
            resolved_expr(table, scopes, *left),
            scopes,
            *right,
        ),
        ExprView::Unary(_, operand) => resolved_expr(table, scopes, *operand),
        ExprView::Grouping(inner) => resolved_expr(table, scopes, *inner),
        ExprView::Call(callee, _, arguments) => resolved_exprs(
            resolved_expr(table, scopes, *callee),
            scopes,
            arguments,
            arguments.len(),
        ),
    }
}

/// The table after the references in the `count` first of `exprs` are
/// resolved, in order.
pub open spec fn resolved_exprs(
    table: Map<usize, usize>,
    scopes: Nesting,
    exprs: Seq<ExprView>,
    count: nat,
) -> Map<usize, usize>
    decreases exprs, count,
{
    if count == 0 || count > exprs.len() {
        table
    } else {
        resolved_expr(
            resolved_exprs(table, scopes, exprs, (count - 1) as nat),
            scopes,
            exprs[count - 1],
        )
    }
}

/// The state of a resolver: the scopes around the place it has reached, and
/// the table made so far.
pub struct Resolution {
    pub scopes: Nesting,
    pub table: Map<usize, usize>,
}

/// The table after the references in an expression that may be absent are
/// resolved.
pub open spec fn resolved_optional(
    table: Map<usize, usize>,
    scopes: Nesting,
    expr: Option<ExprView>,
) -> Map<usize, usize> {
    match expr {
        Some(e) => resolved_expr(table, scopes, e),
        None => table,
    }
}

/// The state after `stmt` is resolved.
///
/// * A variable is declared after its initializer is resolved.
/// * A block is resolved in a new scope, which is gone after it.
/// * A function's name is declared before its body is resolved, so that the
///   body can refer to it. The body is resolved in a new scope that
///   declares the parameters, and which is gone after it.
pub open spec fn resolved_stmt(state: Resolution, stmt: StmtView) -> Resolution
    decreases stmt, 0nat,
{
    match stmt {
        StmtView::Expression(expr) => Resolution {
            table: resolved_expr(state.table, state.scopes, expr),
            ..state
        },
        StmtView::Print(expr) => Resolution {
            table: resolved_expr(state.table, state.scopes, expr),
            ..state
        },
        StmtView::Var(name, initializer) => Resolution {
            scopes: declared(state.scopes, name.lexeme),
            table: resolved_optional(state.table, state.scopes, initializer),
        },
        StmtView::Block(statements) => Resolution {
            scopes: state.scopes,
            table: resolved_stmts(
                Resolution { scopes: state.scopes.push(Seq::empty()), table: state.table },
                statements,
                statements.len(),
            ).table,
        },
        StmtView::If(condition, then_branch, else_branch) => {
            let tested = Resolution {
                table: resolved_expr(state.table, state.scopes, condition),
                ..state
            };
            let first = resolved_stmt(tested, *then_branch);
            match else_branch {
                Some(branch) => resolved_stmt(first, *branch),
                None => first,
            }
        },
        StmtView::While(condition, body) => resolved_stmt(
            Resolution { table: resolved_expr(state.table, state.scopes, condition), ..state },
            *body,
        ),
        StmtView::Function(name, parameters, body) => {
            let outside = declared(state.scopes, name.lexeme);
            Resolution {
                scopes: outside,
                table: resolved_stmts(
                    Resolution {
                        scopes: declared_all(
                            outside.push(Seq::empty()),
                            parameters,
                            parameters.len(),
                        ),
                        table: state.table,
                    },
                    body,
                    body.len(),
                ).table,
            }
        },
        StmtView::Return(_, value) => Resolution {
            table: resolved_optional(state.table, state.scopes, value),
            ..state
        },
    }
}

/// The state after the `count` first of `statements` are resolved, in
/// order.
pub open spec fn resolved_stmts(state: Resolution, statements: Seq<StmtView>, count: nat)
    -> Resolution
    decreases statements, count,
{
    if count == 0 || count > statements.len() {
        state
    } else {
        resolved_stmt(
            resolved_stmts(state, statements, (count - 1) as nat),
            statements[count - 1],
        )
    }
}

/// The table of a program: that of its statements, resolved from the top
/// level.
pub open spec fn resolution(statements: Seq<StmtView>) -> Map<usize, usize> {
    resolved_stmts(
        Resolution { scopes: Seq::empty(), table: Map::empty() },
        statements,
        statements.len(),
    ).table
}

/// Declaring a name changes the innermost scope only.
pub proof fn declared_keeps_outer(scopes: Nesting, name: Seq<char>)
    ensures
        declared(scopes, name).len() == scopes.len(),
        declared(scopes, name).drop_last() == scopes.drop_last(),
{
    if scopes.len() > 0 {
        assert(declared(scopes, name).drop_last() =~= scopes.drop_last());
    }
}

/// Resolving a statement changes the innermost scope only.
pub proof fn statement_keeps_outer(state: Resolution, stmt: StmtView)
    ensures
        resolved_stmt(state, stmt).scopes.len() == state.scopes.len(),
        resolved_stmt(state, stmt).scopes.drop_last() == state.scopes.drop_last(),
    decreases stmt,
{
    match stmt {
        StmtView::Var(name, initializer) => {
            declared_keeps_outer(state.scopes, name.lexeme);
        },
        StmtView::If(condition, then_branch, else_branch) => {
            let tested = Resolution {
                table: resolved_expr(state.table, state.scopes, condition),
                ..state
            };
            statement_keeps_outer(tested, *then_branch);
            match else_branch {
                Some(branch) => {
                    statement_keeps_outer(resolved_stmt(tested, *then_branch), *branch);
                },
                None => {},
            }
        },
        StmtView::While(condition, body) => {
            statement_keeps_outer(
                Resolution {
                    table: resolved_expr(state.table, state.scopes, condition),
                    ..state
                },
                *body,
            );
        },
        StmtView::Function(name, parameters, body) => {
            declared_keeps_outer(state.scopes, name.lexeme);
        },
        _ => {},
    }
}

/// Resolving statements changes the innermost scope only.
pub proof fn statements_keep_outer(state: Resolution, statements: Seq<StmtView>, count: nat)
    ensures
        resolved_stmts(state, statements, count).scopes.len() == state.scopes.len(),
        resolved_stmts(state, statements, count).scopes.drop_last() == state.scopes.drop_last(),
    decreases count,
{
    if !(count == 0 || count > statements.len()) {
        statements_keep_outer(state, statements, (count - 1) as nat);
        statement_keeps_outer(
            resolved_stmts(state, statements, (count - 1) as nat),
            statements[count - 1],
        );
    }
}

/// The names of a scope, in the order in which they were declared.
pub open spec fn name_views(names: Seq<String>) -> Seq<Seq<char>> {
    Seq::new(names.len(), |i: int| names[i]@)
}

/// The scopes of a resolver, outermost first.
pub open spec fn nesting_view(scopes: Seq<Vec<String>>) -> Nesting {
    Seq::new(scopes.len(), |i: int| name_views(scopes[i]@))
}

/// Whether `name` is among `names`.
fn has_name(names: &Vec<String>, name: &String) -> (r: bool)
    ensures
        r == name_views(names@).contains(name@),
{
    let mut i: usize = 0;
    while i < names.len()
        invariant
            i <= names.len(),
            forall|j: int| 0 <= j < i ==> name_views(names@)[j] != name@,
        decreases names.len() - i,
    {
        if names[i] == *name {
            assert(name_views(names@)[i as int] == name@);
            return true;
        }
        i += 1;
    }
    false
}

/// The resolver: it walks a program in the order of its text and records,
/// for each reference to a local variable, where the variable is declared.
pub struct Resolver {
    scopes: Vec<Vec<String>>,
    table: ResolutionMap,
}

impl View for Resolver {
    type V = Resolution;

    closed spec fn view(&self) -> Resolution {
        Resolution { scopes: nesting_view(self.scopes@), table: self.table@ }
    }
}

impl Resolver {
    /// A resolver at the top level of a program, with an empty table.
    pub fn new() -> (resolver: Self)
        ensures
            resolver@ == (Resolution { scopes: Seq::empty(), table: Map::empty() }),
    {
        let resolver = Resolver { scopes: Vec::new(), table: ResolutionMap::new() };
        assert(resolver@.scopes =~= Seq::empty());
        resolver
    }

    /// The table made so far.
    pub fn finish(self) -> (table: ResolutionMap)
        ensures
            table@ == self@.table,
    {
        self.table
    }

    /// The distance from here to the innermost scope that declares `name`.
    fn distance(&self, name: &String) -> (found: Option<usize>)
        ensures
            match found {
                Some(distance) => distance_of(self@.scopes, name@) == Some(distance as nat),
                None => distance_of(self@.scopes, name@) is None,
            },
    {
        let n = self.scopes.len();
        let mut i: usize = n;
        assert(self@.scopes.subrange(0, n as int) =~= self@.scopes);
        while i > 0
            invariant
                i <= n,
                n == self.scopes.len(),
                distance_of(self@.scopes, name@) == match distance_of(
                    self@.scopes.subrange(0, i as int),
                    name@,
                ) {
                    Some(distance) => Some(distance + (n - i) as nat),
                    None => None,
                },
            decreases i,
        {
            let ghost outer = self@.scopes.subrange(0, i as int);
            i -= 1;
            assert(outer.drop_last() =~= self@.scopes.subrange(0, i as int));
            assert(outer.last() == name_views(self.scopes[i as int]@));
            if has_name(&self.scopes[i], name) {
                return Some(n - 1 - i);
            }
        }
        None
    }

    /// Resolves reference `id` to `name`.
    fn note(&mut self, name: &Token, id: usize)
        ensures
            final(self)@ == (Resolution {
                table: noted(old(self)@.table, old(self)@.scopes, name@.lexeme, id),
                ..old(self)@
            }),
    {
        match self.distance(&name.lexeme) {
            Some(distance) => {
                self.table.record(id, distance);
            },
            None => {},
        }
    }

    /// Declares `name` in the innermost scope.
    fn declare(&mut self, name: &Token)
        ensures
            final(self)@ == (Resolution {
                scopes: declared(old(self)@.scopes, name@.lexeme),
                ..old(self)@
            }),
    {
        let n = self.scopes.len();
        if n > 0 {
            self.scopes[n - 1].push(name.lexeme.clone());
            assert(name_views(self.scopes[n - 1]@) =~= name_views(old(self).scopes[n - 1]@).push(
                name@.lexeme,
            ));
            assert(self@.scopes =~= declared(old(self)@.scopes, name@.lexeme));
        }
    }

    /// Opens a scope.
    fn begin_scope(&mut self)
        ensures
            final(self)@ == (Resolution {
                scopes: old(self)@.scopes.push(Seq::empty()),
                ..old(self)@
            }),
    {
        let inner: Vec<String> = Vec::new();
        assert(name_views(inner@) =~= Seq::empty());
        self.scopes.push(inner);
        assert(self@.scopes =~= old(self)@.scopes.push(Seq::empty()));
    }

    /// Closes the innermost scope.
    fn end_scope(&mut self)
        requires
            old(self)@.scopes.len() > 0,
        ensures
            final(self)@ == (Resolution {
                scopes: old(self)@.scopes.drop_last(),
                ..old(self)@
            }),
    {
        self.scopes.pop();
        assert(self@.scopes =~= old(self)@.scopes.drop_last());
    }

    /// Resolves the references in `expr`.
    #[verifier::loop_isolation(false)]
    #[verifier::spinoff_prover]
    fn expression(&mut self, expr: &Expr)
        ensures
            final(self)@ == (Resolution {
                table: resolved_expr(old(self)@.table, old(self)@.scopes, expr@),
                ..old(self)@
            }),
        decreases expr,
    {
        match expr {
            Expr::Literal(_) => {},
            Expr::Variable(name, id) => {
                self.note(name, *id);
            },
            Expr::Assign(name, id, value) => {
                self.expression(value);
                self.note(name, *id);
            },
            Expr::Binary(left, _, right) => {
                self.expression(left);
                self.expression(right);
            },
            Expr::Logical(left, _, right) => {
                self.expression(left);
                self.expression(right);
            },
            Expr::Unary(_, operand) => {
                self.expression(operand);
            },
            Expr::Grouping(inner) => {
                self.expression(inner);
            },
            Expr::Call(callee, paren, arguments) => {
                proof {
                    call_arguments_view(*callee, *paren, *arguments);
                }
                self.expression(callee);
                let ghost start = self@;
                let mut i: usize = 0;
                while i < arguments.len()
                    invariant
                        i <= arguments.len(),
                        self@ == (Resolution {
                            table: resolved_exprs(
                                start.table,
                                start.scopes,
                                expr_views(arguments@),
                                i as nat,
                            ),
                            ..start
                        }),
                    decreases arguments.len() - i,
                {
                    self.expression(&arguments[i]);
                    i += 1;
                }
            },
        }
    }

    /// Resolves the references in an expression that may be absent.
    fn optional(&mut self, expr: &Option<Expr>)
        ensures
            final(self)@ == (Resolution {
                table: resolved_optional(
                    old(self)@.table,
                    old(self)@.scopes,
                    crate::statement::optional_expr_view(*expr),
                ),
                ..old(self)@
            }),
    {
        match expr {
            Some(e) => {
                self.expression(e);
            },
            None => {},
        }
    }

    /// Resolves `stmt`.
    #[verifier::loop_isolation(false)]
    #[verifier::spinoff_prover]
    fn statement(&mut self, stmt: &Stmt)
        ensures
            final(self)@ == resolved_stmt(old(self)@, stmt@),
        decreases stmt,
    {
        match stmt {
            Stmt::Expression(expr) => {
                self.expression(expr);
            },
            Stmt::Print(expr) => {
                self.expression(expr);
            },
            Stmt::Var(name, initializer) => {
                self.optional(initializer);
                self.declare(name);
            },
            Stmt::Block(statements) => {
                proof {
                    block_view(*statements);
                }
                let ghost outside = self@;
                self.begin_scope();
                let ghost inside = self@;
                let mut i: usize = 0;
                while i < statements.len()
                    invariant
                        i <= statements.len(),
                        self@ == resolved_stmts(inside, stmt_views(statements@), i as nat),
                    decreases statements.len() - i,
                {
                    self.statement(&statements[i]);
                    i += 1;
                }
                proof {
                    statements_keep_outer(inside, stmt_views(statements@), statements.len() as nat);
                    assert(inside.scopes.drop_last() =~= outside.scopes);
                }
                self.end_scope();
            },
            Stmt::If(condition, then_branch, else_branch) => {
                self.expression(condition);
                self.statement(then_branch);
                match else_branch {
                    Some(branch) => {
                        self.statement(branch);
                    },
                    None => {},
                }
            },
            Stmt::While(condition, body) => {
                self.expression(condition);
                self.statement(body);
            },
            Stmt::Function(name, parameters, body) => {
                proof {
                    function_view(*name, *parameters, *body);
                }
                self.declare(name);
                let ghost outside = self@;
                self.begin_scope();
                let ghost opened = self@;
                let mut k: usize = 0;
                while k < parameters.len()
                    invariant
                        k <= parameters.len(),
                        self@ == (Resolution {
                            scopes: declared_all(
                                opened.scopes,
                                token_views(parameters@),
                                k as nat,
                            ),
                            ..opened
                        }),
                    decreases parameters.len() - k,
                {
                    self.declare(&parameters[k]);
                    k += 1;
                }
                let ghost inside = self@;
                let mut i: usize = 0;
                while i < body.len()
                    invariant
                        i <= body.len(),
                        self@ == resolved_stmts(inside, stmt_views(body@), i as nat),
                    decreases body.len() - i,
                {
                    self.statement(&body[i]);
                    i += 1;
                }
                proof {
                    statements_keep_outer(inside, stmt_views(body@), body.len() as nat);
                    parameters_keep_outer(
                        opened.scopes,
                        token_views(parameters@),
                        parameters.len() as nat,
                    );
                    assert(opened.scopes.drop_last() =~= outside.scopes);
                }
                self.end_scope();
            },
            Stmt::Return(_, value) => {
                self.optional(value);
            },
        }
    }

    /// Resolves the statements of a program, in order.
    pub fn resolve(&mut self, statements: &Vec<Stmt>)
        ensures
            final(self)@ == resolved_stmts(
                old(self)@,
                stmt_views(statements@),
                statements@.len(),
            ),
    {
        let mut i: usize = 0;
        while i < statements.len()
            invariant
                i <= statements.len(),
                self@ == resolved_stmts(old(self)@, stmt_views(statements@), i as nat),
            decreases statements.len() - i,
        {
            self.statement(&statements[i]);
            i += 1;
        }
    }
}

/// Declaring parameters changes the innermost scope only.
pub proof fn parameters_keep_outer(scopes: Nesting, parameters: Seq<TokenView>, count: nat)
    ensures
        declared_all(scopes, parameters, count).len() == scopes.len(),
        declared_all(scopes, parameters, count).drop_last() == scopes.drop_last(),
    decreases count,
{
    if count > 0 {
        parameters_keep_outer(scopes, parameters, (count - 1) as nat);
        declared_keeps_outer(
            declared_all(scopes, parameters, (count - 1) as nat),
            parameters[count - 1].lexeme,
        );
    }
}

/// The table of resolved variables of a program.
pub fn resolve(statements: &Vec<Stmt>) -> (table: ResolutionMap)
    ensures
        table@ == resolution(stmt_views(statements@)),
{
    let mut resolver = Resolver::new();
    resolver.resolve(statements);
    resolver.finish()
}

} // verus!
