//! The evaluator as an abstract machine.
//!
//! A state holds the scopes, the functions made so far, a stack of frames
//! (what remains to be done once the current piece of work is over) and the
//! control (the work at hand). [`next`] takes one state to the following
//! one. It never computes with numbers: where a sum, a product or the
//! digits of a number are needed the machine stops in `Awaiting`, and goes
//! on when the answer is handed to it.

use vstd::prelude::*;
use crate::environment::{
    ancestor_of, empty_global, holder, is_scope_tree, lookup, with_binding, with_capture,
    with_scope, without_scope, ScopeView,
};
use crate::expression::ExprView;
use crate::interpreter::{undefined_variable, RuntimeErrorView};
use crate::literal::{printed, truthy, values_equal, LiteralView};
use crate::number::{less, less_equal, negated};
use crate::statement::StmtView;
use crate::text::decimal;
use crate::token::TokenView;
use crate::token_kind::TokenKind;

verus! {

/// The four operations on numbers that are left to the host.
#[derive(Clone, Copy, Debug, PartialEq, Eq, Structural)]
pub enum Arithmetic {
    Add,
    Subtract,
    Multiply,
    Divide,
}

/// Work that the machine asks of the host.
#[derive(Clone, Copy, Debug, PartialEq, Eq, Structural)]
pub enum Request {
    /// The result of the operation on the two doubles, left operand first.
    Compute(Arithmetic, u64, u64),
    /// The printed form of the double.
    Render(u64),
}

/// The most frames a machine holds. A call that finds the stack this deep
/// fails instead of going deeper.
pub const MAX_FRAMES: usize = 100_000;

/// A function value: a declaration together with the scope it was executed
/// in.
pub struct FunctionView {
    pub name: TokenView,
    pub parameters: Seq<TokenView>,
    pub body: Seq<StmtView>,
    pub closure: nat,
}

/// What remains to be done after the work at hand.
pub enum FrameView {
    /// Execute `statements` from index `next` on, in `scope`. An `owner` is
    /// the frame of the block or call that opened the scope, and gives it
    /// up at its end.
    Sequence { statements: Seq<StmtView>, next: nat, scope: nat, owner: bool },
    /// The body of a loop is running; test the condition again after it.
    Repeat { condition: ExprView, body: StmtView, scope: nat },
    /// The boundary of a call: a `return` unwinds to here.
    Call,
    /// Drop the value of an expression statement.
    Discard,
    /// Print the value.
    Print,
    /// Bind the value to a declared variable.
    Define { name: TokenView, scope: nat },
    /// Choose a branch by the value of the condition.
    Branch { then_branch: StmtView, else_branch: Option<StmtView>, scope: nat },
    /// Enter the body or leave the loop by the value of the condition.
    While { condition: ExprView, body: StmtView, scope: nat },
    /// Return the value from the current call.
    Return,
    /// Assign the value to a variable.
    Assign { name: TokenView, id: usize, scope: nat },
    /// The value is the left operand; evaluate the right one next.
    Right { operator: TokenView, right: ExprView, scope: nat },
    /// The value is the right operand; apply the operator.
    Apply { operator: TokenView, left: LiteralView },
    /// The value is the left operand of `and` or `or`.
    Logical { operator: TokenView, right: ExprView, scope: nat },
    /// Apply a prefix operator to the value.
    Unary { operator: TokenView },
    /// Put the text in front of the value, a string.
    Prepend(Seq<char>),
    /// Put the text behind the value, a string.
    Append(Seq<char>),
    /// The value is the callee; evaluate the arguments next.
    Callee { paren: TokenView, arguments: Seq<ExprView>, scope: nat },
    /// The value is the next argument of a call.
    Arguments {
        paren: TokenView,
        callee: LiteralView,
        arguments: Seq<ExprView>,
        values: Seq<LiteralView>,
        scope: nat,
    },
}

/// The work at hand.
pub enum ControlView {
    /// Evaluate the expression in the scope.
    Evaluate(ExprView, nat),
    /// Execute the statement in the scope.
    Execute(StmtView, nat),
    /// An expression has produced this value.
    Value(LiteralView),
    /// A statement has run to its end.
    Completed,
    /// A `return` is on its way to the boundary of the call.
    Returning(LiteralView),
    /// The host owes an answer.
    Awaiting(Request),
    /// The host is to write this line.
    Printing(Seq<char>),
    /// The program has run to its end.
    Finished,
    /// The program has failed.
    Failed(RuntimeErrorView),
}

/// What the host hands to the machine with a step.
pub enum EventView {
    /// Nothing: go on.
    Resume,
    /// The answer to `Compute`.
    Number(u64),
    /// The answer to `Render`.
    Text(Seq<char>),
}

/// A state of the machine.
pub struct Machine {
    pub scopes: Seq<ScopeView>,
    pub functions: Seq<FunctionView>,
    pub locals: Map<usize, usize>,
    pub frames: Seq<FrameView>,
    pub control: ControlView,
}

/// The scope that a frame will work in, for the frames that name one.
pub open spec fn frame_scope(frame: FrameView) -> Option<nat> {
    match frame {
        FrameView::Sequence { scope, .. } => Some(scope),
        FrameView::Repeat { scope, .. } => Some(scope),
        FrameView::Define { scope, .. } => Some(scope),
        FrameView::Branch { scope, .. } => Some(scope),
        FrameView::While { scope, .. } => Some(scope),
        FrameView::Assign { scope, .. } => Some(scope),
        FrameView::Right { scope, .. } => Some(scope),
        FrameView::Logical { scope, .. } => Some(scope),
        FrameView::Callee { scope, .. } => Some(scope),
        FrameView::Arguments { scope, .. } => Some(scope),
        _ => None,
    }
}

/// Whether the scope that a frame names, if it names one, is among the first
/// `count` scopes.
pub open spec fn frame_in_scopes(frame: FrameView, count: nat) -> bool {
    match frame_scope(frame) {
        Some(scope) => scope < count,
        None => true,
    }
}

/// The scope that a frame gives up at its end, for a frame that has one.
pub open spec fn owned(frame: FrameView) -> Option<nat> {
    match frame {
        FrameView::Sequence { scope, owner, .. } => if owner {
            Some(scope)
        } else {
            None
        },
        _ => None,
    }
}

/// Whether every frame below the frame of a block or call names only
/// scopes that were opened before that block's or call's own: when the
/// block or call is over, nothing on the stack names its scope.
pub open spec fn owners_above(frames: Seq<FrameView>) -> bool {
    forall|i: int, j: int|
        0 <= j < i < frames.len() && owned(#[trigger] frames[i]) is Some ==> frame_in_scopes(
            #[trigger] frames[j],
            owned(frames[i])->0,
        )
}

/// Whether every scope that the frames name is among the first `count`
/// scopes.
pub open spec fn frames_in_scopes(frames: Seq<FrameView>, count: nat) -> bool {
    forall|i: int| 0 <= i < frames.len() ==> frame_in_scopes(#[trigger] frames[i], count)
}

/// Whether the scope that each function was declared in exists and is
/// marked as one that a function was declared in.
pub open spec fn functions_captured(functions: Seq<FunctionView>, scopes: Seq<ScopeView>) -> bool {
    forall|i: int|
        0 <= i < functions.len() ==> (#[trigger] functions[i]).closure < scopes.len()
            && scopes[functions[i].closure as int].captured
}

impl Machine {
    /// The state with another control.
    pub open spec fn goto(self, control: ControlView) -> Machine {
        Machine { control, ..self }
    }

    /// The state with one more frame.
    pub open spec fn push(self, frame: FrameView) -> Machine {
        Machine { frames: self.frames.push(frame), ..self }
    }

    /// The state without its top frame.
    pub open spec fn pop(self) -> Machine {
        Machine { frames: self.frames.drop_last(), ..self }
    }

    /// The state with other scopes.
    pub open spec fn with_scopes(self, scopes: Seq<ScopeView>) -> Machine {
        Machine { scopes, ..self }
    }

    /// The state after a failure with this message, blamed on the token.
    pub open spec fn fail(self, message: Seq<char>, token: TokenView) -> Machine {
        self.goto(ControlView::Failed(RuntimeErrorView { message, token: Some(token) }))
    }

    /// The state with `value` as the result of the expression at hand.
    pub open spec fn value(self, value: LiteralView) -> Machine {
        self.goto(ControlView::Value(value))
    }

    /// Whether the state is well-formed but for the scope that its control
    /// may name.
    pub open spec fn steady(self) -> bool {
        self.goto(ControlView::Completed).well_formed()
    }

    /// The state after `frame`, which was on top, is gone for good: a scope
    /// that it owned is given up.
    pub open spec fn released(self, frame: FrameView) -> Machine {
        match owned(frame) {
            Some(scope) => self.with_scopes(without_scope(self.scopes, scope)),
            None => self,
        }
    }

    /// Every scope that the state names exists, the scopes form a tree, and
    /// a scope that will be given up is named by nothing that outlives its
    /// block or call.
    pub open spec fn well_formed(self) -> bool {
        &&& is_scope_tree(self.scopes)
        &&& frames_in_scopes(self.frames, self.scopes.len())
        &&& owners_above(self.frames)
        &&& functions_captured(self.functions, self.scopes)
        &&& match self.control {
            ControlView::Evaluate(_, scope) => scope < self.scopes.len(),
            ControlView::Execute(_, scope) => scope < self.scopes.len(),
            _ => true,
        }
    }
}

/// The value of a variable: from the scope that the resolver recorded for
/// this reference, or else from the global scope.
pub open spec fn read_variable(m: Machine, name: TokenView, id: usize, scope: nat) -> Option<
    LiteralView,
> {
    if m.locals.dom().contains(id) {
        match ancestor_of(m.scopes, scope, m.locals[id] as nat) {
            Some(at) => if m.scopes[at as int].values.dom().contains(name.lexeme) {
                Some(m.scopes[at as int].values[name.lexeme])
            } else {
                None
            },
            None => None,
        }
    } else {
        lookup(m.scopes, 0, name.lexeme)
    }
}

/// The scopes after an assignment to a variable, or `None` where the
/// variable does not exist: in the scope that the resolver recorded for this
/// reference, or else in the global scope.
pub open spec fn write_variable(
    m: Machine,
    name: TokenView,
    id: usize,
    scope: nat,
    value: LiteralView,
) -> Option<Seq<ScopeView>> {
    if m.locals.dom().contains(id) {
        match ancestor_of(m.scopes, scope, m.locals[id] as nat) {
            Some(at) => Some(with_binding(m.scopes, at, name.lexeme, value)),
            None => None,
        }
    } else {
        match holder(m.scopes, 0, name.lexeme) {
            Some(at) => Some(with_binding(m.scopes, at, name.lexeme, value)),
            None => None,
        }
    }
}

/// The step that starts the evaluation of `expr` in `scope`.
pub open spec fn evaluate(m: Machine, expr: ExprView, scope: nat) -> Machine {
    match expr {
        ExprView::Literal(value) => m.value(value),
        ExprView::Variable(name, id) => match read_variable(m, name, id, scope) {
            Some(value) => m.value(value),
            None => m.goto(ControlView::Failed(undefined_variable(name))),
        },
        ExprView::Assign(name, id, value) => m.push(FrameView::Assign { name, id, scope }).goto(
            ControlView::Evaluate(*value, scope),
        ),
        ExprView::Binary(left, operator, right) => m.push(
            FrameView::Right { operator, right: *right, scope },
        ).goto(ControlView::Evaluate(*left, scope)),
        ExprView::Logical(left, operator, right) => m.push(
            FrameView::Logical { operator, right: *right, scope },
        ).goto(ControlView::Evaluate(*left, scope)),
        ExprView::Unary(operator, operand) => m.push(FrameView::Unary { operator }).goto(
            ControlView::Evaluate(*operand, scope),
        ),
        ExprView::Grouping(inner) => m.goto(ControlView::Evaluate(*inner, scope)),
        ExprView::Call(callee, paren, arguments) => m.push(
            FrameView::Callee { paren, arguments, scope },
        ).goto(ControlView::Evaluate(*callee, scope)),
    }
}

/// The step that starts the execution of `stmt` in `scope`.
pub open spec fn execute(m: Machine, stmt: StmtView, scope: nat) -> Machine {
    match stmt {
        StmtView::Expression(expr) => m.push(FrameView::Discard).goto(
            ControlView::Evaluate(expr, scope),
        ),
        StmtView::Print(expr) => m.push(FrameView::Print).goto(ControlView::Evaluate(expr, scope)),
        StmtView::Var(name, initializer) => match initializer {
            Some(expr) => m.push(FrameView::Define { name, scope }).goto(
                ControlView::Evaluate(expr, scope),
            ),
            None => m.with_scopes(
                with_binding(m.scopes, scope, name.lexeme, LiteralView::Nil),
            ).goto(ControlView::Completed),
        },
        StmtView::Block(statements) => m.with_scopes(with_scope(m.scopes, scope)).push(
            FrameView::Sequence { statements, next: 0, scope: m.scopes.len(), owner: true },
        ).goto(ControlView::Completed),
        StmtView::If(condition, then_branch, else_branch) => m.push(
            FrameView::Branch {
                then_branch: *then_branch,
                else_branch: match else_branch {
                    Some(branch) => Some(*branch),
                    None => None,
                },
                scope,
            },
        ).goto(ControlView::Evaluate(condition, scope)),
        StmtView::While(condition, body) => m.push(
            FrameView::While { condition, body: *body, scope },
        ).goto(ControlView::Evaluate(condition, scope)),
        StmtView::Function(name, parameters, body) => Machine {
            functions: m.functions.push(FunctionView { name, parameters, body, closure: scope }),
            scopes: with_binding(
                with_capture(m.scopes, scope),
                scope,
                name.lexeme,
                LiteralView::Callable(m.functions.len()),
            ),
            control: ControlView::Completed,
            ..m
        },
        StmtView::Return(keyword, value) => match value {
            Some(expr) => m.push(FrameView::Return).goto(ControlView::Evaluate(expr, scope)),
            None => m.goto(ControlView::Returning(LiteralView::Nil)),
        },
    }
}

/// The step after both operands of a binary operator are known.
///
/// `+` adds two numbers, joins two strings, and joins a string and a number
/// by the number's printed form. `-`, `*`, `/` and the four comparisons
/// take two numbers. `==` and `!=` take any two values.
pub open spec fn binary(m: Machine, operator: TokenView, left: LiteralView, right: LiteralView)
    -> Machine {
    match operator.kind {
        TokenKind::Plus => match (left, right) {
            (LiteralView::Number(a), LiteralView::Number(b)) => m.goto(
                ControlView::Awaiting(Request::Compute(Arithmetic::Add, a, b)),
            ),
            (LiteralView::String(a), LiteralView::String(b)) => m.value(LiteralView::String(a + b)),
            (LiteralView::String(a), LiteralView::Number(b)) => m.push(FrameView::Prepend(a)).goto(
                ControlView::Awaiting(Request::Render(b)),
            ),
            (LiteralView::Number(a), LiteralView::String(b)) => m.push(FrameView::Append(b)).goto(
                ControlView::Awaiting(Request::Render(a)),
            ),
            _ => m.fail("Operands must be numbers or strings"@, operator),
        },
        TokenKind::Minus => arithmetic(m, Arithmetic::Subtract, operator, left, right),
        TokenKind::Star => arithmetic(m, Arithmetic::Multiply, operator, left, right),
        TokenKind::Slash => arithmetic(m, Arithmetic::Divide, operator, left, right),
        TokenKind::Greater => comparison(m, operator, left, right),
        TokenKind::GreaterEqual => comparison(m, operator, left, right),
        TokenKind::Less => comparison(m, operator, left, right),
        TokenKind::LessEqual => comparison(m, operator, left, right),
        TokenKind::EqualEqual => m.value(LiteralView::Boolean(values_equal(left, right))),
        TokenKind::BangEqual => m.value(LiteralView::Boolean(!values_equal(left, right))),
        _ => m.fail("Invalid binary operator"@, operator),
    }
}

/// An operation that takes two numbers and is left to the host.
pub open spec fn arithmetic(
    m: Machine,
    operation: Arithmetic,
    operator: TokenView,
    left: LiteralView,
    right: LiteralView,
) -> Machine {
    match (left, right) {
        (LiteralView::Number(a), LiteralView::Number(b)) => m.goto(
            ControlView::Awaiting(Request::Compute(operation, a, b)),
        ),
        _ => m.fail("Operands must be two numbers"@, operator),
    }
}

/// What a comparison operator says of two numbers.
pub open spec fn compares(kind: TokenKind, a: u64, b: u64) -> bool {
    match kind {
        TokenKind::Greater => less(b, a),
        TokenKind::GreaterEqual => less_equal(b, a),
        TokenKind::Less => less(a, b),
        _ => less_equal(a, b),
    }
}

/// A comparison: it takes two numbers.
pub open spec fn comparison(m: Machine, operator: TokenView, left: LiteralView, right: LiteralView)
    -> Machine {
    match (left, right) {
        (LiteralView::Number(a), LiteralView::Number(b)) => m.value(
            LiteralView::Boolean(compares(operator.kind, a, b)),
        ),
        _ => m.fail("Operands must be two numbers"@, operator),
    }
}

/// The step after the left operand of `and` or `or` is known. `or` gives
/// `true` for a left operand that counts as true, `and` gives `false` for
/// one that does not; otherwise the result is the right operand's value,
/// whatever it is.
pub open spec fn logical(
    m: Machine,
    operator: TokenView,
    left: LiteralView,
    right: ExprView,
    scope: nat,
) -> Machine {
    match operator.kind {
        TokenKind::Or => if truthy(left) {
            m.value(LiteralView::Boolean(true))
        } else {
            m.goto(ControlView::Evaluate(right, scope))
        },
        TokenKind::And => if !truthy(left) {
            m.value(LiteralView::Boolean(false))
        } else {
            m.goto(ControlView::Evaluate(right, scope))
        },
        _ => m.fail("Logical evaluator needs to be AND or OR"@, operator),
    }
}

/// The step after the operand of a prefix operator is known.
pub open spec fn unary(m: Machine, operator: TokenView, operand: LiteralView) -> Machine {
    match operator.kind {
        TokenKind::Bang => m.value(LiteralView::Boolean(!truthy(operand))),
        TokenKind::Minus => match operand {
            LiteralView::Number(bits) => m.value(LiteralView::Number(negated(bits))),
            _ => m.fail("Operand must be a number."@, operator),
        },
        _ => m.fail("Invalid unary operator"@, operator),
    }
}

/// The scopes after the first `count` parameters are bound, in `scope`, to
/// the arguments at the same places.
pub open spec fn bind_parameters(
    scopes: Seq<ScopeView>,
    scope: nat,
    parameters: Seq<TokenView>,
    values: Seq<LiteralView>,
    count: nat,
) -> Seq<ScopeView>
    decreases count,
{
    if count == 0 {
        scopes
    } else {
        with_binding(
            bind_parameters(scopes, scope, parameters, values, (count - 1) as nat),
            scope,
            parameters[count - 1].lexeme,
            values[count - 1],
        )
    }
}

/// The message for a call with the wrong number of arguments.
pub open spec fn arity_message(expected: nat, got: nat) -> Seq<char> {
    "Expected "@ + decimal(expected) + " arguments but got "@ + decimal(got) + "."@
}

/// The call itself, once callee and arguments are known. The callee must be
/// a function and take as many parameters as there are arguments. The body
/// runs in a new scope inside the scope that the function was declared in,
/// with the parameters bound to the arguments.
pub open spec fn invoke(m: Machine, paren: TokenView, callee: LiteralView, values: Seq<LiteralView>)
    -> Machine {
    match callee {
        LiteralView::Callable(id) => if id >= m.functions.len() {
            m.fail("Can only call functions."@, paren)
        } else if m.functions[id as int].parameters.len() != values.len() {
            m.fail(arity_message(m.functions[id as int].parameters.len(), values.len()), paren)
        } else if m.frames.len() + 2 > MAX_FRAMES {
            m.fail("Stack overflow."@, paren)
        } else {
            let function = m.functions[id as int];
            let scope = m.scopes.len();
            m.with_scopes(
                bind_parameters(
                    with_scope(m.scopes, function.closure),
                    scope,
                    function.parameters,
                    values,
                    values.len(),
                ),
            ).push(FrameView::Call).push(
                FrameView::Sequence { statements: function.body, next: 0, scope, owner: true },
            ).goto(ControlView::Completed)
        },
        _ => m.fail("Can only call functions."@, paren),
    }
}

/// The step of a call when `values` holds the arguments evaluated so far:
/// the next argument if one is left, else the call.
pub open spec fn call(
    m: Machine,
    paren: TokenView,
    callee: LiteralView,
    arguments: Seq<ExprView>,
    values: Seq<LiteralView>,
    scope: nat,
) -> Machine {
    if values.len() < arguments.len() {
        m.push(FrameView::Arguments { paren, callee, arguments, values, scope }).goto(
            ControlView::Evaluate(arguments[values.len() as int], scope),
        )
    } else {
        invoke(m, paren, callee, values)
    }
}

/// The step that hands `value` to `frame`, the frame that was on top and
/// has been taken off.
pub open spec fn deliver(m: Machine, frame: FrameView, value: LiteralView) -> Machine {
    match frame {
        FrameView::Discard => m.goto(ControlView::Completed),
        FrameView::Print => match value {
            LiteralView::Number(bits) => m.push(FrameView::Print).goto(
                ControlView::Awaiting(Request::Render(bits)),
            ),
            _ => m.goto(ControlView::Printing(printed(value)->0)),
        },
        FrameView::Define { name, scope } => m.with_scopes(
            with_binding(m.scopes, scope, name.lexeme, value),
        ).goto(ControlView::Completed),
        FrameView::Branch { then_branch, else_branch, scope } => if truthy(value) {
            m.goto(ControlView::Execute(then_branch, scope))
        } else {
            match else_branch {
                Some(branch) => m.goto(ControlView::Execute(branch, scope)),
                None => m.goto(ControlView::Completed),
            }
        },
        FrameView::While { condition, body, scope } => if truthy(value) {
            m.push(FrameView::Repeat { condition, body, scope }).goto(
                ControlView::Execute(body, scope),
            )
        } else {
            m.goto(ControlView::Completed)
        },
        FrameView::Return => m.goto(ControlView::Returning(value)),
        FrameView::Assign { name, id, scope } => match write_variable(m, name, id, scope, value) {
            Some(scopes) => m.with_scopes(scopes).value(value),
            None => m.goto(ControlView::Failed(undefined_variable(name))),
        },
        FrameView::Right { operator, right, scope } => m.push(
            FrameView::Apply { operator, left: value },
        ).goto(ControlView::Evaluate(right, scope)),
        FrameView::Apply { operator, left } => binary(m, operator, left, value),
        FrameView::Logical { operator, right, scope } => logical(m, operator, value, right, scope),
        FrameView::Unary { operator } => unary(m, operator, value),
        FrameView::Prepend(text) => match value {
            LiteralView::String(tail) => m.value(LiteralView::String(text + tail)),
            _ => m.value(value),
        },
        FrameView::Append(text) => match value {
            LiteralView::String(head) => m.value(LiteralView::String(head + text)),
            _ => m.value(value),
        },
        FrameView::Callee { paren, arguments, scope } => call(
            m,
            paren,
            value,
            arguments,
            Seq::empty(),
            scope,
        ),
        FrameView::Arguments { paren, callee, arguments, values, scope } => call(
            m,
            paren,
            callee,
            arguments,
            values.push(value),
            scope,
        ),
        // A frame that awaits the end of a statement: the value is dropped.
        _ => m.push(frame).goto(ControlView::Completed),
    }
}

/// The step after a statement has run to its end, `frame` being the frame
/// that was on top and has been taken off. A block or a body that has no
/// statement left is over, and its scope with it.
pub open spec fn complete(m: Machine, frame: FrameView) -> Machine {
    match frame {
        FrameView::Sequence { statements, next, scope, owner } => if next < statements.len() {
            m.push(FrameView::Sequence { statements, next: next + 1, scope, owner }).goto(
                ControlView::Execute(statements[next as int], scope),
            )
        } else {
            m.released(frame)
        },
        FrameView::Repeat { condition, body, scope } => m.push(
            FrameView::While { condition, body, scope },
        ).goto(ControlView::Evaluate(condition, scope)),
        FrameView::Call => m.value(LiteralView::Nil),
        // A frame that awaits a value: a statement gives it `nil`.
        _ => m.push(frame).value(LiteralView::Nil),
    }
}

/// The step of a `return` past `frame`, the frame that was on top and has
/// been taken off: it ends at the boundary of a call and passes every other
/// frame, and the blocks and bodies that it leaves are over.
pub open spec fn unwind(m: Machine, frame: FrameView, value: LiteralView) -> Machine {
    match frame {
        FrameView::Call => m.value(value),
        _ => m.released(frame),
    }
}

/// The step of a machine that awaits an answer: the matching answer becomes
/// the value of the expression at hand, and anything else changes nothing.
pub open spec fn answer(m: Machine, request: Request, event: EventView) -> Machine {
    match (request, event) {
        (Request::Compute(_, _, _), EventView::Number(bits)) => m.value(LiteralView::Number(bits)),
        (Request::Render(_), EventView::Text(text)) => m.value(LiteralView::String(text)),
        _ => m,
    }
}

/// One step of the machine.
///
/// With no frame left, a statement that has run to its end ends the
/// program, and so does a `return` or a value that nothing awaits.
#[verifier::opaque]
pub open spec fn next(m: Machine, event: EventView) -> Machine {
    match m.control {
        ControlView::Evaluate(expr, scope) => evaluate(m, expr, scope),
        ControlView::Execute(stmt, scope) => execute(m, stmt, scope),
        ControlView::Value(value) => if m.frames.len() == 0 {
            m.goto(ControlView::Finished)
        } else {
            deliver(m.pop(), m.frames.last(), value)
        },
        ControlView::Completed => if m.frames.len() == 0 {
            m.goto(ControlView::Finished)
        } else {
            complete(m.pop(), m.frames.last())
        },
        ControlView::Returning(value) => if m.frames.len() == 0 {
            m.goto(ControlView::Finished)
        } else {
            unwind(m.pop(), m.frames.last(), value)
        },
        ControlView::Awaiting(request) => answer(m, request, event),
        ControlView::Printing(_) => m.goto(ControlView::Completed),
        ControlView::Finished => m,
        ControlView::Failed(_) => m,
    }
}

/// What the machine asks of the host in a state.
pub enum ActionView {
    /// Nothing: step again.
    Proceed,
    /// Write the line to standard output, then step again.
    Print(Seq<char>),
    /// Answer the request with the next step.
    Ask(Request),
    /// The program has run to its end.
    Finished,
    /// The program has failed.
    Failed(RuntimeErrorView),
}

/// What the machine asks of the host in a state with this control.
pub open spec fn pending(control: ControlView) -> ActionView {
    match control {
        ControlView::Awaiting(request) => ActionView::Ask(request),
        ControlView::Printing(line) => ActionView::Print(line),
        ControlView::Finished => ActionView::Finished,
        ControlView::Failed(error) => ActionView::Failed(error),
        _ => ActionView::Proceed,
    }
}

/// The state of a machine that has nothing to run.
pub open spec fn idle() -> Machine {
    Machine {
        scopes: seq![empty_global()],
        functions: Seq::empty(),
        locals: Map::empty(),
        frames: Seq::empty(),
        control: ControlView::Finished,
    }
}

/// The state after at most `limit` steps: the first with `event`, those
/// after it with nothing, up to the first state in which something is asked
/// of the host.
pub open spec fn run(m: Machine, event: EventView, limit: nat) -> Machine
    decreases limit,
{
    if limit == 0 {
        m
    } else if pending(next(m, event).control) is Proceed {
        run(next(m, event), EventView::Resume, (limit - 1) as nat)
    } else {
        next(m, event)
    }
}

/// The state in which a program starts: the global scope alone, no
/// function, and the statements of the program still to execute.
pub open spec fn initial(locals: Map<usize, usize>, statements: Seq<StmtView>) -> Machine {
    Machine {
        scopes: seq![empty_global()],
        functions: Seq::empty(),
        locals,
        frames: seq![FrameView::Sequence { statements, next: 0, scope: 0, owner: false }],
        control: ControlView::Completed,
    }
}

/// Whether `after` are scopes that `before` may become while everything
/// that names a scope stays as it is: a tree with every scope of `before`
/// still there, and marked if it was.
pub open spec fn extends(before: Seq<ScopeView>, after: Seq<ScopeView>) -> bool {
    &&& is_scope_tree(after)
    &&& before.len() <= after.len()
    &&& forall|i: int| 0 <= i < before.len() && (#[trigger] before[i]).captured ==> after[i].captured
}

/// Binding a name in a scope changes neither the number of scopes, nor
/// which scope encloses which, nor the marks.
pub proof fn binding_keeps_tree(scopes: Seq<ScopeView>, at: nat, name: Seq<char>, value: LiteralView)
    requires
        is_scope_tree(scopes),
        at < scopes.len(),
    ensures
        extends(scopes, with_binding(scopes, at, name, value)),
        with_binding(scopes, at, name, value).len() == scopes.len(),
{
}

/// Binding parameters changes neither the number of scopes, nor which scope
/// encloses which, nor the marks.
pub proof fn parameters_keep_tree(
    scopes: Seq<ScopeView>,
    scope: nat,
    parameters: Seq<TokenView>,
    values: Seq<LiteralView>,
    count: nat,
)
    requires
        is_scope_tree(scopes),
        scope < scopes.len(),
    ensures
        extends(scopes, bind_parameters(scopes, scope, parameters, values, count)),
        bind_parameters(scopes, scope, parameters, values, count).len() == scopes.len(),
    decreases count,
{
    if count > 0 {
        let before = bind_parameters(scopes, scope, parameters, values, (count - 1) as nat);
        parameters_keep_tree(scopes, scope, parameters, values, (count - 1) as nat);
        binding_keeps_tree(before, scope, parameters[count - 1].lexeme, values[count - 1]);
        let after = bind_parameters(scopes, scope, parameters, values, count);
        assert forall|i: int| 0 <= i < scopes.len() && (#[trigger] scopes[i]).captured implies
            after[i].captured by {
            assert(before[i].captured);
        }
    }
}

/// A well-formed state stays well-formed when a frame is taken off, and
/// what the frame named is known of the rest.
pub proof fn pop_keeps_well_formed(m: Machine)
    requires
        m.well_formed(),
        m.frames.len() > 0,
    ensures
        m.pop().steady(),
        frame_in_scopes(m.frames.last(), m.scopes.len()),
        owned(m.frames.last()) matches Some(scope) ==> frames_in_scopes(m.pop().frames, scope),
{
    let popped = m.pop();
    let top = m.frames.len() - 1;
    assert forall|i: int| 0 <= i < popped.frames.len() implies frame_in_scopes(
        #[trigger] popped.frames[i],
        popped.scopes.len(),
    ) by {
        assert(popped.frames[i] == m.frames[i]);
    }
    assert forall|i: int, j: int|
        0 <= j < i < popped.frames.len() && owned(
            #[trigger] popped.frames[i],
        ) is Some implies frame_in_scopes(#[trigger] popped.frames[j], owned(popped.frames[i])->0) by {
        assert(popped.frames[i] == m.frames[i]);
        assert(popped.frames[j] == m.frames[j]);
    }
    if owned(m.frames.last()) is Some {
        assert forall|j: int| 0 <= j < popped.frames.len() implies frame_in_scopes(
            #[trigger] popped.frames[j],
            owned(m.frames.last())->0,
        ) by {
            assert(popped.frames[j] == m.frames[j]);
            assert(owned(m.frames[top]) is Some);
        }
    }
}

/// Pushing a frame keeps a state well-formed if the scope that the frame
/// names exists and, for a frame that owns its scope, no frame names that
/// scope or a later one.
pub proof fn push_keeps_frames(m: Machine, frame: FrameView)
    requires
        m.steady(),
        frame_in_scopes(frame, m.scopes.len()),
        owned(frame) matches Some(scope) ==> frames_in_scopes(m.frames, scope),
    ensures
        m.push(frame).steady(),
{
    let pushed = m.push(frame);
    assert forall|i: int| 0 <= i < pushed.frames.len() implies frame_in_scopes(
        #[trigger] pushed.frames[i],
        pushed.scopes.len(),
    ) by {
        if i < m.frames.len() {
            assert(pushed.frames[i] == m.frames[i]);
        }
    }
    assert forall|i: int, j: int|
        0 <= j < i < pushed.frames.len() && owned(
            #[trigger] pushed.frames[i],
        ) is Some implies frame_in_scopes(#[trigger] pushed.frames[j], owned(pushed.frames[i])->0) by {
        assert(pushed.frames[j] == m.frames[j]);
        if i < m.frames.len() {
            assert(pushed.frames[i] == m.frames[i]);
        }
    }
}

/// Changing the scopes to ones that extend them keeps a state well-formed.
pub proof fn scopes_keep_well_formed(m: Machine, scopes: Seq<ScopeView>)
    requires
        m.steady(),
        extends(m.scopes, scopes),
    ensures
        m.with_scopes(scopes).steady(),
{
    let changed = m.with_scopes(scopes);
    assert forall|i: int| 0 <= i < changed.frames.len() implies frame_in_scopes(
        #[trigger] changed.frames[i],
        changed.scopes.len(),
    ) by {
        assert(frame_in_scopes(m.frames[i], m.scopes.len()));
    }
    assert forall|i: int| 0 <= i < changed.functions.len() implies (
    #[trigger] changed.functions[i]).closure < scopes.len() && scopes[changed.functions[i].closure as int].captured by {
        assert(m.functions[i].closure < m.scopes.len());
        assert(m.scopes[m.functions[i].closure as int].captured);
    }
}

/// Giving up the scope of a frame that has been taken off keeps a state
/// well-formed: nothing names the scope any more.
pub proof fn release_keeps_well_formed(m: Machine, frame: FrameView)
    requires
        m.steady(),
        frame_in_scopes(frame, m.scopes.len()),
        owned(frame) matches Some(scope) ==> frames_in_scopes(m.frames, scope),
    ensures
        m.released(frame).steady(),
{
    match owned(frame) {
        Some(scope) => {
            let after = m.released(frame);
            if 0 < scope && scope + 1 == m.scopes.len() && !m.scopes[scope as int].captured {
                assert(after.scopes == m.scopes.drop_last());
                assert(is_scope_tree(after.scopes));
                assert forall|i: int| 0 <= i < after.functions.len() implies (
                #[trigger] after.functions[i]).closure < after.scopes.len()
                    && after.scopes[after.functions[i].closure as int].captured by {
                    assert(m.functions[i].closure < m.scopes.len());
                    assert(m.scopes[m.functions[i].closure as int].captured);
                }
            }
        },
        None => {},
    }
}

/// A call keeps the state well-formed.
pub proof fn invoke_keeps_well_formed(
    m: Machine,
    paren: TokenView,
    callee: LiteralView,
    values: Seq<LiteralView>,
)
    requires
        m.steady(),
    ensures
        invoke(m, paren, callee, values).well_formed(),
{
    match callee {
        LiteralView::Callable(id) => {
            if id < m.functions.len() && m.functions[id as int].parameters.len() == values.len()
                && m.frames.len() + 2 <= MAX_FRAMES {
                let function = m.functions[id as int];
                let scope = m.scopes.len();
                let opened = with_scope(m.scopes, function.closure);
                assert(is_scope_tree(opened));
                parameters_keep_tree(opened, scope, function.parameters, values, values.len());
                let bound = bind_parameters(opened, scope, function.parameters, values, values.len());
                assert forall|i: int| 0 <= i < m.scopes.len() && (
                #[trigger] m.scopes[i]).captured implies bound[i].captured by {
                    assert(opened[i] == m.scopes[i]);
                    assert(opened[i].captured);
                }
                scopes_keep_well_formed(m, bound);
                let entered = m.with_scopes(bound);
                push_keeps_frames(entered, FrameView::Call);
                let body = FrameView::Sequence {
                    statements: function.body,
                    next: 0,
                    scope,
                    owner: true,
                };
                assert forall|j: int| 0 <= j < entered.push(FrameView::Call).frames.len() implies
                    frame_in_scopes(#[trigger] entered.push(FrameView::Call).frames[j], scope) by {
                    if j < m.frames.len() {
                        assert(entered.push(FrameView::Call).frames[j] == m.frames[j]);
                        assert(frame_in_scopes(m.frames[j], m.scopes.len()));
                    }
                }
                push_keeps_frames(entered.push(FrameView::Call), body);
            }
        },
        _ => {},
    }
}

/// Every step keeps the state well-formed.
pub proof fn next_keeps_well_formed(m: Machine, event: EventView)
    requires
        m.well_formed(),
    ensures
        next(m, event).well_formed(),
{
    reveal(next);
    assert(m.steady());
    match m.control {
        ControlView::Evaluate(expr, scope) => {
            match expr {
                ExprView::Assign(name, id, value) => {
                    push_keeps_frames(m, FrameView::Assign { name, id, scope });
                },
                ExprView::Binary(left, operator, right) => {
                    push_keeps_frames(m, FrameView::Right { operator, right: *right, scope });
                },
                ExprView::Logical(left, operator, right) => {
                    push_keeps_frames(m, FrameView::Logical { operator, right: *right, scope });
                },
                ExprView::Unary(operator, operand) => {
                    push_keeps_frames(m, FrameView::Unary { operator });
                },
                ExprView::Call(callee, paren, arguments) => {
                    push_keeps_frames(m, FrameView::Callee { paren, arguments, scope });
                },
                _ => {},
            }
        },
        ControlView::Execute(stmt, scope) => {
            execute_keeps_well_formed(m, stmt, scope);
        },
        ControlView::Value(value) => {
            if m.frames.len() > 0 {
                pop_keeps_well_formed(m);
                deliver_keeps_well_formed(m.pop(), m.frames.last(), value);
            }
        },
        ControlView::Completed => {
            if m.frames.len() > 0 {
                pop_keeps_well_formed(m);
                complete_keeps_well_formed(m.pop(), m.frames.last());
            }
        },
        ControlView::Returning(value) => {
            if m.frames.len() > 0 {
                pop_keeps_well_formed(m);
                release_keeps_well_formed(m.pop(), m.frames.last());
            }
        },
        _ => {},
    }
}

/// Going on after a statement keeps the state well-formed.
pub proof fn complete_keeps_well_formed(m: Machine, frame: FrameView)
    requires
        m.steady(),
        m.control == ControlView::Completed,
        frame_in_scopes(frame, m.scopes.len()),
        owned(frame) matches Some(scope) ==> frames_in_scopes(m.frames, scope),
    ensures
        complete(m, frame).well_formed(),
{
    match frame {
        FrameView::Sequence { statements, next, scope, owner } => {
            if next < statements.len() {
                push_keeps_frames(
                    m,
                    FrameView::Sequence { statements, next: next + 1, scope, owner },
                );
            } else {
                release_keeps_well_formed(m, frame);
            }
        },
        FrameView::Repeat { condition, body, scope } => {
            push_keeps_frames(m, FrameView::While { condition, body, scope });
        },
        FrameView::Call => {},
        _ => {
            push_keeps_frames(m, frame);
        },
    }
}

/// Starting a statement keeps the state well-formed.
pub proof fn execute_keeps_well_formed(m: Machine, stmt: StmtView, scope: nat)
    requires
        m.steady(),
        scope < m.scopes.len(),
    ensures
        execute(m, stmt, scope).well_formed(),
{
    match stmt {
        StmtView::Expression(expr) => {
            push_keeps_frames(m, FrameView::Discard);
        },
        StmtView::Print(expr) => {
            push_keeps_frames(m, FrameView::Print);
        },
        StmtView::Var(name, initializer) => {
            match initializer {
                Some(expr) => {
                    push_keeps_frames(m, FrameView::Define { name, scope });
                },
                None => {
                    binding_keeps_tree(m.scopes, scope, name.lexeme, LiteralView::Nil);
                    scopes_keep_well_formed(
                        m,
                        with_binding(m.scopes, scope, name.lexeme, LiteralView::Nil),
                    );
                },
            }
        },
        StmtView::Block(statements) => {
            scopes_keep_well_formed(m, with_scope(m.scopes, scope));
            let entered = m.with_scopes(with_scope(m.scopes, scope));
            assert(frames_in_scopes(entered.frames, m.scopes.len()));
            push_keeps_frames(
                entered,
                FrameView::Sequence { statements, next: 0, scope: m.scopes.len(), owner: true },
            );
        },
        StmtView::If(condition, then_branch, else_branch) => {
            push_keeps_frames(
                m,
                FrameView::Branch {
                    then_branch: *then_branch,
                    else_branch: match else_branch {
                        Some(branch) => Some(*branch),
                        None => None,
                    },
                    scope,
                },
            );
        },
        StmtView::While(condition, body) => {
            push_keeps_frames(m, FrameView::While { condition, body: *body, scope });
        },
        StmtView::Function(name, parameters, body) => {
            let value = LiteralView::Callable(m.functions.len());
            let marked = with_capture(m.scopes, scope);
            assert(is_scope_tree(marked));
            binding_keeps_tree(marked, scope, name.lexeme, value);
            let bound = with_binding(marked, scope, name.lexeme, value);
            assert forall|i: int| 0 <= i < m.scopes.len() && (
            #[trigger] m.scopes[i]).captured implies bound[i].captured by {
                assert(marked[i].captured);
            }
            scopes_keep_well_formed(m, bound);
            let after = execute(m, stmt, scope);
            assert forall|i: int| 0 <= i < after.functions.len() implies (
            #[trigger] after.functions[i]).closure < after.scopes.len()
                && after.scopes[after.functions[i].closure as int].captured by {
                if i < m.functions.len() {
                    assert(after.functions[i] == m.functions[i]);
                    assert(m.with_scopes(bound).functions[i] == m.functions[i]);
                } else {
                    assert(marked[scope as int].captured);
                }
            }
        },
        StmtView::Return(keyword, value) => {
            match value {
                Some(expr) => {
                    push_keeps_frames(m, FrameView::Return);
                },
                None => {},
            }
        },
    }
}

/// Handing a value to a frame keeps the state well-formed.
pub proof fn deliver_keeps_well_formed(m: Machine, frame: FrameView, value: LiteralView)
    requires
        m.steady(),
        frame_in_scopes(frame, m.scopes.len()),
        owned(frame) matches Some(scope) ==> frames_in_scopes(m.frames, scope),
    ensures
        deliver(m, frame, value).well_formed(),
{
    match frame {
        FrameView::Discard => {},
        FrameView::Print => {
            push_keeps_frames(m, FrameView::Print);
        },
        FrameView::Define { name, scope } => {
            binding_keeps_tree(m.scopes, scope, name.lexeme, value);
            scopes_keep_well_formed(m, with_binding(m.scopes, scope, name.lexeme, value));
        },
        FrameView::Branch { then_branch, else_branch, scope } => {},
        FrameView::While { condition, body, scope } => {
            push_keeps_frames(m, FrameView::Repeat { condition, body, scope });
        },
        FrameView::Return => {},
        FrameView::Assign { name, id, scope } => {
            match write_variable(m, name, id, scope, value) {
                Some(scopes) => {
                    if m.locals.dom().contains(id) {
                        crate::environment::ancestor_is_scope(m.scopes, scope, m.locals[id] as nat);
                        let at = ancestor_of(m.scopes, scope, m.locals[id] as nat)->0;
                        binding_keeps_tree(m.scopes, at, name.lexeme, value);
                    } else {
                        crate::environment::holder_is_within(m.scopes, 0, name.lexeme);
                        let at = holder(m.scopes, 0, name.lexeme)->0;
                        binding_keeps_tree(m.scopes, at, name.lexeme, value);
                    }
                    scopes_keep_well_formed(m, scopes);
                },
                None => {},
            }
        },
        FrameView::Right { operator, right, scope } => {
            push_keeps_frames(m, FrameView::Apply { operator, left: value });
        },
        FrameView::Apply { operator, left } => {
            match (left, value) {
                (LiteralView::String(a), LiteralView::Number(b)) => {
                    push_keeps_frames(m, FrameView::Prepend(a));
                },
                (LiteralView::Number(a), LiteralView::String(b)) => {
                    push_keeps_frames(m, FrameView::Append(b));
                },
                _ => {},
            }
        },
        FrameView::Logical { operator, right, scope } => {},
        FrameView::Unary { operator } => {},
        FrameView::Prepend(text) => {},
        FrameView::Append(text) => {},
        FrameView::Callee { paren, arguments, scope } => {
            call_keeps_well_formed(m, paren, value, arguments, Seq::empty(), scope);
        },
        FrameView::Arguments { paren, callee, arguments, values, scope } => {
            call_keeps_well_formed(m, paren, callee, arguments, values.push(value), scope);
        },
        _ => {
            push_keeps_frames(m, frame);
        },
    }
}

/// The step of a call keeps the state well-formed.
pub proof fn call_keeps_well_formed(
    m: Machine,
    paren: TokenView,
    callee: LiteralView,
    arguments: Seq<ExprView>,
    values: Seq<LiteralView>,
    scope: nat,
)
    requires
        m.steady(),
        scope < m.scopes.len(),
    ensures
        call(m, paren, callee, arguments, values, scope).well_formed(),
{
    if values.len() < arguments.len() {
        push_keeps_frames(m, FrameView::Arguments { paren, callee, arguments, values, scope });
    } else {
        invoke_keeps_well_formed(m, paren, callee, values);
    }
}

/// Whether a frame awaits a value; the others await the end of a
/// statement.
pub open spec fn awaits_value(frame: FrameView) -> bool {
    !(frame is Sequence || frame is Repeat || frame is Call)
}

/// Whether a frame, when its work is done, hands a value to the frame below
/// it; the others tell it that a statement has run to its end.
pub open spec fn yields_value(frame: FrameView) -> bool {
    frame is Assign || frame is Right || frame is Apply || frame is Logical || frame is Unary
        || frame is Prepend || frame is Append || frame is Callee || frame is Arguments
        || frame is Call
}

/// Whether a frame joins a string to the value it awaits.
pub open spec fn joins(frame: FrameView) -> bool {
    frame is Prepend || frame is Append
}

/// Whether the frames fit each other: each frame gets from the frame above
/// it what it awaits, the bottom frame hands no value to anyone, and a frame
/// that joins strings is on top.
pub open spec fn frames_fit(frames: Seq<FrameView>) -> bool {
    &&& frames.len() > 0 ==> !yields_value(frames[0])
    &&& forall|i: int|
        1 <= i < frames.len() ==> yields_value(#[trigger] frames[i]) == awaits_value(frames[i - 1])
    &&& forall|i: int| 0 <= i < frames.len() - 1 ==> !joins(#[trigger] frames[i])
}

impl Machine {
    /// Whether control and frames fit each other: a value, or what will
    /// become one, has a frame that awaits it; a statement, or one that is
    /// over, has none that awaits a value; and a frame that joins strings
    /// gets a string.
    #[verifier::opaque]
    pub open spec fn orderly(self) -> bool {
        &&& frames_fit(self.frames)
        &&& match self.control {
            ControlView::Evaluate(_, _) => self.frames.len() > 0 && awaits_value(
                self.frames.last(),
            ) && !joins(self.frames.last()),
            ControlView::Value(value) => self.frames.len() > 0 && awaits_value(
                self.frames.last(),
            ) && (joins(self.frames.last()) ==> value is String),
            ControlView::Awaiting(request) => self.frames.len() > 0 && awaits_value(
                self.frames.last(),
            ) && (joins(self.frames.last()) ==> request is Render),
            ControlView::Execute(_, _) => self.frames.len() == 0 || !awaits_value(
                self.frames.last(),
            ),
            ControlView::Completed => self.frames.len() == 0 || !awaits_value(self.frames.last()),
            ControlView::Printing(_) => self.frames.len() == 0 || !awaits_value(
                self.frames.last(),
            ),
            ControlView::Returning(_) => self.frames.len() == 0 || !joins(self.frames.last()),
            ControlView::Finished => true,
            ControlView::Failed(_) => true,
        }
    }
}

/// Frames that fit still fit without the top frame, and the new top frame
/// awaits what the old one yields.
pub proof fn fit_without_top(frames: Seq<FrameView>)
    requires
        frames_fit(frames),
        frames.len() > 0,
    ensures
        frames_fit(frames.drop_last()),
        yields_value(frames.last()) ==> frames.len() > 1 && awaits_value(
            frames.drop_last().last(),
        ),
        !yields_value(frames.last()) && frames.len() > 1 ==> !awaits_value(
            frames.drop_last().last(),
        ),
        frames.len() > 1 ==> !joins(frames.drop_last().last()),
{
    let rest = frames.drop_last();
    assert forall|i: int| 1 <= i < rest.len() implies yields_value(#[trigger] rest[i])
        == awaits_value(rest[i - 1]) by {
        assert(rest[i] == frames[i]);
        assert(rest[i - 1] == frames[i - 1]);
    }
    assert forall|i: int| 0 <= i < rest.len() - 1 implies !joins(#[trigger] rest[i]) by {
        assert(rest[i] == frames[i]);
    }
    if frames.len() > 1 {
        let top = frames.len() - 1;
        assert(yields_value(frames[top]) == awaits_value(frames[top - 1]));
        assert(rest[top - 1] == frames[top - 1]);
        assert(!joins(frames[top - 1]));
    } else {
        assert(frames.last() == frames[0]);
    }
}

/// Frames that fit still fit with one more frame that yields what the top
/// frame awaits, if the top frame does not join strings.
pub proof fn fit_with_top(frames: Seq<FrameView>, frame: FrameView)
    requires
        frames_fit(frames),
        frames.len() > 0 ==> yields_value(frame) == awaits_value(frames.last()) && !joins(
            frames.last(),
        ),
        frames.len() == 0 ==> !yields_value(frame),
    ensures
        frames_fit(frames.push(frame)),
{
    let more = frames.push(frame);
    assert forall|i: int| 1 <= i < more.len() implies yields_value(#[trigger] more[i])
        == awaits_value(more[i - 1]) by {
        assert(more[i - 1] == frames[i - 1]);
        if i < frames.len() {
            assert(more[i] == frames[i]);
        }
    }
    assert forall|i: int| 0 <= i < more.len() - 1 implies !joins(#[trigger] more[i]) by {
        assert(more[i] == frames[i]);
    }
    if frames.len() > 0 {
        assert(more[0] == frames[0]);
    }
}

/// Every step keeps control and frames fitting each other. So, from the
/// start of a program on, no value is handed to a frame that awaits none,
/// no frame that awaits a value is told that a statement is over, and no
/// value is left without a frame that awaits it.
pub proof fn next_keeps_order(m: Machine, event: EventView)
    requires
        m.orderly(),
    ensures
        next(m, event).orderly(),
{
    reveal(Machine::orderly);
    reveal(next);
    let frames = m.frames;
    match m.control {
        ControlView::Evaluate(expr, scope) => {
            match expr {
                ExprView::Assign(name, id, value) => {
                    fit_with_top(frames, FrameView::Assign { name, id, scope });
                },
                ExprView::Binary(left, operator, right) => {
                    fit_with_top(frames, FrameView::Right { operator, right: *right, scope });
                },
                ExprView::Logical(left, operator, right) => {
                    fit_with_top(frames, FrameView::Logical { operator, right: *right, scope });
                },
                ExprView::Unary(operator, operand) => {
                    fit_with_top(frames, FrameView::Unary { operator });
                },
                ExprView::Call(callee, paren, arguments) => {
                    fit_with_top(frames, FrameView::Callee { paren, arguments, scope });
                },
                _ => {},
            }
        },
        ControlView::Execute(stmt, scope) => {
            if frames.len() > 0 {
                fit_without_top(frames);
            }
            match stmt {
                StmtView::Expression(expr) => {
                    fit_with_top(frames, FrameView::Discard);
                },
                StmtView::Print(expr) => {
                    fit_with_top(frames, FrameView::Print);
                },
                StmtView::Var(name, initializer) => {
                    fit_with_top(frames, FrameView::Define { name, scope });
                },
                StmtView::Block(statements) => {
                    fit_with_top(
                        frames,
                        FrameView::Sequence {
                            statements,
                            next: 0,
                            scope: m.scopes.len(),
                            owner: true,
                        },
                    );
                },
                StmtView::If(condition, then_branch, else_branch) => {
                    fit_with_top(
                        frames,
                        FrameView::Branch {
                            then_branch: *then_branch,
                            else_branch: match else_branch {
                                Some(branch) => Some(*branch),
                                None => None,
                            },
                            scope,
                        },
                    );
                },
                StmtView::While(condition, body) => {
                    fit_with_top(frames, FrameView::While { condition, body: *body, scope });
                },
                StmtView::Function(name, parameters, body) => {},
                StmtView::Return(keyword, value) => {
                    fit_with_top(frames, FrameView::Return);
                },
            }
        },
        ControlView::Value(value) => {
            fit_without_top(frames);
            deliver_keeps_order(m.pop(), frames.last(), value);
        },
        ControlView::Completed => {
            if frames.len() > 0 {
                fit_without_top(frames);
                let frame = frames.last();
                let rest = frames.drop_last();
                match frame {
                    FrameView::Sequence { statements, next, scope, owner } => {
                        fit_with_top(
                            rest,
                            FrameView::Sequence { statements, next: next + 1, scope, owner },
                        );
                    },
                    FrameView::Repeat { condition, body, scope } => {
                        fit_with_top(rest, FrameView::While { condition, body, scope });
                    },
                    _ => {},
                }
            }
        },
        ControlView::Returning(value) => {
            if frames.len() > 0 {
                fit_without_top(frames);
            }
        },
        ControlView::Awaiting(request) => {},
        _ => {},
    }
}

/// Handing a value to the frame that awaited it keeps control and frames
/// fitting each other.
pub proof fn deliver_keeps_order(m: Machine, frame: FrameView, value: LiteralView)
    requires
        frames_fit(m.frames.push(frame)),
        awaits_value(frame),
        joins(frame) ==> value is String,
    ensures
        deliver(m, frame, value).orderly(),
{
    reveal(Machine::orderly);
    let frames = m.frames;
    assert(frames.push(frame).drop_last() =~= frames);
    assert(frames.push(frame).last() == frame);
    fit_without_top(frames.push(frame));
    match frame {
        FrameView::Print => {
            fit_with_top(frames, FrameView::Print);
        },
        FrameView::While { condition, body, scope } => {
            fit_with_top(frames, FrameView::Repeat { condition, body, scope });
        },
        FrameView::Right { operator, right, scope } => {
            fit_with_top(frames, FrameView::Apply { operator, left: value });
        },
        FrameView::Apply { operator, left } => {
            match (left, value) {
                (LiteralView::String(a), LiteralView::Number(b)) => {
                    fit_with_top(frames, FrameView::Prepend(a));
                },
                (LiteralView::Number(a), LiteralView::String(b)) => {
                    fit_with_top(frames, FrameView::Append(b));
                },
                _ => {},
            }
        },
        FrameView::Callee { paren, arguments, scope } => {
            call_keeps_order(m, paren, value, arguments, Seq::empty(), scope);
        },
        FrameView::Arguments { paren, callee, arguments, values, scope } => {
            call_keeps_order(m, paren, callee, arguments, values.push(value), scope);
        },
        _ => {},
    }
}

/// The step of a call keeps control and frames fitting each other.
pub proof fn call_keeps_order(
    m: Machine,
    paren: TokenView,
    callee: LiteralView,
    arguments: Seq<ExprView>,
    values: Seq<LiteralView>,
    scope: nat,
)
    requires
        frames_fit(m.frames),
        m.frames.len() > 0,
        awaits_value(m.frames.last()),
        !joins(m.frames.last()),
    ensures
        call(m, paren, callee, arguments, values, scope).orderly(),
{
    reveal(Machine::orderly);
    let frames = m.frames;
    if values.len() < arguments.len() {
        fit_with_top(frames, FrameView::Arguments { paren, callee, arguments, values, scope });
    } else {
        match callee {
            LiteralView::Callable(id) => {
                if id < m.functions.len() && m.functions[id as int].parameters.len() == values.len()
                    && m.frames.len() + 2 <= MAX_FRAMES {
                    fit_with_top(frames, FrameView::Call);
                    fit_with_top(
                        frames.push(FrameView::Call),
                        FrameView::Sequence {
                            statements: m.functions[id as int].body,
                            next: 0,
                            scope: m.scopes.len(),
                            owner: true,
                        },
                    );
                }
            },
            _ => {},
        }
    }
}

/// The state in which a program starts has control and frames fitting each
/// other.
pub proof fn initial_is_orderly(locals: Map<usize, usize>, statements: Seq<StmtView>)
    ensures
        initial(locals, statements).orderly(),
{
    reveal(Machine::orderly);
}

/// The state after `count` steps in which nothing is handed to the machine.
pub open spec fn steps(m: Machine, count: nat) -> Machine
    decreases count,
{
    if count == 0 {
        m
    } else {
        steps(next(m, EventView::Resume), (count - 1) as nat)
    }
}

/// A program that has ended or failed stays as it is: after the first
/// failure nothing more is executed.
pub proof fn halted_stays(m: Machine, count: nat)
    requires
        m.control is Finished || m.control is Failed,
    ensures
        steps(m, count) == m,
    decreases count,
{
    reveal(next);
    if count > 0 {
        halted_stays(m, (count - 1) as nat);
    }
}

/// A `return` ends at the boundary of the nearest call. Where frame `at` is
/// that boundary, the frames above it are taken off one by one, whatever
/// they are (the rest of a block, a loop, a branch), and then the boundary
/// itself; the returned value becomes the value of the call, and the frames
/// below the boundary are as they were.
pub proof fn return_reaches_call(m: Machine, value: LiteralView, at: int)
    requires
        m.control == ControlView::Returning(value),
        0 <= at < m.frames.len(),
        m.frames[at] == FrameView::Call,
        forall|i: int| at < i < m.frames.len() ==> m.frames[i] != FrameView::Call,
    ensures
        steps(m, (m.frames.len() - at) as nat).control == ControlView::Value(value),
        steps(m, (m.frames.len() - at) as nat).frames == m.frames.subrange(0, at),
        steps(m, (m.frames.len() - at) as nat).functions == m.functions,
    decreases m.frames.len() - at,
{
    reveal(next);
    let after = next(m, EventView::Resume);
    let count = (m.frames.len() - at) as nat;
    assert(steps(m, count) == steps(after, (count - 1) as nat));
    if at == m.frames.len() - 1 {
        assert(after.frames =~= m.frames.subrange(0, at));
        assert(steps(after, 0) == after);
    } else {
        assert(after.control == ControlView::Returning(value));
        assert(after.frames == m.frames.drop_last());
        assert(after.frames[at] == m.frames[at]);
        assert forall|i: int| at < i < after.frames.len() implies after.frames[i]
            != FrameView::Call by {
            assert(after.frames[i] == m.frames[i]);
        }
        return_reaches_call(after, value, at);
        assert(after.frames.subrange(0, at) =~= m.frames.subrange(0, at));
    }
}

/// The state in which a program starts is well-formed.
pub proof fn initial_is_well_formed(locals: Map<usize, usize>, statements: Seq<StmtView>)
    ensures
        initial(locals, statements).well_formed(),
{
}

} // verus!
