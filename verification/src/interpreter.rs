//! The evaluator.
//!
//! An [`Interpreter`] walks the statements of a program one step at a time
//! and is, at every step, in one state of the [`Machine`] of
//! [`crate::machine`]: [`Interpreter::step`] takes it from a state to the
//! state that [`machine::next`] gives. Inside a step, `evaluate` starts the
//! work on an expression and `execute` that on a statement, `deliver` hands
//! a value to what awaited it, and `complete` goes on after a statement.
//!
//! The interpreter performs no input or output and no arithmetic on
//! doubles. After every step it tells its host what it needs, as an
//! [`Action`]: a line to print, or a [`Request`] whose answer the host
//! hands back as an [`Event`] with the next step.

use vstd::prelude::*;
use crate::environment::{is_scope_tree, Environment};
use crate::expression::{expr_views, call_arguments_view, Expr};
use crate::literal::{Literal, LiteralView};
use crate::machine;
use crate::machine::{
    ActionView, Arithmetic, ControlView, EventView, FrameView, FunctionView, Machine, Request,
    MAX_FRAMES,
};
use crate::number::{number_less, number_less_equal, number_negate};
use crate::resolver::{resolution, resolve, ResolutionMap};
use crate::statement::{block_view, function_view, stmt_views, Stmt};
use crate::text::{decimal, push_decimal};
use crate::token::{token_views, Token, TokenView};
use crate::token_kind::TokenKind;

verus! {

/// A failure that ends the run of a program, with the token it is blamed
/// on where there is one.
#[derive(Debug)]
pub struct RuntimeError {
    pub message: String,
    pub token: Option<Token>,
}

/// The mathematical value of a [`RuntimeError`].
pub struct RuntimeErrorView {
    pub message: Seq<char>,
    pub token: Option<TokenView>,
}

impl View for RuntimeError {
    type V = RuntimeErrorView;

    open spec fn view(&self) -> RuntimeErrorView {
        RuntimeErrorView {
            message: self.message@,
            token: match self.token {
                Some(token) => Some(token@),
                None => None,
            },
        }
    }
}

/// The text shown for a runtime failure: the message and, where a token is
/// known, a second line that names the token's line.
pub open spec fn report_text(error: RuntimeErrorView) -> Seq<char> {
    match error.token {
        Some(token) => error.message + "\n[Line "@ + decimal(token.line) + " ]"@,
        None => error.message,
    }
}

/// The failure of a name that no scope binds.
pub open spec fn undefined_variable(name: TokenView) -> RuntimeErrorView {
    RuntimeErrorView { message: "Undefined variable '"@ + name.lexeme + "'."@, token: Some(name) }
}

impl RuntimeError {
    pub fn new(message: String, token: Option<Token>) -> (error: Self)
        ensures
            error.message == message,
            error.token == token,
    {
        RuntimeError { message, token }
    }

    /// The text to show for this failure.
    pub fn report(&self) -> (text: String)
        ensures
            text@ == report_text(self@),
    {
        let mut text = self.message.clone();
        match &self.token {
            Some(token) => {
                text.append("\n[Line ");
                push_decimal(&mut text, token.line);
                text.append(" ]");
            },
            None => {},
        }
        text
    }

    /// The failure of a name that no scope binds.
    pub fn undefined(name: &Token) -> (error: Self)
        ensures
            error@ == undefined_variable(name@),
    {
        let mut message = String::from_str("Undefined variable '");
        message.append(name.lexeme.as_str());
        message.append("'.");
        RuntimeError { message, token: Some(name.clone()) }
    }
}

impl Clone for RuntimeError {
    fn clone(&self) -> (copy: Self)
        ensures
            copy@ == self@,
    {
        RuntimeError {
            message: self.message.clone(),
            token: match &self.token {
                Some(token) => Some(token.clone()),
                None => None,
            },
        }
    }
}

/// What the host hands to the interpreter with a step.
#[derive(Debug)]
pub enum Event {
    /// Nothing: go on.
    Resume,
    /// The answer to [`Request::Compute`].
    Number(u64),
    /// The answer to [`Request::Render`].
    Text(String),
}

impl View for Event {
    type V = EventView;

    open spec fn view(&self) -> EventView {
        match self {
            Event::Resume => EventView::Resume,
            Event::Number(bits) => EventView::Number(*bits),
            Event::Text(text) => EventView::Text(text@),
        }
    }
}

/// What the interpreter asks of the host after a step.
#[derive(Debug)]
pub enum Action {
    /// Nothing: step again.
    Proceed,
    /// Write the line to standard output, then step again.
    Print(String),
    /// Answer the request with the next step.
    Ask(Request),
    /// The program has run to its end.
    Finished,
    /// The program has failed.
    Failed(RuntimeError),
}

impl View for Action {
    type V = ActionView;

    open spec fn view(&self) -> ActionView {
        match self {
            Action::Proceed => ActionView::Proceed,
            Action::Print(line) => ActionView::Print(line@),
            Action::Ask(request) => ActionView::Ask(*request),
            Action::Finished => ActionView::Finished,
            Action::Failed(error) => ActionView::Failed(error@),
        }
    }
}

/// A function value: a declaration and the scope it was executed in.
pub struct Function<'a> {
    pub name: &'a Token,
    pub parameters: &'a Vec<Token>,
    pub body: &'a Vec<Stmt>,
    pub closure: usize,
}

impl<'a> View for Function<'a> {
    type V = FunctionView;

    open spec fn view(&self) -> FunctionView {
        FunctionView {
            name: self.name@,
            parameters: token_views(self.parameters@),
            body: stmt_views(self.body@),
            closure: self.closure as nat,
        }
    }
}

/// The values of a sequence of values, in order.
pub open spec fn literal_views(values: Seq<Literal>) -> Seq<LiteralView> {
    Seq::new(values.len(), |i: int| values[i]@)
}

/// What remains to be done after the work at hand; see [`FrameView`].
pub enum Frame<'a> {
    Sequence { statements: &'a Vec<Stmt>, next: usize, scope: usize, owner: bool },
    Repeat { condition: &'a Expr, body: &'a Stmt, scope: usize },
    Call,
    Discard,
    Print,
    Define { name: &'a Token, scope: usize },
    Branch { then_branch: &'a Stmt, else_branch: Option<&'a Stmt>, scope: usize },
    While { condition: &'a Expr, body: &'a Stmt, scope: usize },
    Return,
    Assign { name: &'a Token, id: usize, scope: usize },
    Right { operator: &'a Token, right: &'a Expr, scope: usize },
    Apply { operator: &'a Token, left: Literal },
    Logical { operator: &'a Token, right: &'a Expr, scope: usize },
    Unary { operator: &'a Token },
    Prepend(String),
    Append(String),
    Callee { paren: &'a Token, arguments: &'a Vec<Expr>, scope: usize },
    Arguments {
        paren: &'a Token,
        callee: Literal,
        arguments: &'a Vec<Expr>,
        values: Vec<Literal>,
        scope: usize,
    },
}

impl<'a> View for Frame<'a> {
    type V = FrameView;

    open spec fn view(&self) -> FrameView {
        match self {
            Frame::Sequence { statements, next, scope, owner } => FrameView::Sequence {
                statements: stmt_views(statements@),
                next: *next as nat,
                scope: *scope as nat,
                owner: *owner,
            },
            Frame::Repeat { condition, body, scope } => FrameView::Repeat {
                condition: condition@,
                body: body@,
                scope: *scope as nat,
            },
            Frame::Call => FrameView::Call,
            Frame::Discard => FrameView::Discard,
            Frame::Print => FrameView::Print,
            Frame::Define { name, scope } => FrameView::Define { name: name@, scope: *scope as nat },
            Frame::Branch { then_branch, else_branch, scope } => FrameView::Branch {
                then_branch: then_branch@,
                else_branch: match else_branch {
                    Some(branch) => Some(branch@),
                    None => None,
                },
                scope: *scope as nat,
            },
            Frame::While { condition, body, scope } => FrameView::While {
                condition: condition@,
                body: body@,
                scope: *scope as nat,
            },
            Frame::Return => FrameView::Return,
            Frame::Assign { name, id, scope } => FrameView::Assign {
                name: name@,
                id: *id,
                scope: *scope as nat,
            },
            Frame::Right { operator, right, scope } => FrameView::Right {
                operator: operator@,
                right: right@,
                scope: *scope as nat,
            },
            Frame::Apply { operator, left } => FrameView::Apply { operator: operator@, left: left@ },
            Frame::Logical { operator, right, scope } => FrameView::Logical {
                operator: operator@,
                right: right@,
                scope: *scope as nat,
            },
            Frame::Unary { operator } => FrameView::Unary { operator: operator@ },
            Frame::Prepend(text) => FrameView::Prepend(text@),
            Frame::Append(text) => FrameView::Append(text@),
            Frame::Callee { paren, arguments, scope } => FrameView::Callee {
                paren: paren@,
                arguments: expr_views(arguments@),
                scope: *scope as nat,
            },
            Frame::Arguments { paren, callee, arguments, values, scope } => FrameView::Arguments {
                paren: paren@,
                callee: callee@,
                arguments: expr_views(arguments@),
                values: literal_views(values@),
                scope: *scope as nat,
            },
        }
    }
}

/// The work at hand; see [`ControlView`].
pub enum Control<'a> {
    Evaluate(&'a Expr, usize),
    Execute(&'a Stmt, usize),
    Value(Literal),
    Completed,
    Returning(Literal),
    Awaiting(Request),
    Printing(String),
    Finished,
    Failed(RuntimeError),
}

impl<'a> View for Control<'a> {
    type V = ControlView;

    open spec fn view(&self) -> ControlView {
        match self {
            Control::Evaluate(expr, scope) => ControlView::Evaluate(expr@, *scope as nat),
            Control::Execute(stmt, scope) => ControlView::Execute(stmt@, *scope as nat),
            Control::Value(value) => ControlView::Value(value@),
            Control::Completed => ControlView::Completed,
            Control::Returning(value) => ControlView::Returning(value@),
            Control::Awaiting(request) => ControlView::Awaiting(*request),
            Control::Printing(line) => ControlView::Printing(line@),
            Control::Finished => ControlView::Finished,
            Control::Failed(error) => ControlView::Failed(error@),
        }
    }
}

/// The values of a sequence of frames, in order.
pub open spec fn frame_views(frames: Seq<Frame>) -> Seq<FrameView> {
    Seq::new(frames.len(), |i: int| frames[i]@)
}

/// The values of a sequence of functions, in order.
pub open spec fn function_views(functions: Seq<Function>) -> Seq<FunctionView> {
    Seq::new(functions.len(), |i: int| functions[i]@)
}

/// The evaluator: a [`Machine`] that runs a program one step at a time.
pub struct Interpreter<'a> {
    environment: Environment,
    functions: Vec<Function<'a>>,
    locals: ResolutionMap,
    frames: Vec<Frame<'a>>,
    control: Control<'a>,
}

impl<'a> View for Interpreter<'a> {
    type V = Machine;

    closed spec fn view(&self) -> Machine {
        Machine {
            scopes: self.environment@,
            functions: function_views(self.functions@),
            locals: self.locals@,
            frames: frame_views(self.frames@),
            control: self.control@,
        }
    }
}

impl<'a> Interpreter<'a> {
    /// An interpreter with nothing to run: no program, the global scope
    /// alone, and every variable global.
    pub fn new() -> (interpreter: Self)
        ensures
            interpreter@ == machine::idle(),
            interpreter@.well_formed(),
    {
        let interpreter = Interpreter {
            environment: Environment::new(),
            functions: Vec::new(),
            locals: ResolutionMap::new(),
            frames: Vec::new(),
            control: Control::Finished,
        };
        assert(interpreter@.frames =~= Seq::empty());
        assert(interpreter@.functions =~= Seq::empty());
        interpreter
    }

    /// Makes the interpreter ready to run `statements` from the start, with
    /// `locals` as the table of resolved variables. Whatever it ran before
    /// is forgotten.
    pub fn load(&mut self, statements: &'a Vec<Stmt>, locals: ResolutionMap)
        ensures
            final(self)@ == machine::initial(locals@, stmt_views(statements@)),
            final(self)@.well_formed(),
            final(self)@.orderly(),
    {
        self.environment = Environment::new();
        self.functions = Vec::new();
        self.locals = locals;
        self.frames = Vec::new();
        self.frames.push(Frame::Sequence { statements, next: 0, scope: 0, owner: false });
        self.control = Control::Completed;
        assert(self@.functions =~= Seq::empty());
        assert(self@.frames =~= seq![
            FrameView::Sequence {
                statements: stmt_views(statements@),
                next: 0,
                scope: 0,
                owner: false,
            },
        ]);
        proof {
            machine::initial_is_orderly(locals@, stmt_views(statements@));
        }
    }

    /// Makes the interpreter ready to run `statements` from the start: the
    /// variables are resolved first, then the program stands before its
    /// first statement. The host runs it with [`Interpreter::run`].
    pub fn interpret(&mut self, statements: &'a Vec<Stmt>)
        ensures
            final(self)@ == machine::initial(
                resolution(stmt_views(statements@)),
                stmt_views(statements@),
            ),
            final(self)@.well_formed(),
            final(self)@.orderly(),
    {
        let locals = resolve(statements);
        self.load(statements, locals);
    }

    /// The scopes as they are now.
    pub fn environment(&self) -> (environment: &Environment)
        ensures
            environment@ == self@.scopes,
    {
        &self.environment
    }

    fn push_frame(&mut self, frame: Frame<'a>)
        ensures
            final(self)@ == old(self)@.push(frame@),
    {
        self.frames.push(frame);
        assert(self@.frames =~= old(self)@.frames.push(frame@));
    }

    fn pop_frame(&mut self) -> (frame: Frame<'a>)
        requires
            old(self)@.frames.len() > 0,
        ensures
            final(self)@ == old(self)@.pop(),
            frame@ == old(self)@.frames.last(),
    {
        let frame = self.frames.pop().unwrap();
        assert(self@.frames =~= old(self)@.frames.drop_last());
        frame
    }

    fn goto(&mut self, control: Control<'a>)
        ensures
            final(self)@ == old(self)@.goto(control@),
    {
        self.control = control;
    }

    fn fail(&mut self, message: &str, token: &Token)
        ensures
            final(self)@ == old(self)@.fail(message@, token@),
    {
        self.control = Control::Failed(
            RuntimeError { message: String::from_str(message), token: Some(token.clone()) },
        );
    }

    fn define(&mut self, scope: usize, name: &Token, value: Literal)
        requires
            old(self)@.steady(),
            scope < old(self)@.scopes.len(),
        ensures
            final(self)@ == old(self)@.with_scopes(
                crate::environment::with_binding(old(self)@.scopes, scope as nat, name@.lexeme, value@),
            ),
            final(self)@.steady(),
    {
        self.environment.define(scope, name.lexeme.clone(), value);
        proof {
            machine::binding_keeps_tree(old(self)@.scopes, scope as nat, name@.lexeme, value@);
            machine::scopes_keep_well_formed(old(self)@, self@.scopes);
        }
    }

    /// Gives up the scope of `frame`, which was on top and is gone for
    /// good, if the frame owned one.
    fn release(&mut self, frame: &Frame<'a>)
        requires
            old(self)@.steady(),
            machine::frame_in_scopes(frame@, old(self)@.scopes.len()),
        ensures
            final(self)@ == old(self)@.released(frame@),
    {
        match frame {
            Frame::Sequence { scope, owner, .. } => {
                if *owner {
                    self.environment.close_scope(*scope);
                }
            },
            _ => {},
        }
    }

    /// Starts the evaluation of `expr` in `scope`.
    fn evaluate(&mut self, expr: &'a Expr, scope: usize)
        requires
            old(self)@.steady(),
            scope < old(self)@.scopes.len(),
        ensures
            final(self)@ == machine::evaluate(old(self)@, expr@, scope as nat),
    {
        match expr {
            Expr::Literal(value) => {
                self.goto(Control::Value(value.clone()));
            },
            Expr::Variable(name, id) => {
                let found = match self.locals.distance(*id) {
                    Some(distance) => self.environment.get_at(scope, distance, &name.lexeme),
                    None => match self.environment.get(0, name) {
                        Ok(value) => Some(value),
                        Err(_) => None,
                    },
                };
                match found {
                    Some(value) => {
                        self.goto(Control::Value(value));
                    },
                    None => {
                        self.goto(Control::Failed(RuntimeError::undefined(name)));
                    },
                }
            },
            Expr::Assign(name, id, value) => {
                self.push_frame(Frame::Assign { name, id: *id, scope });
                self.goto(Control::Evaluate(value, scope));
            },
            Expr::Binary(left, operator, right) => {
                self.push_frame(Frame::Right { operator, right, scope });
                self.goto(Control::Evaluate(left, scope));
            },
            Expr::Logical(left, operator, right) => {
                self.push_frame(Frame::Logical { operator, right, scope });
                self.goto(Control::Evaluate(left, scope));
            },
            Expr::Unary(operator, operand) => {
                self.push_frame(Frame::Unary { operator });
                self.goto(Control::Evaluate(operand, scope));
            },
            Expr::Grouping(inner) => {
                self.goto(Control::Evaluate(inner, scope));
            },
            Expr::Call(callee, paren, arguments) => {
                proof {
                    call_arguments_view(*callee, *paren, *arguments);
                }
                self.push_frame(Frame::Callee { paren, arguments, scope });
                self.goto(Control::Evaluate(callee, scope));
            },
        }
    }

    /// Starts the execution of `stmt` in `scope`.
    fn execute(&mut self, stmt: &'a Stmt, scope: usize)
        requires
            old(self)@.steady(),
            scope < old(self)@.scopes.len(),
        ensures
            final(self)@ == machine::execute(old(self)@, stmt@, scope as nat),
    {
        match stmt {
            Stmt::Expression(expr) => {
                self.push_frame(Frame::Discard);
                self.goto(Control::Evaluate(expr, scope));
            },
            Stmt::Print(expr) => {
                self.push_frame(Frame::Print);
                self.goto(Control::Evaluate(expr, scope));
            },
            Stmt::Var(name, initializer) => match initializer {
                Some(expr) => {
                    self.push_frame(Frame::Define { name, scope });
                    self.goto(Control::Evaluate(expr, scope));
                },
                None => {
                    self.define(scope, name, Literal::Nil);
                    self.goto(Control::Completed);
                },
            },
            Stmt::Block(statements) => {
                proof {
                    block_view(*statements);
                }
                let inner = self.environment.open_scope(scope);
                self.push_frame(Frame::Sequence { statements, next: 0, scope: inner, owner: true });
                self.goto(Control::Completed);
            },
            Stmt::If(condition, then_branch, else_branch) => {
                let otherwise: Option<&'a Stmt> = match else_branch {
                    Some(branch) => Some(&**branch),
                    None => None,
                };
                self.push_frame(Frame::Branch { then_branch, else_branch: otherwise, scope });
                self.goto(Control::Evaluate(condition, scope));
            },
            Stmt::While(condition, body) => {
                self.push_frame(Frame::While { condition, body, scope });
                self.goto(Control::Evaluate(condition, scope));
            },
            Stmt::Function(name, parameters, body) => {
                proof {
                    function_view(*name, *parameters, *body);
                }
                let id = self.functions.len();
                self.functions.push(Function { name, parameters, body, closure: scope });
                self.environment.capture(scope);
                self.environment.define(scope, name.lexeme.clone(), Literal::Callable(id));
                self.control = Control::Completed;
                assert(self@.functions =~= old(self)@.functions.push(
                    FunctionView {
                        name: name@,
                        parameters: token_views(parameters@),
                        body: stmt_views(body@),
                        closure: scope as nat,
                    },
                ));
            },
            Stmt::Return(keyword, value) => match value {
                Some(expr) => {
                    self.push_frame(Frame::Return);
                    self.goto(Control::Evaluate(expr, scope));
                },
                None => {
                    self.goto(Control::Returning(Literal::Nil));
                },
            },
        }
    }

    /// An operation that takes two numbers and is left to the host.
    fn arithmetic(&mut self, operation: Arithmetic, operator: &Token, left: Literal, right: Literal)
        ensures
            final(self)@ == machine::arithmetic(old(self)@, operation, operator@, left@, right@),
    {
        match (left, right) {
            (Literal::Number(a), Literal::Number(b)) => {
                self.goto(Control::Awaiting(Request::Compute(operation, a, b)));
            },
            _ => {
                self.fail("Operands must be two numbers", operator);
            },
        }
    }

    /// A comparison of two numbers.
    fn comparison(&mut self, operator: &Token, left: Literal, right: Literal)
        ensures
            final(self)@ == machine::comparison(old(self)@, operator@, left@, right@),
    {
        match (left, right) {
            (Literal::Number(a), Literal::Number(b)) => {
                let holds = match operator.kind {
                    TokenKind::Greater => number_less(b, a),
                    TokenKind::GreaterEqual => number_less_equal(b, a),
                    TokenKind::Less => number_less(a, b),
                    _ => number_less_equal(a, b),
                };
                self.goto(Control::Value(Literal::Boolean(holds)));
            },
            _ => {
                self.fail("Operands must be two numbers", operator);
            },
        }
    }

    /// Applies a binary operator to its two operands.
    fn binary(&mut self, operator: &Token, left: Literal, right: Literal)
        ensures
            final(self)@ == machine::binary(old(self)@, operator@, left@, right@),
    {
        match operator.kind {
            TokenKind::Plus => match (left, right) {
                (Literal::Number(a), Literal::Number(b)) => {
                    self.goto(Control::Awaiting(Request::Compute(Arithmetic::Add, a, b)));
                },
                (Literal::String(a), Literal::String(b)) => {
                    let mut joined = a;
                    joined.append(b.as_str());
                    self.goto(Control::Value(Literal::String(joined)));
                },
                (Literal::String(a), Literal::Number(b)) => {
                    self.push_frame(Frame::Prepend(a));
                    self.goto(Control::Awaiting(Request::Render(b)));
                },
                (Literal::Number(a), Literal::String(b)) => {
                    self.push_frame(Frame::Append(b));
                    self.goto(Control::Awaiting(Request::Render(a)));
                },
                _ => {
                    self.fail("Operands must be numbers or strings", operator);
                },
            },
            TokenKind::Minus => self.arithmetic(Arithmetic::Subtract, operator, left, right),
            TokenKind::Star => self.arithmetic(Arithmetic::Multiply, operator, left, right),
            TokenKind::Slash => self.arithmetic(Arithmetic::Divide, operator, left, right),
            TokenKind::Greater => self.comparison(operator, left, right),
            TokenKind::GreaterEqual => self.comparison(operator, left, right),
            TokenKind::Less => self.comparison(operator, left, right),
            TokenKind::LessEqual => self.comparison(operator, left, right),
            TokenKind::EqualEqual => {
                let same = left.equals(&right);
                self.goto(Control::Value(Literal::Boolean(same)));
            },
            TokenKind::BangEqual => {
                let same = left.equals(&right);
                self.goto(Control::Value(Literal::Boolean(!same)));
            },
            _ => {
                self.fail("Invalid binary operator", operator);
            },
        }
    }

    /// Decides `and` and `or` from the left operand.
    fn logical(&mut self, operator: &Token, left: Literal, right: &'a Expr, scope: usize)
        ensures
            final(self)@ == machine::logical(old(self)@, operator@, left@, right@, scope as nat),
    {
        match operator.kind {
            TokenKind::Or => {
                if left.is_truthy() {
                    self.goto(Control::Value(Literal::Boolean(true)));
                } else {
                    self.goto(Control::Evaluate(right, scope));
                }
            },
            TokenKind::And => {
                if !left.is_truthy() {
                    self.goto(Control::Value(Literal::Boolean(false)));
                } else {
                    self.goto(Control::Evaluate(right, scope));
                }
            },
            _ => {
                self.fail("Logical evaluator needs to be AND or OR", operator);
            },
        }
    }

    /// Applies a prefix operator to its operand.
    fn unary(&mut self, operator: &Token, operand: Literal)
        ensures
            final(self)@ == machine::unary(old(self)@, operator@, operand@),
    {
        match operator.kind {
            TokenKind::Bang => {
                let truth = operand.is_truthy();
                self.goto(Control::Value(Literal::Boolean(!truth)));
            },
            TokenKind::Minus => match operand {
                Literal::Number(bits) => {
                    self.goto(Control::Value(Literal::Number(number_negate(bits))));
                },
                _ => {
                    self.fail("Operand must be a number.", operator);
                },
            },
            _ => {
                self.fail("Invalid unary operator", operator);
            },
        }
    }

    /// Calls `callee` with the arguments `values`.
    fn invoke(&mut self, paren: &Token, callee: Literal, values: Vec<Literal>)
        requires
            old(self)@.steady(),
        ensures
            final(self)@ == machine::invoke(old(self)@, paren@, callee@, literal_views(values@)),
    {
        match callee {
            Literal::Callable(id) => {
                if id >= self.functions.len() {
                    self.fail("Can only call functions.", paren);
                    return ;
                }
                let parameters: &'a Vec<Token> = self.functions[id].parameters;
                let body: &'a Vec<Stmt> = self.functions[id].body;
                let closure: usize = self.functions[id].closure;
                assert(self@.functions[id as int] == self.functions[id as int]@);
                if parameters.len() != values.len() {
                    let mut message = String::from_str("Expected ");
                    push_decimal(&mut message, parameters.len());
                    message.append(" arguments but got ");
                    push_decimal(&mut message, values.len());
                    message.append(".");
                    self.goto(
                        Control::Failed(RuntimeError { message, token: Some(paren.clone()) }),
                    );
                    return ;
                }
                if self.frames.len() > MAX_FRAMES - 2 {
                    self.fail("Stack overflow.", paren);
                    return ;
                }
                let scope = self.environment.open_scope(closure);
                let ghost opened = self.environment@;
                let ghost names = token_views(parameters@);
                let ghost arguments = literal_views(values@);
                let mut i: usize = 0;
                while i < values.len()
                    invariant
                        i <= values.len(),
                        parameters.len() == values.len(),
                        names == token_views(parameters@),
                        arguments == literal_views(values@),
                        is_scope_tree(opened),
                        scope < opened.len(),
                        is_scope_tree(self.environment@),
                        self.environment@ == machine::bind_parameters(
                            opened,
                            scope as nat,
                            names,
                            arguments,
                            i as nat,
                        ),
                        self.functions == old(self).functions,
                        self.frames == old(self).frames,
                        self.locals == old(self).locals,
                    decreases values.len() - i,
                {
                    proof {
                        machine::parameters_keep_tree(
                            opened,
                            scope as nat,
                            names,
                            arguments,
                            i as nat,
                        );
                    }
                    self.environment.define(scope, parameters[i].lexeme.clone(), values[i].clone());
                    i += 1;
                }
                self.push_frame(Frame::Call);
                self.push_frame(Frame::Sequence { statements: body, next: 0, scope, owner: true });
                self.goto(Control::Completed);
            },
            _ => {
                self.fail("Can only call functions.", paren);
            },
        }
    }

    /// Goes on with a call of which `values` are the arguments evaluated so
    /// far.
    fn call(
        &mut self,
        paren: &'a Token,
        callee: Literal,
        arguments: &'a Vec<Expr>,
        values: Vec<Literal>,
        scope: usize,
    )
        requires
            old(self)@.steady(),
            scope < old(self)@.scopes.len(),
        ensures
            final(self)@ == machine::call(
                old(self)@,
                paren@,
                callee@,
                expr_views(arguments@),
                literal_views(values@),
                scope as nat,
            ),
    {
        if values.len() < arguments.len() {
            let argument = &arguments[values.len()];
            self.push_frame(Frame::Arguments { paren, callee, arguments, values, scope });
            self.goto(Control::Evaluate(argument, scope));
        } else {
            self.invoke(paren, callee, values);
        }
    }

    /// Hands `value` to `frame`, which was on top of the stack.
    fn deliver(&mut self, frame: Frame<'a>, value: Literal)
        requires
            old(self)@.steady(),
            machine::frame_in_scopes(frame@, old(self)@.scopes.len()),
        ensures
            final(self)@ == machine::deliver(old(self)@, frame@, value@),
    {
        match frame {
            Frame::Discard => {
                self.goto(Control::Completed);
            },
            Frame::Print => match value.to_string() {
                Some(line) => {
                    self.goto(Control::Printing(line));
                },
                None => {
                    let bits = match value {
                        Literal::Number(bits) => bits,
                        _ => 0,
                    };
                    self.push_frame(Frame::Print);
                    self.goto(Control::Awaiting(Request::Render(bits)));
                },
            },
            Frame::Define { name, scope } => {
                self.define(scope, name, value);
                self.goto(Control::Completed);
            },
            Frame::Branch { then_branch, else_branch, scope } => {
                if value.is_truthy() {
                    self.goto(Control::Execute(then_branch, scope));
                } else {
                    match else_branch {
                        Some(branch) => {
                            self.goto(Control::Execute(branch, scope));
                        },
                        None => {
                            self.goto(Control::Completed);
                        },
                    }
                }
            },
            Frame::While { condition, body, scope } => {
                if value.is_truthy() {
                    self.push_frame(Frame::Repeat { condition, body, scope });
                    self.goto(Control::Execute(body, scope));
                } else {
                    self.goto(Control::Completed);
                }
            },
            Frame::Return => {
                self.goto(Control::Returning(value));
            },
            Frame::Assign { name, id, scope } => {
                let stored = match self.locals.distance(id) {
                    Some(distance) => self.environment.assign_at(scope, distance, name, value.clone()),
                    None => self.environment.assign(0, name, value.clone()).is_ok(),
                };
                if stored {
                    self.goto(Control::Value(value));
                } else {
                    self.goto(Control::Failed(RuntimeError::undefined(name)));
                }
            },
            Frame::Right { operator, right, scope } => {
                self.push_frame(Frame::Apply { operator, left: value });
                self.goto(Control::Evaluate(right, scope));
            },
            Frame::Apply { operator, left } => {
                self.binary(operator, left, value);
            },
            Frame::Logical { operator, right, scope } => {
                self.logical(operator, value, right, scope);
            },
            Frame::Unary { operator } => {
                self.unary(operator, value);
            },
            Frame::Prepend(text) => match value {
                Literal::String(tail) => {
                    let mut joined = text;
                    joined.append(tail.as_str());
                    self.goto(Control::Value(Literal::String(joined)));
                },
                other => {
                    self.goto(Control::Value(other));
                },
            },
            Frame::Append(text) => match value {
                Literal::String(head) => {
                    let mut joined = head;
                    joined.append(text.as_str());
                    self.goto(Control::Value(Literal::String(joined)));
                },
                other => {
                    self.goto(Control::Value(other));
                },
            },
            Frame::Callee { paren, arguments, scope } => {
                let values: Vec<Literal> = Vec::new();
                assert(literal_views(values@) =~= Seq::empty());
                self.call(paren, value, arguments, values, scope);
            },
            Frame::Arguments { paren, callee, arguments, values, scope } => {
                let mut values = values;
                let ghost before = literal_views(values@);
                values.push(value);
                assert(literal_views(values@) =~= before.push(value@));
                self.call(paren, callee, arguments, values, scope);
            },
            other => {
                self.push_frame(other);
                self.goto(Control::Completed);
            },
        }
    }

    /// Goes on after a statement has run to its end, `frame` having been on
    /// top of the stack.
    fn complete(&mut self, frame: Frame<'a>)
        requires
            old(self)@.steady(),
            old(self)@.control == ControlView::Completed,
            machine::frame_in_scopes(frame@, old(self)@.scopes.len()),
        ensures
            final(self)@ == machine::complete(old(self)@, frame@),
    {
        match frame {
            Frame::Sequence { statements, next, scope, owner } => {
                if next < statements.len() {
                    self.push_frame(Frame::Sequence { statements, next: next + 1, scope, owner });
                    self.goto(Control::Execute(&statements[next], scope));
                } else {
                    self.release(&Frame::Sequence { statements, next, scope, owner });
                }
            },
            Frame::Repeat { condition, body, scope } => {
                self.push_frame(Frame::While { condition, body, scope });
                self.goto(Control::Evaluate(condition, scope));
            },
            Frame::Call => {
                self.goto(Control::Value(Literal::Nil));
            },
            other => {
                self.push_frame(other);
                self.goto(Control::Value(Literal::Nil));
            },
        }
    }

    /// What the interpreter asks of the host in its present state.
    pub fn pending(&self) -> (action: Action)
        ensures
            action@ == machine::pending(self@.control),
    {
        match &self.control {
            Control::Awaiting(request) => Action::Ask(*request),
            Control::Printing(line) => Action::Print(line.clone()),
            Control::Finished => Action::Finished,
            Control::Failed(error) => Action::Failed(error.clone()),
            _ => Action::Proceed,
        }
    }

    /// Takes one step and tells what is asked of the host next.
    ///
    /// `event` matters only while a request is open: the matching answer
    /// closes it, and with any other event the request is made again.
    pub fn step(&mut self, event: Event) -> (action: Action)
        requires
            old(self)@.well_formed(),
        ensures
            final(self)@ == machine::next(old(self)@, event@),
            action@ == machine::pending(final(self)@.control),
            final(self)@.well_formed(),
            old(self)@.orderly() ==> final(self)@.orderly(),
    {
        let mut control: Control<'a> = Control::Completed;
        core::mem::swap(&mut self.control, &mut control);
        proof {
            reveal(machine::next);
            machine::next_keeps_well_formed(old(self)@, event@);
            if old(self)@.orderly() {
                machine::next_keeps_order(old(self)@, event@);
            }
            assert(self@ == old(self)@.goto(ControlView::Completed));
            if old(self)@.frames.len() > 0 {
                machine::pop_keeps_well_formed(old(self)@);
            }
        }
        match control {
            Control::Evaluate(expr, scope) => {
                self.evaluate(expr, scope);
            },
            Control::Execute(stmt, scope) => {
                self.execute(stmt, scope);
            },
            Control::Value(value) => {
                if self.frames.len() == 0 {
                    self.goto(Control::Finished);
                } else {
                    let frame = self.pop_frame();
                    self.deliver(frame, value);
                }
            },
            Control::Completed => {
                if self.frames.len() == 0 {
                    self.goto(Control::Finished);
                } else {
                    let frame = self.pop_frame();
                    self.complete(frame);
                }
            },
            Control::Returning(value) => {
                if self.frames.len() == 0 {
                    self.goto(Control::Finished);
                } else {
                    match self.pop_frame() {
                        Frame::Call => {
                            self.goto(Control::Value(value));
                        },
                        other => {
                            self.release(&other);
                            self.goto(Control::Returning(value));
                        },
                    }
                }
            },
            Control::Awaiting(request) => {
                match (request, event) {
                    (Request::Compute(_, _, _), Event::Number(bits)) => {
                        self.goto(Control::Value(Literal::Number(bits)));
                    },
                    (Request::Render(_), Event::Text(text)) => {
                        self.goto(Control::Value(Literal::String(text)));
                    },
                    _ => {
                        self.goto(Control::Awaiting(request));
                    },
                }
            },
            Control::Printing(_) => {},
            Control::Finished => {
                self.goto(Control::Finished);
            },
            Control::Failed(error) => {
                self.goto(Control::Failed(error));
            },
        }
        self.pending()
    }

    /// Takes steps until something is asked of the host, but at most
    /// `limit` of them: the first with `event`, the others with
    /// [`Event::Resume`]. The result is what is asked in the state reached;
    /// it is [`Action::Proceed`] where the limit came first.
    pub fn run(&mut self, event: Event, limit: usize) -> (action: Action)
        requires
            old(self)@.well_formed(),
        ensures
            final(self)@ == machine::run(old(self)@, event@, limit as nat),
            action@ == machine::pending(final(self)@.control),
            final(self)@.well_formed(),
            old(self)@.orderly() ==> final(self)@.orderly(),
    {
        let ghost first = event@;
        let mut current = event;
        let mut remaining: usize = limit;
        while remaining > 0
            invariant
                first == event@,
                self@.well_formed(),
                old(self)@.orderly() ==> self@.orderly(),
                machine::run(self@, current@, remaining as nat) == machine::run(
                    old(self)@,
                    first,
                    limit as nat,
                ),
            decreases remaining,
        {
            let ghost before = self@;
            let ghost given = current@;
            let action = self.step(current);
            let proceed = match &action {
                Action::Proceed => true,
                _ => false,
            };
            assert(proceed == (machine::pending(machine::next(before, given).control) is Proceed));
            assert(machine::run(before, given, remaining as nat) == if proceed {
                machine::run(self@, EventView::Resume, (remaining - 1) as nat)
            } else {
                self@
            });
            if !proceed {
                return action;
            }
            current = Event::Resume;
            remaining -= 1;
        }
        self.pending()
    }
}

} // verus!
