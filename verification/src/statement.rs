//! Statement trees.

use vstd::prelude::*;
use crate::expression::{Expr, ExprView};
use crate::token::{token_views, Token, TokenView};

verus! {

/// A statement. Each node owns its children.
#[derive(Debug)]
pub enum Stmt {
    Expression(Expr),
    Print(Expr),
    Var(Token, Option<Expr>),
    Block(Vec<Stmt>),
    If(Expr, Box<Stmt>, Option<Box<Stmt>>),
    While(Expr, Box<Stmt>),
    Function(Token, Vec<Token>, Vec<Stmt>),
    Return(Token, Option<Expr>),
}

/// The mathematical value of a [`Stmt`].
pub enum StmtView {
    Expression(ExprView),
    Print(ExprView),
    Var(TokenView, Option<ExprView>),
    Block(Seq<StmtView>),
    If(ExprView, Box<StmtView>, Option<Box<StmtView>>),
    While(ExprView, Box<StmtView>),
    Function(TokenView, Seq<TokenView>, Seq<StmtView>),
    Return(TokenView, Option<ExprView>),
}

/// The value of an expression that may be absent.
pub open spec fn optional_expr_view(expr: Option<Expr>) -> Option<ExprView> {
    match expr {
        Some(e) => Some(e@),
        None => None,
    }
}

impl Stmt {
    /// The tree as a mathematical value.
    pub open spec fn model(self) -> StmtView
        decreases self,
    {
        match self {
            Stmt::Expression(expr) => StmtView::Expression(expr@),
            Stmt::Print(expr) => StmtView::Print(expr@),
            Stmt::Var(name, initializer) => StmtView::Var(name@, optional_expr_view(initializer)),
            Stmt::Block(statements) => StmtView::Block(
                Seq::new(
                    statements.len() as nat,
                    |i: int|
                        if 0 <= i < statements.len() {
                            statements[i].model()
                        } else {
                            StmtView::Block(Seq::empty())
                        },
                ),
            ),
            Stmt::If(condition, then_branch, else_branch) => StmtView::If(
                condition@,
                Box::new(then_branch.model()),
                match else_branch {
                    Some(branch) => Some(Box::new(branch.model())),
                    None => None,
                },
            ),
            Stmt::While(condition, body) => StmtView::While(condition@, Box::new(body.model())),
            Stmt::Function(name, parameters, body) => StmtView::Function(
                name@,
                token_views(parameters@),
                Seq::new(
                    body.len() as nat,
                    |i: int|
                        if 0 <= i < body.len() {
                            body[i].model()
                        } else {
                            StmtView::Block(Seq::empty())
                        },
                ),
            ),
            Stmt::Return(keyword, value) => StmtView::Return(keyword@, optional_expr_view(value)),
        }
    }
}

impl View for Stmt {
    type V = StmtView;

    open spec fn view(&self) -> StmtView {
        self.model()
    }
}

/// The values of a sequence of statements, in order.
pub open spec fn stmt_views(statements: Seq<Stmt>) -> Seq<StmtView> {
    Seq::new(statements.len(), |i: int| statements[i]@)
}

/// A block's value holds the values of its statements.
pub proof fn block_view(statements: Vec<Stmt>)
    ensures
        Stmt::Block(statements)@ == StmtView::Block(stmt_views(statements@)),
{
    let built = Stmt::Block(statements)@;
    assert(built->Block_0 =~= stmt_views(statements@));
}

/// A function declaration's value holds the values of its parameters and of
/// the statements of its body.
pub proof fn function_view(name: Token, parameters: Vec<Token>, body: Vec<Stmt>)
    ensures
        Stmt::Function(name, parameters, body)@ == StmtView::Function(
            name@,
            token_views(parameters@),
            stmt_views(body@),
        ),
{
    let built = Stmt::Function(name, parameters, body)@;
    assert(built->Function_2 =~= stmt_views(body@));
}

} // verus!
