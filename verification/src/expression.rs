//! Expression trees.

use vstd::prelude::*;
use crate::literal::{Literal, LiteralView};
use crate::token::{Token, TokenView};

verus! {

/// An expression. Each node owns its children.
///
/// A reference to a variable (`Variable`, and the target of `Assign`)
/// carries a number that tells it from every other reference in the same
/// program: the parser uses the position of the name among the tokens.
/// The resolver's table is keyed by it.
#[derive(Debug)]
pub enum Expr {
    Literal(Literal),
    Variable(Token, usize),
    Assign(Token, usize, Box<Expr>),
    Binary(Box<Expr>, Token, Box<Expr>),
    Logical(Box<Expr>, Token, Box<Expr>),
    Unary(Token, Box<Expr>),
    Grouping(Box<Expr>),
    Call(Box<Expr>, Token, Vec<Expr>),
}

/// The mathematical value of an [`Expr`].
pub enum ExprView {
    Literal(LiteralView),
    Variable(TokenView, usize),
    Assign(TokenView, usize, Box<ExprView>),
    Binary(Box<ExprView>, TokenView, Box<ExprView>),
    Logical(Box<ExprView>, TokenView, Box<ExprView>),
    Unary(TokenView, Box<ExprView>),
    Grouping(Box<ExprView>),
    Call(Box<ExprView>, TokenView, Seq<ExprView>),
}

impl Expr {
    /// The tree as a mathematical value.
    pub open spec fn model(self) -> ExprView
        decreases self,
    {
        match self {
            Expr::Literal(value) => ExprView::Literal(value@),
            Expr::Variable(name, id) => ExprView::Variable(name@, id),
            Expr::Assign(name, id, value) => ExprView::Assign(
                name@,
                id,
                Box::new(value.model()),
            ),
            Expr::Binary(left, operator, right) => ExprView::Binary(
                Box::new(left.model()),
                operator@,
                Box::new(right.model()),
            ),
            Expr::Logical(left, operator, right) => ExprView::Logical(
                Box::new(left.model()),
                operator@,
                Box::new(right.model()),
            ),
            Expr::Unary(operator, operand) => ExprView::Unary(operator@, Box::new(operand.model())),
            Expr::Grouping(inner) => ExprView::Grouping(Box::new(inner.model())),
            Expr::Call(callee, paren, arguments) => ExprView::Call(
                Box::new(callee.model()),
                paren@,
                Seq::new(
                    arguments.len() as nat,
                    |i: int|
                        if 0 <= i < arguments.len() {
                            arguments[i].model()
                        } else {
                            ExprView::Literal(LiteralView::Nil)
                        },
                ),
            ),
        }
    }
}

impl View for Expr {
    type V = ExprView;

    open spec fn view(&self) -> ExprView {
        self.model()
    }
}

/// The values of a sequence of expressions, in order.
pub open spec fn expr_views(exprs: Seq<Expr>) -> Seq<ExprView> {
    Seq::new(exprs.len(), |i: int| exprs[i]@)
}

/// The arguments of a call, seen through the call's value, are the values of
/// the arguments.
pub proof fn call_arguments_view(callee: Box<Expr>, paren: Token, arguments: Vec<Expr>)
    ensures
        Expr::Call(callee, paren, arguments)@ == ExprView::Call(
            Box::new(callee@),
            paren@,
            expr_views(arguments@),
        ),
{
    let built = Expr::Call(callee, paren, arguments)@;
    assert(built->Call_2 =~= expr_views(arguments@));
}

} // verus!
