//! The runtime values.

use vstd::prelude::*;
use crate::number::{equal, number_equal};

verus! {

/// A value of the language: what a literal token carries and what an
/// expression evaluates to.
#[derive(Debug)]
pub enum Literal {
    /// A double, as its IEEE 754 binary64 bit pattern.
    Number(u64),
    String(String),
    Boolean(bool),
    Nil,
    /// A function value, named by its place in the interpreter's table of
    /// functions. Each executed declaration makes a new one.
    Callable(usize),
}

/// The mathematical value of a [`Literal`].
pub enum LiteralView {
    Number(u64),
    String(Seq<char>),
    Boolean(bool),
    Nil,
    Callable(nat),
}

impl View for Literal {
    type V = LiteralView;

    open spec fn view(&self) -> LiteralView {
        match self {
            Literal::Number(bits) => LiteralView::Number(*bits),
            Literal::String(text) => LiteralView::String(text@),
            Literal::Boolean(b) => LiteralView::Boolean(*b),
            Literal::Nil => LiteralView::Nil,
            Literal::Callable(id) => LiteralView::Callable(*id as nat),
        }
    }
}

/// Every value counts as true except `false` and `nil`.
pub open spec fn truthy(value: LiteralView) -> bool {
    match value {
        LiteralView::Boolean(b) => b,
        LiteralView::Nil => false,
        _ => true,
    }
}

/// Equality of values. Values of different kinds are unequal; numbers are
/// compared as doubles, strings by their characters, functions by identity.
pub open spec fn values_equal(a: LiteralView, b: LiteralView) -> bool {
    match (a, b) {
        (LiteralView::Number(x), LiteralView::Number(y)) => equal(x, y),
        (LiteralView::String(x), LiteralView::String(y)) => x == y,
        (LiteralView::Boolean(x), LiteralView::Boolean(y)) => x == y,
        (LiteralView::Nil, LiteralView::Nil) => true,
        (LiteralView::Callable(x), LiteralView::Callable(y)) => x == y,
        _ => false,
    }
}

/// The printed form of a value other than a number: a string's own
/// characters, `true`, `false`, `nil`, and `<fn>` for a function. A number
/// has none here, its digits being the host's to produce.
pub open spec fn printed(value: LiteralView) -> Option<Seq<char>> {
    match value {
        LiteralView::Number(_) => None,
        LiteralView::String(text) => Some(text),
        LiteralView::Boolean(b) => Some(
            if b {
                "true"@
            } else {
                "false"@
            },
        ),
        LiteralView::Nil => Some("nil"@),
        LiteralView::Callable(_) => Some("<fn>"@),
    }
}

impl Clone for Literal {
    fn clone(&self) -> (copy: Self)
        ensures
            copy@ == self@,
    {
        match self {
            Literal::Number(bits) => Literal::Number(*bits),
            Literal::String(text) => Literal::String(text.clone()),
            Literal::Boolean(b) => Literal::Boolean(*b),
            Literal::Nil => Literal::Nil,
            Literal::Callable(id) => Literal::Callable(*id),
        }
    }
}

impl Literal {
    /// The printed form, or `None` for a number.
    pub fn to_string(&self) -> (text: Option<String>)
        ensures
            text is Some == printed(self@) is Some,
            text is Some ==> text->0@ == printed(self@)->0,
    {
        match self {
            Literal::Number(_) => None,
            Literal::String(text) => Some(text.clone()),
            Literal::Boolean(b) => Some(
                if *b {
                    String::from_str("true")
                } else {
                    String::from_str("false")
                },
            ),
            Literal::Nil => Some(String::from_str("nil")),
            Literal::Callable(_) => Some(String::from_str("<fn>")),
        }
    }

    pub fn is_truthy(&self) -> (r: bool)
        ensures
            r == truthy(self@),
    {
        match self {
            Literal::Boolean(b) => *b,
            Literal::Nil => false,
            _ => true,
        }
    }

    pub fn is_number(&self) -> (r: bool)
        ensures
            r == (self@ is Number),
    {
        match self {
            Literal::Number(_) => true,
            _ => false,
        }
    }

    /// Whether two values are equal.
    pub fn equals(&self, other: &Literal) -> (r: bool)
        ensures
            r == values_equal(self@, other@),
    {
        match self {
            Literal::Number(x) => match other {
                Literal::Number(y) => number_equal(*x, *y),
                _ => false,
            },
            Literal::String(x) => match other {
                Literal::String(y) => *x == *y,
                _ => false,
            },
            Literal::Boolean(x) => match other {
                Literal::Boolean(y) => *x == *y,
                _ => false,
            },
            Literal::Nil => match other {
                Literal::Nil => true,
                _ => false,
            },
            Literal::Callable(x) => match other {
                Literal::Callable(y) => *x == *y,
                _ => false,
            },
        }
    }
}

/// Equality of values is symmetric, and a value other than a NaN equals
/// itself.
pub proof fn values_equal_laws(a: LiteralView, b: LiteralView)
    ensures
        values_equal(a, b) == values_equal(b, a),
        values_equal(a, a) || (a is Number && crate::number::is_nan(a->Number_0)),
{
}

} // verus!
