//! Tokens.

use vstd::prelude::*;
use crate::literal::{Literal, LiteralView};
use crate::token_kind::TokenKind;

verus! {

/// One lexeme of the source with its kind, its line (counted from 1) and,
/// for a number or a string, its value.
#[derive(Debug)]
pub struct Token {
    pub kind: TokenKind,
    pub lexeme: String,
    pub line: usize,
    pub literal: Option<Literal>,
}

/// The mathematical value of a [`Token`].
pub struct TokenView {
    pub kind: TokenKind,
    pub lexeme: Seq<char>,
    pub line: nat,
    pub literal: Option<LiteralView>,
}

impl View for Token {
    type V = TokenView;

    open spec fn view(&self) -> TokenView {
        TokenView {
            kind: self.kind,
            lexeme: self.lexeme@,
            line: self.line as nat,
            literal: match self.literal {
                Some(value) => Some(value@),
                None => None,
            },
        }
    }
}

impl Clone for Token {
    fn clone(&self) -> (copy: Self)
        ensures
            copy@ == self@,
    {
        Token {
            kind: self.kind,
            lexeme: self.lexeme.clone(),
            line: self.line,
            literal: match &self.literal {
                Some(value) => Some(value.clone()),
                None => None,
            },
        }
    }
}

/// The values of a sequence of tokens, in order.
pub open spec fn token_views(tokens: Seq<Token>) -> Seq<TokenView> {
    Seq::new(tokens.len(), |i: int| tokens[i]@)
}

} // verus!
