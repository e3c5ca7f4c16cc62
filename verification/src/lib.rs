//! A tree-walking interpreter for a small dynamically-typed scripting
//! language: scanner, recursive-descent parser, static resolver, scope
//! arena and a step-wise evaluator.
//!
//! Source text becomes tokens ([`scanner`]), tokens become statements
//! ([`parser`], after the grammar in [`grammar`], of which [`precedence`]
//! proves that it nests operators as it should), the references to local
//! variables in the statements are resolved ([`resolver`]), and the
//! statements are run ([`interpreter`], which implements the abstract
//! machine in [`machine`] over the scopes in [`environment`]).
//!
//! Numbers are IEEE 754 binary64 values carried as their bit patterns. The
//! library never computes with them beyond comparison and negation, and it
//! neither reads nor writes anything. What it cannot do it leaves to its
//! host:
//!
//! * A number token comes out of the scanner without a value. The host
//!   reads the numeral, which is the token's lexeme, and puts the value in.
//! * The interpreter runs up to the point where a line is to be printed, a
//!   sum or the like of two numbers is needed, or a number is to be
//!   rendered, and says so with an [`interpreter::Action`]. The host does
//!   it and lets the interpreter run on, with the answer where there is
//!   one.

pub mod text;
pub mod number;
pub mod token_kind;
pub mod literal;
pub mod token;
pub mod scanner;
pub mod expression;
pub mod statement;
pub mod environment;
pub mod grammar;
pub mod precedence;
pub mod parser;
pub mod resolver;
pub mod machine;
pub mod interpreter;
