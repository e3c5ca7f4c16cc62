//! The grammar, as functions from tokens to trees.
//!
//! Every function reads the tokens from a position on and tells what it
//! found and how many tokens it took. From lowest to highest precedence:
//!
//! ```text
//! expression → assignment
//! assignment → IDENTIFIER "=" assignment | or
//! or         → and ( "or" and )*
//! and        → equality ( "and" equality )*
//! equality   → comparison ( ( "==" | "!=" ) comparison )*
//! comparison → term ( ( ">" | ">=" | "<" | "<=" ) term )*
//! term       → factor ( ( "-" | "+" ) factor )*
//! factor     → unary ( ( "/" | "*" ) unary )*
//! unary      → ( "!" | "-" ) unary | call
//! call       → primary ( "(" arguments? ")" )*
//! primary    → "false" | "true" | "nil" | NUMBER | STRING | IDENTIFIER
//!            | "(" expression ")"
//! ```
//!
//! and above the expressions:
//!
//! ```text
//! program     → declaration* EOF
//! declaration → "fun" function | "var" varDecl | statement
//! function    → IDENTIFIER "(" parameters? ")" block
//! varDecl     → IDENTIFIER ( "=" expression )? ";"
//! statement   → for | if | print | return | while | block | exprStmt
//! block       → "{" declaration* "}"
//! ```
//!
//! A declaration that is an error is given up, not the program: the error
//! is reported, tokens are skipped up to a place where a statement may
//! begin, and the next declaration is read from there.

use vstd::prelude::*;
use crate::expression::ExprView;
use crate::literal::LiteralView;
use crate::statement::StmtView;
use crate::text::decimal;
use crate::token::TokenView;
use crate::token_kind::TokenKind;

verus! {

/// The most parameters a function may have, and the most arguments a call.
pub const MAX_ARGUMENTS: usize = 255;

/// A token stream ends with `Eof`.
pub open spec fn is_token_stream(tokens: Seq<TokenView>) -> bool {
    tokens.len() > 0 && tokens.last().kind == TokenKind::Eof
}

/// The kind of the token at `pos`; past the tokens it is `Eof`.
pub open spec fn kind_at(tokens: Seq<TokenView>, pos: int) -> TokenKind {
    if 0 <= pos < tokens.len() {
        tokens[pos].kind
    } else {
        TokenKind::Eof
    }
}

/// Whether the tokens end at `pos`.
pub open spec fn at_end(tokens: Seq<TokenView>, pos: int) -> bool {
    kind_at(tokens, pos) == TokenKind::Eof
}

/// Whether a token of `kind` stands at `pos`.
pub open spec fn check(tokens: Seq<TokenView>, pos: int, kind: TokenKind) -> bool {
    !at_end(tokens, pos) && kind_at(tokens, pos) == kind
}

/// The number of tokens from `pos` on.
pub open spec fn remaining(tokens: Seq<TokenView>, pos: int) -> nat {
    if pos < tokens.len() {
        (tokens.len() - pos) as nat
    } else {
        0
    }
}

/// The text of a parse error found at `token`.
pub open spec fn error_text(token: TokenView, message: Seq<char>) -> Seq<char> {
    "[line "@ + decimal(token.line) + "] Error at '"@ + token.lexeme + "': "@ + message
}

/// What a function of the grammar found: a tree or an error, and the number
/// of tokens it took.
pub struct Parsed<T> {
    pub result: Result<T, Seq<char>>,
    pub used: nat,
}

impl<T> Parsed<T> {
    /// The same finding after `count` tokens that were taken before it.
    pub open spec fn after(self, count: nat) -> Parsed<T> {
        Parsed { result: self.result, used: self.used + count }
    }
}

/// A tree, found in `used` tokens.
pub open spec fn found<T>(tree: T, used: nat) -> Parsed<T> {
    Parsed { result: Ok(tree), used }
}

/// An error at the token at `pos`, after `used` tokens were taken.
pub open spec fn failed<T>(tokens: Seq<TokenView>, pos: int, message: Seq<char>, used: nat)
    -> Parsed<T> {
    Parsed { result: Err(error_text(tokens[pos], message)), used }
}

/// The error of `parsed`, for a finding that is one, as the finding of
/// another kind of tree.
pub open spec fn passed<T, U>(parsed: Parsed<T>) -> Parsed<U> {
    Parsed { result: Err(parsed.result->Err_0), used: parsed.used }
}

/// The levels of operators that take two operands, loosest first.
#[derive(Clone, Copy, PartialEq, Eq, Structural)]
pub enum Level {
    Or,
    And,
    Equality,
    Comparison,
    Term,
    Factor,
}

/// Whether a token of `kind` is an operator of `level`.
pub open spec fn is_operator(level: Level, kind: TokenKind) -> bool {
    match level {
        Level::Or => kind == TokenKind::Or,
        Level::And => kind == TokenKind::And,
        Level::Equality => kind == TokenKind::EqualEqual || kind == TokenKind::BangEqual,
        Level::Comparison => kind == TokenKind::Greater || kind == TokenKind::GreaterEqual || kind
            == TokenKind::Less || kind == TokenKind::LessEqual,
        Level::Term => kind == TokenKind::Minus || kind == TokenKind::Plus,
        Level::Factor => kind == TokenKind::Slash || kind == TokenKind::Star,
    }
}

/// The tree of an operator of `level` with its operands.
pub open spec fn operation(level: Level, left: ExprView, operator: TokenView, right: ExprView)
    -> ExprView {
    match level {
        Level::Or => ExprView::Logical(Box::new(left), operator, Box::new(right)),
        Level::And => ExprView::Logical(Box::new(left), operator, Box::new(right)),
        _ => ExprView::Binary(Box::new(left), operator, Box::new(right)),
    }
}

/// How far `level` is above `unary`; it orders the functions of the grammar
/// that may call each other without taking a token.
pub open spec fn height(level: Level) -> nat {
    match level {
        Level::Or => 20,
        Level::And => 17,
        Level::Equality => 14,
        Level::Comparison => 11,
        Level::Term => 8,
        Level::Factor => 5,
    }
}

/// An expression and the token of `kind` that must follow it. A missing
/// token is an error with `message`.
#[verifier::opaque]
pub open spec fn closed_expression(
    tokens: Seq<TokenView>,
    pos: int,
    kind: TokenKind,
    message: Seq<char>,
) -> Parsed<ExprView>
    decreases remaining(tokens, pos), 32nat,
{
    let inner = expression(tokens, pos);
    match inner.result {
        Ok(expr) => if check(tokens, pos + inner.used, kind) {
            found(expr, inner.used + 1)
        } else {
            failed(tokens, pos + inner.used, message, inner.used)
        },
        Err(_) => inner,
    }
}

/// `primary`: a literal, a variable, or an expression in parentheses.
#[verifier::opaque]
pub open spec fn primary(tokens: Seq<TokenView>, pos: int) -> Parsed<ExprView>
    decreases remaining(tokens, pos), 0nat,
{
    if check(tokens, pos, TokenKind::False) {
        found(ExprView::Literal(LiteralView::Boolean(false)), 1)
    } else if check(tokens, pos, TokenKind::True) {
        found(ExprView::Literal(LiteralView::Boolean(true)), 1)
    } else if check(tokens, pos, TokenKind::Nil) {
        found(ExprView::Literal(LiteralView::Nil), 1)
    } else if check(tokens, pos, TokenKind::Number) || check(tokens, pos, TokenKind::String) {
        match tokens[pos].literal {
            Some(value) => found(ExprView::Literal(value), 1),
            None => failed(tokens, pos, "Expect literal value."@, 1),
        }
    } else if check(tokens, pos, TokenKind::Identifier) {
        found(ExprView::Variable(tokens[pos], pos as usize), 1)
    } else if check(tokens, pos, TokenKind::LeftParen) {
        let inner = closed_expression(
            tokens,
            pos + 1,
            TokenKind::RightParen,
            "Expect ')' after expression."@,
        );
        match inner.result {
            Ok(expr) => found(ExprView::Grouping(Box::new(expr)), inner.used + 1),
            Err(_) => inner.after(1),
        }
    } else {
        failed(tokens, pos, "Expect expression."@, 0)
    }
}

/// The calls that follow `callee`, each applied to what stands before it.
#[verifier::opaque]
pub open spec fn call_rest(tokens: Seq<TokenView>, pos: int, callee: ExprView) -> Parsed<ExprView>
    decreases remaining(tokens, pos), 1nat,
{
    if check(tokens, pos, TokenKind::LeftParen) {
        let one = finish_call(tokens, pos + 1, callee);
        match one.result {
            Ok(expr) => call_rest(tokens, pos + 1 + one.used, expr).after(1 + one.used),
            Err(_) => one.after(1),
        }
    } else {
        found(callee, 0)
    }
}

/// `call`: a primary expression and the calls that follow it.
#[verifier::opaque]
pub open spec fn call(tokens: Seq<TokenView>, pos: int) -> Parsed<ExprView>
    decreases remaining(tokens, pos), 2nat,
{
    let callee = primary(tokens, pos);
    match callee.result {
        Ok(expr) => call_rest(tokens, pos + callee.used, expr).after(callee.used),
        Err(_) => callee,
    }
}

/// The arguments of a call from `pos` on, up to the closing parenthesis,
/// added to those `collected` before. There may be at most
/// [`MAX_ARGUMENTS`].
#[verifier::opaque]
pub open spec fn arguments(tokens: Seq<TokenView>, pos: int, collected: Seq<ExprView>) -> Parsed<
    Seq<ExprView>,
>
    decreases remaining(tokens, pos), 40nat,
{
    if collected.len() >= MAX_ARGUMENTS {
        failed(tokens, pos, "Can't have more than 255 arguments."@, 0)
    } else {
        let one = expression(tokens, pos);
        match one.result {
            Ok(expr) => if check(tokens, pos + one.used, TokenKind::Comma) {
                arguments(tokens, pos + one.used + 1, collected.push(expr)).after(one.used + 1)
            } else {
                found(collected.push(expr), one.used)
            },
            Err(_) => passed(one),
        }
    }
}

/// A call of `callee`, from behind the opening parenthesis on. The closing
/// parenthesis is kept in the tree.
#[verifier::opaque]
pub open spec fn finish_call(tokens: Seq<TokenView>, pos: int, callee: ExprView) -> Parsed<
    ExprView,
>
    decreases remaining(tokens, pos), 41nat,
{
    let list = if check(tokens, pos, TokenKind::RightParen) {
        found(Seq::empty(), 0)
    } else {
        arguments(tokens, pos, Seq::empty())
    };
    match list.result {
        Ok(values) => if check(tokens, pos + list.used, TokenKind::RightParen) {
            found(
                ExprView::Call(Box::new(callee), tokens[pos + list.used], values),
                list.used + 1,
            )
        } else {
            failed(tokens, pos + list.used, "Expect ')' after arguments."@, list.used)
        },
        Err(_) => passed(list),
    }
}

/// `unary`: `!` or `-` before a unary expression, or a call.
#[verifier::opaque]
pub open spec fn unary(tokens: Seq<TokenView>, pos: int) -> Parsed<ExprView>
    decreases remaining(tokens, pos), 3nat,
{
    if check(tokens, pos, TokenKind::Bang) || check(tokens, pos, TokenKind::Minus) {
        let operand = unary(tokens, pos + 1);
        match operand.result {
            Ok(expr) => found(ExprView::Unary(tokens[pos], Box::new(expr)), operand.used + 1),
            Err(_) => operand.after(1),
        }
    } else {
        call(tokens, pos)
    }
}

/// An operand of an operator of `level`: an expression of the next tighter
/// level.
#[verifier::opaque]
pub open spec fn operand(tokens: Seq<TokenView>, pos: int, level: Level) -> Parsed<ExprView>
    decreases remaining(tokens, pos), height(level) - 1,
{
    match level {
        Level::Or => binary(tokens, pos, Level::And),
        Level::And => binary(tokens, pos, Level::Equality),
        Level::Equality => binary(tokens, pos, Level::Comparison),
        Level::Comparison => binary(tokens, pos, Level::Term),
        Level::Term => binary(tokens, pos, Level::Factor),
        Level::Factor => unary(tokens, pos),
    }
}

/// The operators of `level` that follow `left`, with their right operands:
/// each is applied to all that stands before it, so the operators group to
/// the left.
#[verifier::opaque]
pub open spec fn binary_rest(tokens: Seq<TokenView>, pos: int, level: Level, left: ExprView)
    -> Parsed<ExprView>
    decreases remaining(tokens, pos), height(level),
{
    if !at_end(tokens, pos) && is_operator(level, kind_at(tokens, pos)) {
        let right = operand(tokens, pos + 1, level);
        match right.result {
            Ok(expr) => binary_rest(
                tokens,
                pos + 1 + right.used,
                level,
                operation(level, left, tokens[pos], expr),
            ).after(1 + right.used),
            Err(_) => right.after(1),
        }
    } else {
        found(left, 0)
    }
}

/// An expression of `level`: an operand, and the operators of the level
/// that follow it with their operands.
#[verifier::opaque]
pub open spec fn binary(tokens: Seq<TokenView>, pos: int, level: Level) -> Parsed<ExprView>
    decreases remaining(tokens, pos), height(level) + 1,
{
    let left = operand(tokens, pos, level);
    match left.result {
        Ok(expr) => binary_rest(tokens, pos + left.used, level, expr).after(left.used),
        Err(_) => left,
    }
}

/// `assignment`: an `or` expression, or a variable, `=` and the assigned
/// expression. Anything else before `=` is an error, found once the assigned
/// expression has been read.
#[verifier::opaque]
pub open spec fn assignment(tokens: Seq<TokenView>, pos: int) -> Parsed<ExprView>
    decreases remaining(tokens, pos), 30nat,
{
    let left = binary(tokens, pos, Level::Or);
    match left.result {
        Ok(target) => if check(tokens, pos + left.used, TokenKind::Equal) {
            let value = assignment(tokens, pos + left.used + 1);
            match value.result {
                Ok(expr) => match target {
                    ExprView::Variable(name, id) => found(
                        ExprView::Assign(name, id, Box::new(expr)),
                        left.used + 1 + value.used,
                    ),
                    _ => failed(
                        tokens,
                        pos + left.used,
                        "Invalid assignment target."@,
                        left.used + 1 + value.used,
                    ),
                },
                Err(_) => value.after(left.used + 1),
            }
        } else {
            left
        },
        Err(_) => left,
    }
}

/// `expression`.
#[verifier::opaque]
pub open spec fn expression(tokens: Seq<TokenView>, pos: int) -> Parsed<ExprView>
    decreases remaining(tokens, pos), 31nat,
{
    assignment(tokens, pos)
}

/// An expression that may be missing, and the token of `kind` that must
/// follow.
pub open spec fn optional_expression(
    tokens: Seq<TokenView>,
    pos: int,
    kind: TokenKind,
    message: Seq<char>,
) -> Parsed<Option<ExprView>> {
    if check(tokens, pos, kind) {
        found(None, 1)
    } else {
        let inner = closed_expression(tokens, pos, kind, message);
        match inner.result {
            Ok(expr) => found(Some(expr), inner.used),
            Err(_) => passed(inner),
        }
    }
}

/// An expression statement: an expression and `;`.
pub open spec fn expression_statement(tokens: Seq<TokenView>, pos: int) -> Parsed<StmtView> {
    let inner = closed_expression(
        tokens,
        pos,
        TokenKind::Semicolon,
        "Expect ';' after expression."@,
    );
    match inner.result {
        Ok(expr) => found(StmtView::Expression(expr), inner.used),
        Err(_) => passed(inner),
    }
}

/// A print statement, from behind `print` on.
pub open spec fn print_statement(tokens: Seq<TokenView>, pos: int) -> Parsed<StmtView> {
    let inner = closed_expression(tokens, pos, TokenKind::Semicolon, "Expect ';' after value."@);
    match inner.result {
        Ok(expr) => found(StmtView::Print(expr), inner.used),
        Err(_) => passed(inner),
    }
}

/// A return statement, from behind `return` on. The keyword is kept in the
/// tree.
pub open spec fn return_statement(tokens: Seq<TokenView>, pos: int) -> Parsed<StmtView> {
    let value = optional_expression(
        tokens,
        pos,
        TokenKind::Semicolon,
        "Expect ';' after return value."@,
    );
    match value.result {
        Ok(expr) => found(StmtView::Return(tokens[pos - 1], expr), value.used),
        Err(_) => passed(value),
    }
}

/// A variable declaration, from behind `var` on: the name, an initializer
/// after `=` if there is one, and `;`.
pub open spec fn var_declaration(tokens: Seq<TokenView>, pos: int) -> Parsed<StmtView> {
    if !check(tokens, pos, TokenKind::Identifier) {
        failed(tokens, pos, "Expect variable name."@, 0)
    } else if check(tokens, pos + 1, TokenKind::Equal) {
        let initializer = closed_expression(
            tokens,
            pos + 2,
            TokenKind::Semicolon,
            "Expect ';' after variable declaration."@,
        );
        match initializer.result {
            Ok(expr) => found(StmtView::Var(tokens[pos], Some(expr)), initializer.used + 2),
            Err(_) => passed(initializer.after(2)),
        }
    } else if check(tokens, pos + 1, TokenKind::Semicolon) {
        found(StmtView::Var(tokens[pos], None), 2)
    } else {
        failed(tokens, pos + 1, "Expect ';' after variable declaration."@, 1)
    }
}

/// What a function of the grammar found that may hold declarations: a tree
/// or an error, the number of tokens it took, and the errors of the
/// declarations inside it that were given up.
pub struct Stated<T> {
    pub result: Result<T, Seq<char>>,
    pub used: nat,
    pub reported: Seq<Seq<char>>,
}

impl<T> Stated<T> {
    /// The same finding after `count` tokens that were taken, and the
    /// errors `reported`, before it.
    pub open spec fn after(self, count: nat, reported: Seq<Seq<char>>) -> Stated<T> {
        Stated { result: self.result, used: self.used + count, reported: reported + self.reported }
    }
}

/// Two steps before a finding are the same as one.
pub proof fn after_twice<T>(
    stated: Stated<T>,
    first: nat,
    reported: Seq<Seq<char>>,
    second: nat,
    earlier: Seq<Seq<char>>,
)
    ensures
        stated.after(first, reported).after(second, earlier) == stated.after(
            first + second,
            earlier + reported,
        ),
        stated.after(0, Seq::empty()) == stated,
{
    assert(earlier + (reported + stated.reported) =~= (earlier + reported) + stated.reported);
    assert(Seq::<Seq<char>>::empty() + stated.reported =~= stated.reported);
}

/// A finding in which no declaration was given up.
pub open spec fn plain<T>(parsed: Parsed<T>) -> Stated<T> {
    Stated { result: parsed.result, used: parsed.used, reported: Seq::empty() }
}

/// An error at the token at `pos`, after `used` tokens were taken.
pub open spec fn refused<T>(tokens: Seq<TokenView>, pos: int, message: Seq<char>, used: nat)
    -> Stated<T> {
    plain(failed(tokens, pos, message, used))
}

/// The error of `stated`, for a finding that is one, as the finding of
/// another kind of tree.
pub open spec fn relayed<T, U>(stated: Stated<T>) -> Stated<U> {
    Stated { result: Err(stated.result->Err_0), used: stated.used, reported: stated.reported }
}

/// What a declaration gave: the statement, unless it was given up; the
/// number of tokens taken, with those that were skipped after an error; and
/// the errors, the declaration's own last.
pub struct Declared {
    pub statement: Option<StmtView>,
    pub used: nat,
    pub reported: Seq<Seq<char>>,
}

/// Whether a token of `kind` begins a statement.
pub open spec fn starts_statement(kind: TokenKind) -> bool {
    kind == TokenKind::Class || kind == TokenKind::Fun || kind == TokenKind::Var || kind
        == TokenKind::For || kind == TokenKind::If || kind == TokenKind::While || kind
        == TokenKind::Print || kind == TokenKind::Return
}

/// The number of tokens from `pos` on that are skipped after an error, the
/// token before `pos` being skipped already: up to the end, to behind a `;`,
/// or to before a token that begins a statement.
pub open spec fn skipped(tokens: Seq<TokenView>, pos: int) -> nat
    decreases remaining(tokens, pos),
{
    if at_end(tokens, pos) || kind_at(tokens, pos - 1) == TokenKind::Semicolon || starts_statement(
        kind_at(tokens, pos),
    ) {
        0
    } else {
        1 + skipped(tokens, pos + 1)
    }
}

/// The number of tokens that are skipped after an error at `pos`: the token
/// at `pos`, and those after it up to the next place where a statement may
/// begin.
pub open spec fn synchronize(tokens: Seq<TokenView>, pos: int) -> nat {
    if at_end(tokens, pos) {
        0
    } else {
        1 + skipped(tokens, pos + 1)
    }
}

/// The parameters of a function from `pos` on, up to the closing
/// parenthesis, added to those `collected` before. There may be at most
/// [`MAX_ARGUMENTS`].
pub open spec fn parameters(tokens: Seq<TokenView>, pos: int, collected: Seq<TokenView>) -> Parsed<
    Seq<TokenView>,
>
    decreases remaining(tokens, pos),
{
    if collected.len() >= MAX_ARGUMENTS {
        failed(tokens, pos, "Can't have more than 255 parameters."@, 0)
    } else if !check(tokens, pos, TokenKind::Identifier) {
        failed(tokens, pos, "Expect parameter name."@, 0)
    } else if check(tokens, pos + 1, TokenKind::Comma) {
        parameters(tokens, pos + 2, collected.push(tokens[pos])).after(2)
    } else {
        found(collected.push(tokens[pos]), 1)
    }
}

/// The first clause of a `for`: `;` alone, a variable declaration, or an
/// expression statement.
pub open spec fn for_initializer(tokens: Seq<TokenView>, pos: int) -> Parsed<Option<StmtView>> {
    if check(tokens, pos, TokenKind::Semicolon) {
        found(None, 1)
    } else {
        let one = if check(tokens, pos, TokenKind::Var) {
            var_declaration(tokens, pos + 1).after(1)
        } else {
            expression_statement(tokens, pos)
        };
        match one.result {
            Ok(stmt) => found(Some(stmt), one.used),
            Err(_) => passed(one),
        }
    }
}

/// What a `for` stands for: a `while` over the condition (`true` where
/// there is none), with the increment run after the body, and the
/// initializer run once before the loop, in a block of its own.
pub open spec fn for_loop(
    initializer: Option<StmtView>,
    condition: Option<ExprView>,
    increment: Option<ExprView>,
    body: StmtView,
) -> StmtView {
    let repeated = match increment {
        Some(expr) => StmtView::Block(seq![body, StmtView::Expression(expr)]),
        None => body,
    };
    let test = match condition {
        Some(expr) => expr,
        None => ExprView::Literal(LiteralView::Boolean(true)),
    };
    let looping = StmtView::While(test, Box::new(repeated));
    match initializer {
        Some(stmt) => StmtView::Block(seq![stmt, looping]),
        None => looping,
    }
}

/// A `for` statement, from behind `for` on.
#[verifier::opaque]
pub open spec fn for_statement(tokens: Seq<TokenView>, pos: int) -> Stated<StmtView>
    decreases remaining(tokens, pos), 49nat,
{
    if !check(tokens, pos, TokenKind::LeftParen) {
        refused(tokens, pos, "Expect '(' after 'for'."@, 0)
    } else {
        let initializer = for_initializer(tokens, pos + 1);
        let condition = optional_expression(
            tokens,
            pos + 1 + initializer.used,
            TokenKind::Semicolon,
            "Expect ';' after loop condition."@,
        );
        let increment = optional_expression(
            tokens,
            pos + 1 + initializer.used + condition.used,
            TokenKind::RightParen,
            "Expect ')' after for clauses."@,
        );
        if initializer.result is Err {
            plain(passed(initializer.after(1)))
        } else if condition.result is Err {
            plain(passed(condition.after(1 + initializer.used)))
        } else if increment.result is Err {
            plain(passed(increment.after(1 + initializer.used + condition.used)))
        } else {
            let before = 1 + initializer.used + condition.used + increment.used;
            let body = statement(tokens, pos + before);
            match body.result {
                Ok(stmt) => Stated {
                    result: Ok(
                        for_loop(
                            initializer.result->Ok_0,
                            condition.result->Ok_0,
                            increment.result->Ok_0,
                            stmt,
                        ),
                    ),
                    used: body.used + before,
                    reported: body.reported,
                },
                Err(_) => body.after(before, Seq::empty()),
            }
        }
    }
}

/// The condition of an `if` or a `while`, in parentheses, from behind the
/// keyword on.
pub open spec fn condition(
    tokens: Seq<TokenView>,
    pos: int,
    opening: Seq<char>,
    closing: Seq<char>,
) -> Parsed<ExprView> {
    if !check(tokens, pos, TokenKind::LeftParen) {
        failed(tokens, pos, opening, 0)
    } else {
        closed_expression(tokens, pos + 1, TokenKind::RightParen, closing).after(1)
    }
}

/// An `if` statement, from behind `if` on. An `else` belongs to the nearest
/// `if` before it.
#[verifier::opaque]
pub open spec fn if_statement(tokens: Seq<TokenView>, pos: int) -> Stated<StmtView>
    decreases remaining(tokens, pos), 49nat,
{
    let test = condition(tokens, pos, "Expect '(' after 'if'."@, "Expect ')' after if condition."@);
    match test.result {
        Ok(expr) => if test.used == 0 {
            plain(passed(test))
        } else {
            let then_branch = statement(tokens, pos + test.used);
            match then_branch.result {
                Ok(first) => if check(tokens, pos + test.used + then_branch.used, TokenKind::Else) {
                    let else_branch = statement(tokens, pos + test.used + then_branch.used + 1);
                    match else_branch.result {
                        Ok(second) => Stated {
                            result: Ok(StmtView::If(expr, Box::new(first), Some(Box::new(second)))),
                            used: test.used + then_branch.used + 1 + else_branch.used,
                            reported: then_branch.reported + else_branch.reported,
                        },
                        Err(_) => else_branch.after(
                            test.used + then_branch.used + 1,
                            then_branch.reported,
                        ),
                    }
                } else {
                    Stated {
                        result: Ok(StmtView::If(expr, Box::new(first), None)),
                        used: test.used + then_branch.used,
                        reported: then_branch.reported,
                    }
                },
                Err(_) => then_branch.after(test.used, Seq::empty()),
            }
        },
        Err(_) => plain(passed(test)),
    }
}

/// A `while` statement, from behind `while` on.
#[verifier::opaque]
pub open spec fn while_statement(tokens: Seq<TokenView>, pos: int) -> Stated<StmtView>
    decreases remaining(tokens, pos), 49nat,
{
    let test = condition(tokens, pos, "Expect '(' after 'while'."@, "Expect ')' after condition."@);
    match test.result {
        Ok(expr) => if test.used == 0 {
            plain(passed(test))
        } else {
            let body = statement(tokens, pos + test.used);
            match body.result {
                Ok(stmt) => Stated {
                    result: Ok(StmtView::While(expr, Box::new(stmt))),
                    used: test.used + body.used,
                    reported: body.reported,
                },
                Err(_) => body.after(test.used, Seq::empty()),
            }
        },
        Err(_) => plain(passed(test)),
    }
}

/// `statement`: chosen by the first token, an expression statement where
/// that is no keyword and no `{`.
#[verifier::opaque]
pub open spec fn statement(tokens: Seq<TokenView>, pos: int) -> Stated<StmtView>
    decreases remaining(tokens, pos), 50nat,
{
    if check(tokens, pos, TokenKind::For) {
        for_statement(tokens, pos + 1).after(1, Seq::empty())
    } else if check(tokens, pos, TokenKind::If) {
        if_statement(tokens, pos + 1).after(1, Seq::empty())
    } else if check(tokens, pos, TokenKind::Print) {
        plain(print_statement(tokens, pos + 1).after(1))
    } else if check(tokens, pos, TokenKind::Return) {
        plain(return_statement(tokens, pos + 1).after(1))
    } else if check(tokens, pos, TokenKind::While) {
        while_statement(tokens, pos + 1).after(1, Seq::empty())
    } else if check(tokens, pos, TokenKind::LeftBrace) {
        let inner = block(tokens, pos + 1);
        match inner.result {
            Ok(statements) => Stated {
                result: Ok(StmtView::Block(statements)),
                used: inner.used + 1,
                reported: inner.reported,
            },
            Err(_) => relayed(inner.after(1, Seq::empty())),
        }
    } else {
        plain(expression_statement(tokens, pos))
    }
}

/// The declarations of a block from `pos` on, added to those `collected`
/// before, and the closing brace. A declaration that was given up adds
/// nothing.
#[verifier::opaque]
pub open spec fn block_rest(tokens: Seq<TokenView>, pos: int, collected: Seq<StmtView>) -> Stated<
    Seq<StmtView>,
>
    decreases remaining(tokens, pos), 61nat,
{
    if check(tokens, pos, TokenKind::RightBrace) {
        Stated { result: Ok(collected), used: 1, reported: Seq::empty() }
    } else if at_end(tokens, pos) {
        refused(tokens, pos, "Expect '}' after block."@, 0)
    } else {
        let one = declaration(tokens, pos);
        let gathered = match one.statement {
            Some(stmt) => collected.push(stmt),
            None => collected,
        };
        if one.used == 0 {
            // A declaration takes at least one token: see `declaration_takes`.
            Stated { result: Ok(gathered), used: 0, reported: one.reported }
        } else {
            block_rest(tokens, pos + one.used, gathered).after(one.used, one.reported)
        }
    }
}

/// A block, from behind `{` on.
#[verifier::opaque]
pub open spec fn block(tokens: Seq<TokenView>, pos: int) -> Stated<Seq<StmtView>>
    decreases remaining(tokens, pos), 62nat,
{
    block_rest(tokens, pos, Seq::empty())
}

/// A function declaration, from behind `fun` on: the name, the parameters
/// in parentheses, and the body, a block.
#[verifier::opaque]
pub open spec fn function(tokens: Seq<TokenView>, pos: int) -> Stated<StmtView>
    decreases remaining(tokens, pos), 49nat,
{
    if !check(tokens, pos, TokenKind::Identifier) {
        refused(tokens, pos, "Expect function name."@, 0)
    } else if !check(tokens, pos + 1, TokenKind::LeftParen) {
        refused(tokens, pos + 1, "Expect '(' after function name."@, 1)
    } else {
        let list = if check(tokens, pos + 2, TokenKind::RightParen) {
            found(Seq::empty(), 0)
        } else {
            parameters(tokens, pos + 2, Seq::empty())
        };
        let close = pos + 2 + list.used;
        if list.result is Err {
            plain(passed(list.after(2)))
        } else if !check(tokens, close, TokenKind::RightParen) {
            refused(tokens, close, "Expect ')' after parameters."@, list.used + 2)
        } else if !check(tokens, close + 1, TokenKind::LeftBrace) {
            refused(tokens, close + 1, "Expect '{' before function body."@, list.used + 3)
        } else {
            let body = block(tokens, close + 2);
            match body.result {
                Ok(statements) => Stated {
                    result: Ok(StmtView::Function(tokens[pos], list.result->Ok_0, statements)),
                    used: body.used + list.used + 4,
                    reported: body.reported,
                },
                Err(_) => relayed(body.after(list.used + 4, Seq::empty())),
            }
        }
    }
}

/// `declaration`: a function, a variable or a statement. Where that is an
/// error the declaration is given up: the error is reported, and tokens are
/// skipped up to the next place where a statement may begin.
#[verifier::opaque]
pub open spec fn declaration(tokens: Seq<TokenView>, pos: int) -> Declared
    decreases remaining(tokens, pos), 60nat,
{
    let one = if check(tokens, pos, TokenKind::Fun) {
        function(tokens, pos + 1).after(1, Seq::empty())
    } else if check(tokens, pos, TokenKind::Var) {
        plain(var_declaration(tokens, pos + 1).after(1))
    } else {
        statement(tokens, pos)
    };
    match one.result {
        Ok(stmt) => Declared { statement: Some(stmt), used: one.used, reported: one.reported },
        Err(message) => Declared {
            statement: None,
            used: one.used + synchronize(tokens, pos + one.used),
            reported: one.reported.push(message),
        },
    }
}

/// What parsing gives: the statements of the declarations that were not
/// given up, and the errors of those that were, each in the order of the
/// input.
pub struct Program {
    pub statements: Seq<StmtView>,
    pub reported: Seq<Seq<char>>,
    pub used: nat,
}

/// The declarations from `pos` up to the end of the tokens.
pub open spec fn program(tokens: Seq<TokenView>, pos: int) -> Program
    decreases remaining(tokens, pos),
{
    if at_end(tokens, pos) {
        Program { statements: Seq::empty(), reported: Seq::empty(), used: 0 }
    } else {
        let one = declaration(tokens, pos);
        let first = match one.statement {
            Some(stmt) => seq![stmt],
            None => Seq::empty(),
        };
        if one.used == 0 {
            // A declaration takes at least one token: see `declaration_takes`.
            Program { statements: first, reported: one.reported, used: 0 }
        } else {
            let rest = program(tokens, pos + one.used);
            Program {
                statements: first + rest.statements,
                reported: one.reported + rest.reported,
                used: one.used + rest.used,
            }
        }
    }
}

/// A declaration that does not start at the end of the tokens takes at
/// least one token, so that declarations read one after the other reach the
/// end.
pub proof fn declaration_takes(tokens: Seq<TokenView>, pos: int)
    requires
        !at_end(tokens, pos),
    ensures
        declaration(tokens, pos).used > 0,
{
    reveal(declaration);
    reveal(statement);
    reveal(closed_expression);
}

/// Declarations are read one after the other. The statements of a program
/// are that of its first declaration and those of the rest, which is read
/// from behind the tokens that the declaration took or skipped. A
/// declaration that was given up adds its error and no statement, and what
/// follows it is read as if the program began there.
pub proof fn program_goes_on(tokens: Seq<TokenView>, pos: int)
    requires
        !at_end(tokens, pos),
    ensures
        program(tokens, pos).statements == (match declaration(tokens, pos).statement {
            Some(stmt) => seq![stmt],
            None => Seq::empty(),
        }) + program(tokens, pos + declaration(tokens, pos).used).statements,
        program(tokens, pos).reported == declaration(tokens, pos).reported + program(
            tokens,
            pos + declaration(tokens, pos).used,
        ).reported,
        declaration(tokens, pos).statement is None ==> program(tokens, pos).statements == program(
            tokens,
            pos + declaration(tokens, pos).used,
        ).statements,
{
    declaration_takes(tokens, pos);
    let rest = program(tokens, pos + declaration(tokens, pos).used).statements;
    assert(Seq::<StmtView>::empty() + rest =~= rest);
}

} // verus!
