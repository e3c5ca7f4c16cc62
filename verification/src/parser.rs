//! The parser: from tokens to statements.

use vstd::prelude::*;
use crate::expression::{expr_views, call_arguments_view, Expr, ExprView};
use crate::grammar;
use crate::grammar::{
    after_twice, at_end, check, error_text, is_operator, is_token_stream, remaining, Level,
    Parsed, MAX_ARGUMENTS,
};
use crate::literal::Literal;
use crate::statement::{block_view, function_view, optional_expr_view, stmt_views, Stmt, StmtView};
use crate::text::push_decimal;
use crate::token::{token_views, Token, TokenView};
use crate::token_kind::TokenKind;

verus! {

/// A syntax error: the text to show for it, which names the line and the
/// token at which it was found.
#[derive(Debug)]
pub struct ParseError {
    pub message: String,
}

impl View for ParseError {
    type V = Seq<char>;

    open spec fn view(&self) -> Seq<char> {
        self.message@
    }
}

/// The texts of a sequence of errors, in order.
pub open spec fn error_views(errors: Seq<ParseError>) -> Seq<Seq<char>> {
    Seq::new(errors.len(), |i: int| errors[i]@)
}

/// The state of a parser.
pub struct ParserView {
    pub tokens: Seq<TokenView>,
    /// The position of the next token to read.
    pub current: int,
    /// The errors reported so far.
    pub errors: Seq<Seq<char>>,
}

/// Taking tokens and reporting errors in two steps is the same as in one.
pub proof fn advanced_twice(
    state: ParserView,
    first: nat,
    reported: Seq<Seq<char>>,
    second: nat,
    more: Seq<Seq<char>>,
)
    ensures
        state.advanced(first, reported).advanced(second, more) == state.advanced(
            first + second,
            reported + more,
        ),
        state.moved(first) == state.advanced(first, Seq::empty()),
        state.moved(first).advanced(second, more) == state.advanced(first + second, more),
        state.advanced(first, reported).moved(second) == state.advanced(first + second, reported),
{
    assert((state.errors + reported) + more =~= state.errors + (reported + more));
    assert(state.errors + Seq::<Seq<char>>::empty() =~= state.errors);
    assert(Seq::<Seq<char>>::empty() + more =~= more);
    assert(reported + Seq::<Seq<char>>::empty() =~= reported);
}

impl ParserView {
    /// What holds of every parser: the tokens end with `Eof`, and the
    /// position is that of a token.
    pub open spec fn is_parsing(self) -> bool {
        is_token_stream(self.tokens) && 0 <= self.current < self.tokens.len()
    }

    /// The state after `used` more tokens were taken.
    pub open spec fn moved(self, used: nat) -> ParserView {
        ParserView { current: self.current + used, ..self }
    }

    /// The state after `used` more tokens were taken and the errors
    /// `reported`.
    pub open spec fn advanced(self, used: nat, reported: Seq<Seq<char>>) -> ParserView {
        ParserView { current: self.current + used, errors: self.errors + reported, ..self }
    }
}

/// The tokens as a parser reads them: with an `Eof` at the end, added on
/// the line of the last token where the tokens do not end with one.
pub open spec fn terminated(tokens: Seq<TokenView>) -> Seq<TokenView> {
    if is_token_stream(tokens) {
        tokens
    } else {
        tokens.push(
            TokenView {
                kind: TokenKind::Eof,
                lexeme: Seq::empty(),
                line: if tokens.len() > 0 {
                    tokens.last().line
                } else {
                    1
                },
                literal: None,
            },
        )
    }
}

/// Whether `result` is what the grammar found.
pub open spec fn is_expr(result: Result<Expr, ParseError>, parsed: Parsed<ExprView>) -> bool {
    match result {
        Ok(expr) => parsed.result == Ok::<ExprView, Seq<char>>(expr@),
        Err(error) => parsed.result == Err::<ExprView, Seq<char>>(error@),
    }
}

/// Whether `result` is what the grammar found.
pub open spec fn is_stmt(result: Result<Stmt, ParseError>, found: Result<StmtView, Seq<char>>)
    -> bool {
    match result {
        Ok(stmt) => found == Ok::<StmtView, Seq<char>>(stmt@),
        Err(error) => found == Err::<StmtView, Seq<char>>(error@),
    }
}

/// The value of a statement that may be absent.
pub open spec fn optional_stmt_view(stmt: Option<Stmt>) -> Option<StmtView> {
    match stmt {
        Some(s) => Some(s@),
        None => None,
    }
}

/// The parser.
pub struct Parser {
    tokens: Vec<Token>,
    current: usize,
    errors: Vec<ParseError>,
}

impl View for Parser {
    type V = ParserView;

    closed spec fn view(&self) -> ParserView {
        ParserView {
            tokens: token_views(self.tokens@),
            current: self.current as int,
            errors: error_views(self.errors@),
        }
    }
}

/// The statement that a `for` stands for.
fn for_loop(
    initializer: Option<Stmt>,
    condition: Option<Expr>,
    increment: Option<Expr>,
    body: Stmt,
) -> (stmt: Stmt)
    ensures
        stmt@ == grammar::for_loop(
            optional_stmt_view(initializer),
            optional_expr_view(condition),
            optional_expr_view(increment),
            body@,
        ),
{
    let repeated = match increment {
        Some(expr) => {
            let both = with_stmt(with_stmt(Vec::new(), body), Stmt::Expression(expr));
            proof {
                block_view(both);
                assert(stmt_views(both@) =~= seq![body@, StmtView::Expression(expr@)]);
            }
            Stmt::Block(both)
        },
        None => body,
    };
    let test = match condition {
        Some(expr) => expr,
        None => Expr::Literal(Literal::Boolean(true)),
    };
    let looping = Stmt::While(test, Box::new(repeated));
    match initializer {
        Some(stmt) => {
            let both = with_stmt(with_stmt(Vec::new(), stmt), looping);
            proof {
                block_view(both);
                assert(stmt_views(both@) =~= seq![stmt@, looping@]);
            }
            Stmt::Block(both)
        },
        None => looping,
    }
}

fn starts_statement_kind(kind: TokenKind) -> (r: bool)
    ensures
        r == grammar::starts_statement(kind),
{
    kind == TokenKind::Class || kind == TokenKind::Fun || kind == TokenKind::Var || kind
        == TokenKind::For || kind == TokenKind::If || kind == TokenKind::While || kind
        == TokenKind::Print || kind == TokenKind::Return
}

fn is_operator_kind(level: Level, kind: TokenKind) -> (r: bool)
    ensures
        r == is_operator(level, kind),
{
    match level {
        Level::Or => kind == TokenKind::Or,
        Level::And => kind == TokenKind::And,
        Level::Equality => kind == TokenKind::EqualEqual || kind == TokenKind::BangEqual,
        Level::Comparison => kind == TokenKind::Greater || kind == TokenKind::GreaterEqual || kind
            == TokenKind::Less || kind == TokenKind::LessEqual,
        Level::Term => kind == TokenKind::Minus || kind == TokenKind::Plus,
        Level::Factor => kind == TokenKind::Slash || kind == TokenKind::Star,
    }
}

fn operation(level: Level, left: Expr, operator: Token, right: Expr) -> (expr: Expr)
    ensures
        expr@ == grammar::operation(level, left@, operator@, right@),
{
    match level {
        Level::Or => Expr::Logical(Box::new(left), operator, Box::new(right)),
        Level::And => Expr::Logical(Box::new(left), operator, Box::new(right)),
        _ => Expr::Binary(Box::new(left), operator, Box::new(right)),
    }
}

/// `list` with `expr` added at the end.
fn with_expr(list: Vec<Expr>, expr: Expr) -> (longer: Vec<Expr>)
    ensures
        expr_views(longer@) == expr_views(list@).push(expr@),
        longer.len() == list.len() + 1,
{
    let mut longer = list;
    longer.push(expr);
    assert(expr_views(longer@) =~= expr_views(list@).push(expr@));
    longer
}

/// `list` with `stmt` added at the end.
fn with_stmt(list: Vec<Stmt>, stmt: Stmt) -> (longer: Vec<Stmt>)
    ensures
        stmt_views(longer@) == stmt_views(list@).push(stmt@),
        longer.len() == list.len() + 1,
{
    let mut longer = list;
    longer.push(stmt);
    assert(stmt_views(longer@) =~= stmt_views(list@).push(stmt@));
    longer
}

/// `list` with `token` added at the end.
fn with_token(list: Vec<Token>, token: Token) -> (longer: Vec<Token>)
    ensures
        token_views(longer@) == token_views(list@).push(token@),
        longer.len() == list.len() + 1,
{
    let mut longer = list;
    longer.push(token);
    assert(token_views(longer@) =~= token_views(list@).push(token@));
    longer
}

impl Parser {
    /// A parser at the start of `tokens`. Tokens that do not end with `Eof`
    /// are given one.
    pub fn new(tokens: Vec<Token>) -> (parser: Self)
        ensures
            parser@ == (ParserView {
                tokens: terminated(token_views(tokens@)),
                current: 0,
                errors: Seq::empty(),
            }),
            parser@.is_parsing(),
    {
        let mut tokens = tokens;
        let ghost given = token_views(tokens@);
        let n = tokens.len();
        let ended = n > 0 && tokens[n - 1].kind == TokenKind::Eof;
        if !ended {
            let line: usize = if n > 0 {
                tokens[n - 1].line
            } else {
                1
            };
            let end = Token { kind: TokenKind::Eof, lexeme: String::new(), line, literal: None };
            tokens.push(end);
            assert(token_views(tokens@) =~= given.push(end@));
        }
        let parser = Parser { tokens, current: 0, errors: Vec::new() };
        assert(parser@.errors =~= Seq::empty());
        parser
    }

    /// The errors reported so far, in the order in which they were found.
    pub fn errors(&self) -> (errors: &Vec<ParseError>)
        ensures
            error_views(errors@) == self@.errors,
    {
        &self.errors
    }

    fn peek(&self) -> (token: &Token)
        requires
            self@.is_parsing(),
        ensures
            token@ == self@.tokens[self@.current],
    {
        &self.tokens[self.current]
    }

    fn previous(&self) -> (token: &Token)
        requires
            self@.is_parsing(),
            self@.current > 0,
        ensures
            token@ == self@.tokens[self@.current - 1],
    {
        &self.tokens[self.current - 1]
    }

    fn is_at_end(&self) -> (r: bool)
        requires
            self@.is_parsing(),
        ensures
            r == at_end(self@.tokens, self@.current),
    {
        self.tokens[self.current].kind == TokenKind::Eof
    }

    fn check(&self, kind: TokenKind) -> (r: bool)
        requires
            self@.is_parsing(),
        ensures
            r == check(self@.tokens, self@.current, kind),
    {
        let here = self.tokens[self.current].kind;
        here != TokenKind::Eof && here == kind
    }

    /// Takes the current token, which is not `Eof`.
    fn take(&mut self)
        requires
            old(self)@.is_parsing(),
            !at_end(old(self)@.tokens, old(self)@.current),
        ensures
            final(self)@.is_parsing(),
            final(self)@ == old(self)@.moved(1),
    {
        assert(self@.tokens.len() == self.tokens.len());
        self.current += 1;
    }

    /// Takes the current token if it is of `kind`.
    fn match_token(&mut self, kind: TokenKind) -> (r: bool)
        requires
            old(self)@.is_parsing(),
        ensures
            final(self)@.is_parsing(),
            r == check(old(self)@.tokens, old(self)@.current, kind),
            final(self)@ == old(self)@.moved(
                if r {
                    1
                } else {
                    0
                },
            ),
    {
        if self.check(kind) {
            self.take();
            true
        } else {
            false
        }
    }

    /// The error with `message` at `token`.
    fn error(&self, token: &Token, message: &str) -> (error: ParseError)
        ensures
            error@ == error_text(token@, message@),
    {
        let mut text = String::from_str("[line ");
        push_decimal(&mut text, token.line);
        text.append("] Error at '");
        text.append(token.lexeme.as_str());
        text.append("': ");
        text.append(message);
        ParseError { message: text }
    }

    /// Takes the current token if it is of `kind`; else the error with
    /// `message` at the current token.
    fn consume(&mut self, kind: TokenKind, message: &str) -> (r: Result<Token, ParseError>)
        requires
            old(self)@.is_parsing(),
        ensures
            final(self)@.is_parsing(),
            match r {
                Ok(token) => check(old(self)@.tokens, old(self)@.current, kind) && token@ == old(
                    self,
                )@.tokens[old(self)@.current] && final(self)@ == old(self)@.moved(1),
                Err(error) => !check(old(self)@.tokens, old(self)@.current, kind) && error@
                    == error_text(old(self)@.tokens[old(self)@.current], message@) && final(self)@
                    == old(self)@,
            },
    {
        if self.check(kind) {
            let token = self.peek().clone();
            self.take();
            Ok(token)
        } else {
            Err(self.error(self.peek(), message))
        }
    }

    /// An expression and the token of `kind` that must follow it.
    #[verifier::spinoff_prover]
    fn closed_expression(&mut self, kind: TokenKind, message: &str) -> (r: Result<Expr, ParseError>)
        requires
            old(self)@.is_parsing(),
        ensures
            final(self)@.is_parsing(),
            is_expr(
                r,
                grammar::closed_expression(old(self)@.tokens, old(self)@.current, kind, message@),
            ),
            final(self)@ == old(self)@.moved(
                grammar::closed_expression(
                    old(self)@.tokens,
                    old(self)@.current,
                    kind,
                    message@,
                ).used,
            ),
        decreases remaining(old(self)@.tokens, old(self)@.current), 32nat,
    {
        proof {
            reveal(grammar::closed_expression);
            reveal(grammar::expression);
        }
        let inner = match self.expression() {
            Ok(expr) => expr,
            Err(error) => {
                return Err(error);
            },
        };
        match self.consume(kind, message) {
            Ok(_) => Ok(inner),
            Err(error) => Err(error),
        }
    }

    #[verifier::spinoff_prover]
    fn primary(&mut self) -> (r: Result<Expr, ParseError>)
        requires
            old(self)@.is_parsing(),
        ensures
            final(self)@.is_parsing(),
            is_expr(r, grammar::primary(old(self)@.tokens, old(self)@.current)),
            final(self)@ == old(self)@.moved(
                grammar::primary(old(self)@.tokens, old(self)@.current).used,
            ),
        decreases remaining(old(self)@.tokens, old(self)@.current), 0nat,
    {
        proof {
            reveal(grammar::primary);
            reveal(grammar::closed_expression);
        }
        if self.match_token(TokenKind::False) {
            return Ok(Expr::Literal(Literal::Boolean(false)));
        }
        if self.match_token(TokenKind::True) {
            return Ok(Expr::Literal(Literal::Boolean(true)));
        }
        if self.match_token(TokenKind::Nil) {
            return Ok(Expr::Literal(Literal::Nil));
        }
        if self.check(TokenKind::Number) || self.check(TokenKind::String) {
            let token = self.peek();
            let found = match &token.literal {
                Some(value) => Ok(Expr::Literal(value.clone())),
                None => Err(self.error(token, "Expect literal value.")),
            };
            self.take();
            return found;
        }
        if self.check(TokenKind::Identifier) {
            let name = self.peek().clone();
            let id = self.current;
            self.take();
            return Ok(Expr::Variable(name, id));
        }
        if self.match_token(TokenKind::LeftParen) {
            return match self.closed_expression(
                TokenKind::RightParen,
                "Expect ')' after expression.",
            ) {
                Ok(inner) => Ok(Expr::Grouping(Box::new(inner))),
                Err(error) => Err(error),
            };
        }
        Err(self.error(self.peek(), "Expect expression."))
    }

    /// The arguments of a call, up to the closing parenthesis, added to
    /// those `collected` before.
    #[verifier::spinoff_prover]
    fn arguments(&mut self, collected: Vec<Expr>) -> (r: Result<Vec<Expr>, ParseError>)
        requires
            old(self)@.is_parsing(),
        ensures
            final(self)@.is_parsing(),
            match r {
                Ok(list) => grammar::arguments(
                    old(self)@.tokens,
                    old(self)@.current,
                    expr_views(collected@),
                ).result == Ok::<Seq<ExprView>, Seq<char>>(expr_views(list@)),
                Err(error) => grammar::arguments(
                    old(self)@.tokens,
                    old(self)@.current,
                    expr_views(collected@),
                ).result == Err::<Seq<ExprView>, Seq<char>>(error@),
            },
            final(self)@ == old(self)@.moved(
                grammar::arguments(
                    old(self)@.tokens,
                    old(self)@.current,
                    expr_views(collected@),
                ).used,
            ),
        decreases remaining(old(self)@.tokens, old(self)@.current), 40nat,
    {
        proof {
            reveal(grammar::arguments);
            reveal(grammar::expression);
        }
        if collected.len() >= MAX_ARGUMENTS {
            return Err(self.error(self.peek(), "Can't have more than 255 arguments."));
        }
        let longer = match self.expression() {
            Ok(expr) => with_expr(collected, expr),
            Err(error) => {
                return Err(error);
            },
        };
        if self.match_token(TokenKind::Comma) {
            self.arguments(longer)
        } else {
            Ok(longer)
        }
    }

    #[verifier::spinoff_prover]
    fn finish_call(&mut self, callee: Expr) -> (r: Result<Expr, ParseError>)
        requires
            old(self)@.is_parsing(),
        ensures
            final(self)@.is_parsing(),
            is_expr(r, grammar::finish_call(old(self)@.tokens, old(self)@.current, callee@)),
            final(self)@ == old(self)@.moved(
                grammar::finish_call(old(self)@.tokens, old(self)@.current, callee@).used,
            ),
        decreases remaining(old(self)@.tokens, old(self)@.current), 41nat,
    {
        proof {
            reveal(grammar::finish_call);
            reveal(grammar::arguments);
        }
        let arguments: Vec<Expr> = if self.check(TokenKind::RightParen) {
            let none: Vec<Expr> = Vec::new();
            assert(expr_views(none@) =~= Seq::empty());
            none
        } else {
            let none: Vec<Expr> = Vec::new();
            assert(expr_views(none@) =~= Seq::empty());
            match self.arguments(none) {
                Ok(list) => list,
                Err(error) => {
                    return Err(error);
                },
            }
        };
        match self.consume(TokenKind::RightParen, "Expect ')' after arguments.") {
            Ok(paren) => {
                proof {
                    call_arguments_view(Box::new(callee), paren, arguments);
                }
                Ok(Expr::Call(Box::new(callee), paren, arguments))
            },
            Err(error) => Err(error),
        }
    }

    #[verifier::spinoff_prover]
    fn call(&mut self) -> (r: Result<Expr, ParseError>)
        requires
            old(self)@.is_parsing(),
        ensures
            final(self)@.is_parsing(),
            is_expr(r, grammar::call(old(self)@.tokens, old(self)@.current)),
            final(self)@ == old(self)@.moved(
                grammar::call(old(self)@.tokens, old(self)@.current).used,
            ),
        decreases remaining(old(self)@.tokens, old(self)@.current), 2nat,
    {
        proof {
            reveal(grammar::call);
            reveal(grammar::call_rest);
            reveal(grammar::primary);
            reveal(grammar::finish_call);
        }
        let ghost tokens = self@.tokens;
        let ghost start = self@.current;
        let mut expr = match self.primary() {
            Ok(expr) => expr,
            Err(error) => {
                return Err(error);
            },
        };
        loop
            invariant
                self@.is_parsing(),
                self@ == old(self)@.moved((self@.current - start) as nat),
                tokens == old(self)@.tokens,
                start == old(self)@.current,
                start <= self@.current,
                grammar::call(tokens, start) == grammar::call_rest(
                    tokens,
                    self@.current,
                    expr@,
                ).after((self@.current - start) as nat),
            ensures
                grammar::call(tokens, start) == grammar::found(
                    expr@,
                    (self@.current - start) as nat,
                ),
            decreases remaining(tokens, self@.current),
        {
            proof {
                reveal(grammar::call_rest);
                reveal(grammar::finish_call);
            }
            if self.match_token(TokenKind::LeftParen) {
                expr = match self.finish_call(expr) {
                    Ok(expr) => expr,
                    Err(error) => {
                        return Err(error);
                    },
                };
            } else {
                break ;
            }
        }
        Ok(expr)
    }

    #[verifier::spinoff_prover]
    fn unary(&mut self) -> (r: Result<Expr, ParseError>)
        requires
            old(self)@.is_parsing(),
        ensures
            final(self)@.is_parsing(),
            is_expr(r, grammar::unary(old(self)@.tokens, old(self)@.current)),
            final(self)@ == old(self)@.moved(
                grammar::unary(old(self)@.tokens, old(self)@.current).used,
            ),
        decreases remaining(old(self)@.tokens, old(self)@.current), 3nat,
    {
        proof {
            reveal(grammar::unary);
            reveal(grammar::call);
        }
        if self.check(TokenKind::Bang) || self.check(TokenKind::Minus) {
            let operator = self.peek().clone();
            self.take();
            return match self.unary() {
                Ok(operand) => Ok(Expr::Unary(operator, Box::new(operand))),
                Err(error) => Err(error),
            };
        }
        self.call()
    }

    /// An operand of an operator of `level`.
    #[verifier::spinoff_prover]
    fn operand(&mut self, level: Level) -> (r: Result<Expr, ParseError>)
        requires
            old(self)@.is_parsing(),
        ensures
            final(self)@.is_parsing(),
            is_expr(r, grammar::operand(old(self)@.tokens, old(self)@.current, level)),
            final(self)@ == old(self)@.moved(
                grammar::operand(old(self)@.tokens, old(self)@.current, level).used,
            ),
        decreases remaining(old(self)@.tokens, old(self)@.current), grammar::height(level) - 1,
    {
        proof {
            reveal(grammar::operand);
            reveal(grammar::binary);
            reveal(grammar::unary);
        }
        match level {
            Level::Or => self.binary(Level::And),
            Level::And => self.binary(Level::Equality),
            Level::Equality => self.binary(Level::Comparison),
            Level::Comparison => self.binary(Level::Term),
            Level::Term => self.binary(Level::Factor),
            Level::Factor => self.unary(),
        }
    }

    /// An expression of `level`: operands joined by operators of the level,
    /// grouped to the left.
    #[verifier::spinoff_prover]
    fn binary(&mut self, level: Level) -> (r: Result<Expr, ParseError>)
        requires
            old(self)@.is_parsing(),
        ensures
            final(self)@.is_parsing(),
            is_expr(r, grammar::binary(old(self)@.tokens, old(self)@.current, level)),
            final(self)@ == old(self)@.moved(
                grammar::binary(old(self)@.tokens, old(self)@.current, level).used,
            ),
        decreases remaining(old(self)@.tokens, old(self)@.current), grammar::height(level) + 1,
    {
        proof {
            reveal(grammar::binary);
            reveal(grammar::binary_rest);
            reveal(grammar::operand);
        }
        let ghost tokens = self@.tokens;
        let ghost start = self@.current;
        let mut expr = match self.operand(level) {
            Ok(expr) => expr,
            Err(error) => {
                return Err(error);
            },
        };
        loop
            invariant
                self@.is_parsing(),
                self@ == old(self)@.moved((self@.current - start) as nat),
                tokens == old(self)@.tokens,
                start == old(self)@.current,
                start <= self@.current,
                grammar::binary(tokens, start, level) == grammar::binary_rest(
                    tokens,
                    self@.current,
                    level,
                    expr@,
                ).after((self@.current - start) as nat),
            ensures
                grammar::binary(tokens, start, level) == grammar::found(
                    expr@,
                    (self@.current - start) as nat,
                ),
            decreases remaining(tokens, self@.current),
        {
            proof {
                reveal(grammar::binary_rest);
                reveal(grammar::operand);
            }
            if self.is_at_end() || !is_operator_kind(level, self.peek().kind) {
                break ;
            }
            let operator = self.peek().clone();
            self.take();
            let right = match self.operand(level) {
                Ok(expr) => expr,
                Err(error) => {
                    return Err(error);
                },
            };
            expr = operation(level, expr, operator, right);
        }
        Ok(expr)
    }

    #[verifier::spinoff_prover]
    fn assignment(&mut self) -> (r: Result<Expr, ParseError>)
        requires
            old(self)@.is_parsing(),
        ensures
            final(self)@.is_parsing(),
            is_expr(r, grammar::assignment(old(self)@.tokens, old(self)@.current)),
            final(self)@ == old(self)@.moved(
                grammar::assignment(old(self)@.tokens, old(self)@.current).used,
            ),
        decreases remaining(old(self)@.tokens, old(self)@.current), 30nat,
    {
        proof {
            reveal(grammar::assignment);
            reveal(grammar::binary);
        }
        let target = match self.binary(Level::Or) {
            Ok(expr) => expr,
            Err(error) => {
                return Err(error);
            },
        };
        if self.check(TokenKind::Equal) {
            let equals = self.peek().clone();
            self.take();
            let value = match self.assignment() {
                Ok(expr) => expr,
                Err(error) => {
                    return Err(error);
                },
            };
            return match target {
                Expr::Variable(name, id) => Ok(Expr::Assign(name, id, Box::new(value))),
                _ => Err(self.error(&equals, "Invalid assignment target.")),
            };
        }
        Ok(target)
    }

    #[verifier::spinoff_prover]
    fn expression(&mut self) -> (r: Result<Expr, ParseError>)
        requires
            old(self)@.is_parsing(),
        ensures
            final(self)@.is_parsing(),
            is_expr(r, grammar::expression(old(self)@.tokens, old(self)@.current)),
            final(self)@ == old(self)@.moved(
                grammar::expression(old(self)@.tokens, old(self)@.current).used,
            ),
        decreases remaining(old(self)@.tokens, old(self)@.current), 31nat,
    {
        proof {
            reveal(grammar::expression);
            reveal(grammar::assignment);
        }
        self.assignment()
    }

    /// An expression that may be missing, and the token of `kind` that must
    /// follow.
    #[verifier::spinoff_prover]
    fn optional_expression(&mut self, kind: TokenKind, message: &str) -> (r: Result<
        Option<Expr>,
        ParseError,
    >)
        requires
            old(self)@.is_parsing(),
        ensures
            final(self)@.is_parsing(),
            match r {
                Ok(expr) => grammar::optional_expression(
                    old(self)@.tokens,
                    old(self)@.current,
                    kind,
                    message@,
                ).result == Ok::<Option<ExprView>, Seq<char>>(optional_expr_view(expr)),
                Err(error) => grammar::optional_expression(
                    old(self)@.tokens,
                    old(self)@.current,
                    kind,
                    message@,
                ).result == Err::<Option<ExprView>, Seq<char>>(error@),
            },
            final(self)@ == old(self)@.moved(
                grammar::optional_expression(
                    old(self)@.tokens,
                    old(self)@.current,
                    kind,
                    message@,
                ).used,
            ),
    {
        if self.match_token(kind) {
            return Ok(None);
        }
        match self.closed_expression(kind, message) {
            Ok(expr) => Ok(Some(expr)),
            Err(error) => Err(error),
        }
    }

    #[verifier::spinoff_prover]
    fn expression_statement(&mut self) -> (r: Result<Stmt, ParseError>)
        requires
            old(self)@.is_parsing(),
        ensures
            final(self)@.is_parsing(),
            is_stmt(r, grammar::expression_statement(old(self)@.tokens, old(self)@.current).result),
            final(self)@ == old(self)@.moved(
                grammar::expression_statement(old(self)@.tokens, old(self)@.current).used,
            ),
    {
        match self.closed_expression(TokenKind::Semicolon, "Expect ';' after expression.") {
            Ok(expr) => Ok(Stmt::Expression(expr)),
            Err(error) => Err(error),
        }
    }

    #[verifier::spinoff_prover]
    fn print_statement(&mut self) -> (r: Result<Stmt, ParseError>)
        requires
            old(self)@.is_parsing(),
        ensures
            final(self)@.is_parsing(),
            is_stmt(r, grammar::print_statement(old(self)@.tokens, old(self)@.current).result),
            final(self)@ == old(self)@.moved(
                grammar::print_statement(old(self)@.tokens, old(self)@.current).used,
            ),
    {
        match self.closed_expression(TokenKind::Semicolon, "Expect ';' after value.") {
            Ok(expr) => Ok(Stmt::Print(expr)),
            Err(error) => Err(error),
        }
    }

    #[verifier::spinoff_prover]
    fn return_statement(&mut self) -> (r: Result<Stmt, ParseError>)
        requires
            old(self)@.is_parsing(),
            old(self)@.current > 0,
        ensures
            final(self)@.is_parsing(),
            is_stmt(r, grammar::return_statement(old(self)@.tokens, old(self)@.current).result),
            final(self)@ == old(self)@.moved(
                grammar::return_statement(old(self)@.tokens, old(self)@.current).used,
            ),
    {
        let keyword = self.previous().clone();
        match self.optional_expression(TokenKind::Semicolon, "Expect ';' after return value.") {
            Ok(value) => Ok(Stmt::Return(keyword, value)),
            Err(error) => Err(error),
        }
    }

    #[verifier::spinoff_prover]
    fn var_declaration(&mut self) -> (r: Result<Stmt, ParseError>)
        requires
            old(self)@.is_parsing(),
        ensures
            final(self)@.is_parsing(),
            is_stmt(r, grammar::var_declaration(old(self)@.tokens, old(self)@.current).result),
            final(self)@ == old(self)@.moved(
                grammar::var_declaration(old(self)@.tokens, old(self)@.current).used,
            ),
    {
        let name = match self.consume(TokenKind::Identifier, "Expect variable name.") {
            Ok(token) => token,
            Err(error) => {
                return Err(error);
            },
        };
        if self.match_token(TokenKind::Equal) {
            return match self.closed_expression(
                TokenKind::Semicolon,
                "Expect ';' after variable declaration.",
            ) {
                Ok(expr) => Ok(Stmt::Var(name, Some(expr))),
                Err(error) => Err(error),
            };
        }
        match self.consume(TokenKind::Semicolon, "Expect ';' after variable declaration.") {
            Ok(_) => Ok(Stmt::Var(name, None)),
            Err(error) => Err(error),
        }
    }

    /// The condition of an `if` or a `while`, in parentheses.
    #[verifier::spinoff_prover]
    fn condition(&mut self, opening: &str, closing: &str) -> (r: Result<Expr, ParseError>)
        requires
            old(self)@.is_parsing(),
        ensures
            final(self)@.is_parsing(),
            is_expr(
                r,
                grammar::condition(old(self)@.tokens, old(self)@.current, opening@, closing@),
            ),
            final(self)@ == old(self)@.moved(
                grammar::condition(old(self)@.tokens, old(self)@.current, opening@, closing@).used,
            ),
            r is Ok ==> final(self)@.current > old(self)@.current,
    {
        match self.consume(TokenKind::LeftParen, opening) {
            Ok(_) => {},
            Err(error) => {
                return Err(error);
            },
        }
        self.closed_expression(TokenKind::RightParen, closing)
    }

    /// The first clause of a `for`.
    #[verifier::spinoff_prover]
    fn for_initializer(&mut self) -> (r: Result<Option<Stmt>, ParseError>)
        requires
            old(self)@.is_parsing(),
        ensures
            final(self)@.is_parsing(),
            match r {
                Ok(stmt) => grammar::for_initializer(old(self)@.tokens, old(self)@.current).result
                    == Ok::<Option<StmtView>, Seq<char>>(optional_stmt_view(stmt)),
                Err(error) => grammar::for_initializer(
                    old(self)@.tokens,
                    old(self)@.current,
                ).result == Err::<Option<StmtView>, Seq<char>>(error@),
            },
            final(self)@ == old(self)@.moved(
                grammar::for_initializer(old(self)@.tokens, old(self)@.current).used,
            ),
    {
        if self.match_token(TokenKind::Semicolon) {
            return Ok(None);
        }
        let one = if self.match_token(TokenKind::Var) {
            self.var_declaration()
        } else {
            self.expression_statement()
        };
        match one {
            Ok(stmt) => Ok(Some(stmt)),
            Err(error) => Err(error),
        }
    }

    /// The parameters of a function, up to the closing parenthesis, added
    /// to those `collected` before.
    #[verifier::spinoff_prover]
    fn parameters(&mut self, collected: Vec<Token>) -> (r: Result<Vec<Token>, ParseError>)
        requires
            old(self)@.is_parsing(),
        ensures
            final(self)@.is_parsing(),
            match r {
                Ok(list) => grammar::parameters(
                    old(self)@.tokens,
                    old(self)@.current,
                    token_views(collected@),
                ).result == Ok::<Seq<TokenView>, Seq<char>>(token_views(list@)),
                Err(error) => grammar::parameters(
                    old(self)@.tokens,
                    old(self)@.current,
                    token_views(collected@),
                ).result == Err::<Seq<TokenView>, Seq<char>>(error@),
            },
            final(self)@ == old(self)@.moved(
                grammar::parameters(
                    old(self)@.tokens,
                    old(self)@.current,
                    token_views(collected@),
                ).used,
            ),
        decreases remaining(old(self)@.tokens, old(self)@.current),
    {
        if collected.len() >= MAX_ARGUMENTS {
            return Err(self.error(self.peek(), "Can't have more than 255 parameters."));
        }
        let longer = match self.consume(TokenKind::Identifier, "Expect parameter name.") {
            Ok(name) => with_token(collected, name),
            Err(error) => {
                return Err(error);
            },
        };
        if self.match_token(TokenKind::Comma) {
            self.parameters(longer)
        } else {
            Ok(longer)
        }
    }

    /// Skips tokens after an error, up to the next place where a statement
    /// may begin.
    #[verifier::spinoff_prover]
    fn synchronize(&mut self)
        requires
            old(self)@.is_parsing(),
        ensures
            final(self)@.is_parsing(),
            final(self)@ == old(self)@.moved(
                grammar::synchronize(old(self)@.tokens, old(self)@.current),
            ),
    {
        let ghost tokens = self@.tokens;
        let ghost start = self@.current;
        if self.is_at_end() {
            return ;
        }
        self.take();
        while !self.is_at_end() && self.previous().kind != TokenKind::Semicolon
            && !starts_statement_kind(self.peek().kind)
            invariant
                self@.is_parsing(),
                self@.current > start,
                tokens == old(self)@.tokens,
                start == old(self)@.current,
                self@ == old(self)@.moved((self@.current - start) as nat),
                grammar::synchronize(tokens, start) == (self@.current - start) + grammar::skipped(
                    tokens,
                    self@.current,
                ),
            decreases remaining(tokens, self@.current),
        {
            self.take();
        }
    }

    /// Records an error.
    fn report(&mut self, error: ParseError)
        ensures
            final(self)@ == old(self)@.advanced(0, seq![error@]),
    {
        self.errors.push(error);
        assert(self@.errors =~= old(self)@.errors + seq![error@]);
    }

    #[verifier::spinoff_prover]
    fn if_statement(&mut self) -> (r: Result<Stmt, ParseError>)
        requires
            old(self)@.is_parsing(),
        ensures
            final(self)@.is_parsing(),
            is_stmt(r, grammar::if_statement(old(self)@.tokens, old(self)@.current).result),
            final(self)@ == old(self)@.advanced(
                grammar::if_statement(old(self)@.tokens, old(self)@.current).used,
                grammar::if_statement(old(self)@.tokens, old(self)@.current).reported,
            ),
        decreases remaining(old(self)@.tokens, old(self)@.current), 49nat,
    {
        proof {
            reveal(grammar::if_statement);
            reveal(grammar::statement);
        }
        let ghost start = self@;
        let ghost test = grammar::condition(
            start.tokens,
            start.current,
            "Expect '(' after 'if'."@,
            "Expect ')' after if condition."@,
        );
        let condition = match self.condition("Expect '(' after 'if'.", "Expect ')' after if condition.") {
            Ok(expr) => expr,
            Err(error) => {
                proof {
                    advanced_twice(start, test.used, Seq::empty(), 0, Seq::empty());
                }
                return Err(error);
            },
        };
        let ghost first = grammar::statement(start.tokens, start.current + test.used);
        let then_branch = match self.statement() {
            Ok(stmt) => stmt,
            Err(error) => {
                proof {
                    advanced_twice(start, test.used, Seq::empty(), first.used, first.reported);
                }
                return Err(error);
            },
        };
        proof {
            advanced_twice(start, test.used, Seq::empty(), first.used, first.reported);
        }
        if self.match_token(TokenKind::Else) {
            let ghost second = grammar::statement(
                start.tokens,
                start.current + test.used + first.used + 1,
            );
            proof {
                advanced_twice(start, test.used + first.used, first.reported, 1, Seq::empty());
                advanced_twice(
                    start,
                    test.used + first.used + 1,
                    first.reported,
                    second.used,
                    second.reported,
                );
            }
            return match self.statement() {
                Ok(stmt) => Ok(Stmt::If(condition, Box::new(then_branch), Some(Box::new(stmt)))),
                Err(error) => Err(error),
            };
        }
        Ok(Stmt::If(condition, Box::new(then_branch), None))
    }

    #[verifier::spinoff_prover]
    fn while_statement(&mut self) -> (r: Result<Stmt, ParseError>)
        requires
            old(self)@.is_parsing(),
        ensures
            final(self)@.is_parsing(),
            is_stmt(r, grammar::while_statement(old(self)@.tokens, old(self)@.current).result),
            final(self)@ == old(self)@.advanced(
                grammar::while_statement(old(self)@.tokens, old(self)@.current).used,
                grammar::while_statement(old(self)@.tokens, old(self)@.current).reported,
            ),
        decreases remaining(old(self)@.tokens, old(self)@.current), 49nat,
    {
        proof {
            reveal(grammar::while_statement);
            reveal(grammar::statement);
        }
        let ghost start = self@;
        let ghost test = grammar::condition(
            start.tokens,
            start.current,
            "Expect '(' after 'while'."@,
            "Expect ')' after condition."@,
        );
        let condition = match self.condition("Expect '(' after 'while'.", "Expect ')' after condition.") {
            Ok(expr) => expr,
            Err(error) => {
                proof {
                    advanced_twice(start, test.used, Seq::empty(), 0, Seq::empty());
                }
                return Err(error);
            },
        };
        let ghost body = grammar::statement(start.tokens, start.current + test.used);
        proof {
            advanced_twice(start, test.used, Seq::empty(), body.used, body.reported);
        }
        match self.statement() {
            Ok(stmt) => Ok(Stmt::While(condition, Box::new(stmt))),
            Err(error) => Err(error),
        }
    }

    #[verifier::spinoff_prover]
    fn for_statement(&mut self) -> (r: Result<Stmt, ParseError>)
        requires
            old(self)@.is_parsing(),
        ensures
            final(self)@.is_parsing(),
            is_stmt(r, grammar::for_statement(old(self)@.tokens, old(self)@.current).result),
            final(self)@ == old(self)@.advanced(
                grammar::for_statement(old(self)@.tokens, old(self)@.current).used,
                grammar::for_statement(old(self)@.tokens, old(self)@.current).reported,
            ),
        decreases remaining(old(self)@.tokens, old(self)@.current), 49nat,
    {
        proof {
            reveal(grammar::for_statement);
            reveal(grammar::statement);
        }
        let ghost start = self@;
        match self.consume(TokenKind::LeftParen, "Expect '(' after 'for'.") {
            Ok(_) => {},
            Err(error) => {
                proof {
                    advanced_twice(start, 0, Seq::empty(), 0, Seq::empty());
                }
                return Err(error);
            },
        }
        let ghost first = grammar::for_initializer(start.tokens, start.current + 1);
        let initializer = match self.for_initializer() {
            Ok(stmt) => stmt,
            Err(error) => {
                proof {
                    advanced_twice(start, 1 + first.used, Seq::empty(), 0, Seq::empty());
                }
                return Err(error);
            },
        };
        let ghost second = grammar::optional_expression(
            start.tokens,
            start.current + 1 + first.used,
            TokenKind::Semicolon,
            "Expect ';' after loop condition."@,
        );
        let condition = match self.optional_expression(
            TokenKind::Semicolon,
            "Expect ';' after loop condition.",
        ) {
            Ok(expr) => expr,
            Err(error) => {
                proof {
                    advanced_twice(
                        start,
                        1 + first.used + second.used,
                        Seq::empty(),
                        0,
                        Seq::empty(),
                    );
                }
                return Err(error);
            },
        };
        let ghost third = grammar::optional_expression(
            start.tokens,
            start.current + 1 + first.used + second.used,
            TokenKind::RightParen,
            "Expect ')' after for clauses."@,
        );
        let increment = match self.optional_expression(
            TokenKind::RightParen,
            "Expect ')' after for clauses.",
        ) {
            Ok(expr) => expr,
            Err(error) => {
                proof {
                    advanced_twice(
                        start,
                        1 + first.used + second.used + third.used,
                        Seq::empty(),
                        0,
                        Seq::empty(),
                    );
                }
                return Err(error);
            },
        };
        let ghost before = 1 + first.used + second.used + third.used;
        let ghost body = grammar::statement(start.tokens, start.current + before);
        proof {
            advanced_twice(start, before, Seq::empty(), body.used, body.reported);
        }
        match self.statement() {
            Ok(stmt) => Ok(for_loop(initializer, condition, increment, stmt)),
            Err(error) => Err(error),
        }
    }

    #[verifier::spinoff_prover]
    fn statement(&mut self) -> (r: Result<Stmt, ParseError>)
        requires
            old(self)@.is_parsing(),
        ensures
            final(self)@.is_parsing(),
            is_stmt(r, grammar::statement(old(self)@.tokens, old(self)@.current).result),
            final(self)@ == old(self)@.advanced(
                grammar::statement(old(self)@.tokens, old(self)@.current).used,
                grammar::statement(old(self)@.tokens, old(self)@.current).reported,
            ),
        decreases remaining(old(self)@.tokens, old(self)@.current), 50nat,
    {
        proof {
            reveal(grammar::statement);
            reveal(grammar::for_statement);
            reveal(grammar::if_statement);
            reveal(grammar::while_statement);
            reveal(grammar::block);
        }
        let ghost start = self@;
        if self.match_token(TokenKind::For) {
            let ghost inner = grammar::for_statement(start.tokens, start.current + 1);
            proof {
                advanced_twice(start, 1, Seq::empty(), inner.used, inner.reported);
            }
            return self.for_statement();
        }
        if self.match_token(TokenKind::If) {
            let ghost inner = grammar::if_statement(start.tokens, start.current + 1);
            proof {
                advanced_twice(start, 1, Seq::empty(), inner.used, inner.reported);
            }
            return self.if_statement();
        }
        if self.match_token(TokenKind::Print) {
            let ghost inner = grammar::print_statement(start.tokens, start.current + 1);
            proof {
                advanced_twice(start, 1 + inner.used, Seq::empty(), 0, Seq::empty());
            }
            return self.print_statement();
        }
        if self.match_token(TokenKind::Return) {
            let ghost inner = grammar::return_statement(start.tokens, start.current + 1);
            proof {
                advanced_twice(start, 1 + inner.used, Seq::empty(), 0, Seq::empty());
            }
            return self.return_statement();
        }
        if self.match_token(TokenKind::While) {
            let ghost inner = grammar::while_statement(start.tokens, start.current + 1);
            proof {
                advanced_twice(start, 1, Seq::empty(), inner.used, inner.reported);
            }
            return self.while_statement();
        }
        if self.match_token(TokenKind::LeftBrace) {
            let ghost inner = grammar::block(start.tokens, start.current + 1);
            proof {
                advanced_twice(start, 1, Seq::empty(), inner.used, inner.reported);
            }
            return match self.block() {
                Ok(statements) => {
                    proof {
                        block_view(statements);
                    }
                    Ok(Stmt::Block(statements))
                },
                Err(error) => Err(error),
            };
        }
        let ghost inner = grammar::expression_statement(start.tokens, start.current);
        proof {
            advanced_twice(start, inner.used, Seq::empty(), 0, Seq::empty());
        }
        self.expression_statement()
    }

    /// A block, from behind `{` on.
    #[verifier::spinoff_prover]
    fn block(&mut self) -> (r: Result<Vec<Stmt>, ParseError>)
        requires
            old(self)@.is_parsing(),
        ensures
            final(self)@.is_parsing(),
            match r {
                Ok(list) => grammar::block(old(self)@.tokens, old(self)@.current).result == Ok::<
                    Seq<StmtView>,
                    Seq<char>,
                >(stmt_views(list@)),
                Err(error) => grammar::block(old(self)@.tokens, old(self)@.current).result == Err::<
                    Seq<StmtView>,
                    Seq<char>,
                >(error@),
            },
            final(self)@ == old(self)@.advanced(
                grammar::block(old(self)@.tokens, old(self)@.current).used,
                grammar::block(old(self)@.tokens, old(self)@.current).reported,
            ),
        decreases remaining(old(self)@.tokens, old(self)@.current), 62nat,
    {
        proof {
            reveal(grammar::block);
            reveal(grammar::block_rest);
        }
        let ghost start = self@;
        let ghost reported: Seq<Seq<char>> = Seq::empty();
        let mut statements: Vec<Stmt> = Vec::new();
        proof {
            assert(stmt_views(statements@) =~= Seq::empty());
            advanced_twice(start, 0, Seq::empty(), 0, Seq::empty());
            after_twice(
                grammar::block_rest(start.tokens, start.current, Seq::empty()),
                0,
                Seq::empty(),
                0,
                Seq::empty(),
            );
        }
        while !self.check(TokenKind::RightBrace) && !self.is_at_end()
            invariant
                self@.is_parsing(),
                start == old(self)@,
                start.current <= self@.current,
                self@ == start.advanced((self@.current - start.current) as nat, reported),
                grammar::block_rest(start.tokens, start.current, Seq::empty())
                    == grammar::block_rest(
                    start.tokens,
                    self@.current,
                    stmt_views(statements@),
                ).after((self@.current - start.current) as nat, reported),
            decreases remaining(start.tokens, self@.current),
        {
            let ghost here = self@;
            let ghost one = grammar::declaration(start.tokens, here.current);
            proof {
                reveal(grammar::block_rest);
                grammar::declaration_takes(start.tokens, here.current);
            }
            match self.declaration() {
                Some(stmt) => {
                    statements = with_stmt(statements, stmt);
                },
                None => {},
            }
            proof {
                let taken = (here.current - start.current) as nat;
                advanced_twice(start, taken, reported, one.used, one.reported);
                after_twice(
                    grammar::block_rest(
                        start.tokens,
                        here.current + one.used,
                        stmt_views(statements@),
                    ),
                    one.used,
                    one.reported,
                    taken,
                    reported,
                );
                reported = reported + one.reported;
            }
        }
        let ghost end = self@;
        proof {
            advanced_twice(
                start,
                (end.current - start.current) as nat,
                reported,
                1,
                Seq::empty(),
            );
            advanced_twice(
                start,
                (end.current - start.current) as nat,
                reported,
                0,
                Seq::empty(),
            );
        }
        match self.consume(TokenKind::RightBrace, "Expect '}' after block.") {
            Ok(_) => Ok(statements),
            Err(error) => Err(error),
        }
    }

    /// A function declaration, from behind `fun` on.
    #[verifier::spinoff_prover]
    fn function(&mut self) -> (r: Result<Stmt, ParseError>)
        requires
            old(self)@.is_parsing(),
        ensures
            final(self)@.is_parsing(),
            is_stmt(r, grammar::function(old(self)@.tokens, old(self)@.current).result),
            final(self)@ == old(self)@.advanced(
                grammar::function(old(self)@.tokens, old(self)@.current).used,
                grammar::function(old(self)@.tokens, old(self)@.current).reported,
            ),
        decreases remaining(old(self)@.tokens, old(self)@.current), 49nat,
    {
        proof {
            reveal(grammar::function);
            reveal(grammar::block);
        }
        let ghost start = self@;
        proof {
            advanced_twice(start, 0, Seq::empty(), 0, Seq::empty());
            advanced_twice(start, 1, Seq::empty(), 0, Seq::empty());
        }
        let name = match self.consume(TokenKind::Identifier, "Expect function name.") {
            Ok(token) => token,
            Err(error) => {
                return Err(error);
            },
        };
        match self.consume(TokenKind::LeftParen, "Expect '(' after function name.") {
            Ok(_) => {},
            Err(error) => {
                return Err(error);
            },
        }
        let ghost list = if check(start.tokens, start.current + 2, TokenKind::RightParen) {
            grammar::found(Seq::<TokenView>::empty(), 0)
        } else {
            grammar::parameters(start.tokens, start.current + 2, Seq::empty())
        };
        proof {
            advanced_twice(start, list.used + 2, Seq::empty(), 0, Seq::empty());
            advanced_twice(start, list.used + 3, Seq::empty(), 0, Seq::empty());
        }
        let parameters: Vec<Token> = if self.check(TokenKind::RightParen) {
            let none: Vec<Token> = Vec::new();
            assert(token_views(none@) =~= Seq::empty());
            none
        } else {
            let none: Vec<Token> = Vec::new();
            assert(token_views(none@) =~= Seq::empty());
            match self.parameters(none) {
                Ok(list) => list,
                Err(error) => {
                    return Err(error);
                },
            }
        };
        match self.consume(TokenKind::RightParen, "Expect ')' after parameters.") {
            Ok(_) => {},
            Err(error) => {
                return Err(error);
            },
        }
        match self.consume(TokenKind::LeftBrace, "Expect '{' before function body.") {
            Ok(_) => {},
            Err(error) => {
                return Err(error);
            },
        }
        let ghost body = grammar::block(start.tokens, start.current + list.used + 4);
        proof {
            advanced_twice(start, list.used + 4, Seq::empty(), body.used, body.reported);
        }
        match self.block() {
            Ok(statements) => {
                proof {
                    function_view(name, parameters, statements);
                }
                Ok(Stmt::Function(name, parameters, statements))
            },
            Err(error) => Err(error),
        }
    }

    /// One declaration. Where it is an error, the error is recorded and the
    /// tokens up to the next place where a statement may begin are skipped.
    #[verifier::spinoff_prover]
    fn declaration(&mut self) -> (r: Option<Stmt>)
        requires
            old(self)@.is_parsing(),
        ensures
            final(self)@.is_parsing(),
            optional_stmt_view(r) == grammar::declaration(
                old(self)@.tokens,
                old(self)@.current,
            ).statement,
            final(self)@ == old(self)@.advanced(
                grammar::declaration(old(self)@.tokens, old(self)@.current).used,
                grammar::declaration(old(self)@.tokens, old(self)@.current).reported,
            ),
        decreases remaining(old(self)@.tokens, old(self)@.current), 60nat,
    {
        proof {
            reveal(grammar::declaration);
            reveal(grammar::function);
            reveal(grammar::statement);
        }
        let ghost start = self@;
        let one = if self.match_token(TokenKind::Fun) {
            let ghost inner = grammar::function(start.tokens, start.current + 1);
            proof {
                advanced_twice(start, 1, Seq::empty(), inner.used, inner.reported);
            }
            self.function()
        } else if self.match_token(TokenKind::Var) {
            let ghost inner = grammar::var_declaration(start.tokens, start.current + 1);
            proof {
                advanced_twice(start, 1 + inner.used, Seq::empty(), 0, Seq::empty());
            }
            self.var_declaration()
        } else {
            self.statement()
        };
        let ghost found = if check(start.tokens, start.current, TokenKind::Fun) {
            grammar::function(start.tokens, start.current + 1).after(1, Seq::empty())
        } else if check(start.tokens, start.current, TokenKind::Var) {
            grammar::plain(grammar::var_declaration(start.tokens, start.current + 1).after(1))
        } else {
            grammar::statement(start.tokens, start.current)
        };
        assert(self@ == start.advanced(found.used, found.reported));
        match one {
            Ok(stmt) => Some(stmt),
            Err(error) => {
                let ghost skipped = grammar::synchronize(start.tokens, start.current + found.used);
                proof {
                    advanced_twice(start, found.used, found.reported, 0, seq![error@]);
                    advanced_twice(
                        start,
                        found.used,
                        found.reported + seq![error@],
                        skipped,
                        Seq::empty(),
                    );
                    assert(found.reported + seq![error@] =~= found.reported.push(error@));
                }
                self.report(error);
                self.synchronize();
                None
            },
        }
    }

    /// Parses the tokens from the current position up to the end. The
    /// result holds the statement of every declaration that is well formed;
    /// the others are recorded as errors. In the statements every operator
    /// has operands that bind at least as tightly as itself.
    pub fn parse(&mut self) -> (statements: Vec<Stmt>)
        requires
            old(self)@.is_parsing(),
        ensures
            final(self)@.is_parsing(),
            stmt_views(statements@) == grammar::program(
                old(self)@.tokens,
                old(self)@.current,
            ).statements,
            final(self)@ == old(self)@.advanced(
                grammar::program(old(self)@.tokens, old(self)@.current).used,
                grammar::program(old(self)@.tokens, old(self)@.current).reported,
            ),
            at_end(final(self)@.tokens, final(self)@.current),
            crate::precedence::all_nested_stmts(stmt_views(statements@)),
    {
        let ghost start = self@;
        let ghost reported: Seq<Seq<char>> = Seq::empty();
        let mut statements: Vec<Stmt> = Vec::new();
        proof {
            assert(stmt_views(statements@) =~= Seq::empty());
            advanced_twice(start, 0, Seq::empty(), 0, Seq::empty());
        }
        while !self.is_at_end()
            invariant
                self@.is_parsing(),
                start == old(self)@,
                start.current <= self@.current,
                self@ == start.advanced((self@.current - start.current) as nat, reported),
                grammar::program(start.tokens, start.current).statements == stmt_views(
                    statements@,
                ) + grammar::program(start.tokens, self@.current).statements,
                grammar::program(start.tokens, start.current).reported == reported
                    + grammar::program(start.tokens, self@.current).reported,
                grammar::program(start.tokens, start.current).used == (self@.current
                    - start.current) + grammar::program(start.tokens, self@.current).used,
            decreases remaining(start.tokens, self@.current),
        {
            let ghost here = self@;
            let ghost one = grammar::declaration(start.tokens, here.current);
            let ghost collected = stmt_views(statements@);
            let ghost rest = grammar::program(start.tokens, here.current + one.used);
            proof {
                grammar::declaration_takes(start.tokens, here.current);
            }
            match self.declaration() {
                Some(stmt) => {
                    statements = with_stmt(statements, stmt);
                },
                None => {},
            }
            proof {
                let taken = (here.current - start.current) as nat;
                advanced_twice(start, taken, reported, one.used, one.reported);
                let first = match one.statement {
                    Some(stmt) => seq![stmt],
                    None => Seq::empty(),
                };
                assert(stmt_views(statements@) =~= collected + first);
                assert(collected + (first + rest.statements) =~= (collected + first)
                    + rest.statements);
                assert(reported + (one.reported + rest.reported) =~= (reported + one.reported)
                    + rest.reported);
                reported = reported + one.reported;
            }
        }
        proof {
            let last = grammar::program(start.tokens, self@.current);
            assert(stmt_views(statements@) + last.statements =~= stmt_views(statements@));
            assert(reported + last.reported =~= reported);
            crate::precedence::program_is_nested(start.tokens, start.current);
        }
        statements
    }
}

} // verus!
