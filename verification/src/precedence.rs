//! Precedence and grouping of operators, as laws of the grammar.
//!
//! In a tree that the grammar finds, an operator's operands bind at least as
//! tightly as the operator itself, and the right operand binds more
//! tightly: `1 + 2 * 3` has the product as the right operand of the sum, and
//! `1 - 2 - 3` has the first difference as the left operand of the second.
//! An operand that binds less tightly than its operator stands in
//! parentheses.

use vstd::prelude::*;
use crate::expression::ExprView;
use crate::grammar::{
    arguments, assignment, at_end, binary, binary_rest, block, block_rest, call, call_rest,
    check, closed_expression, condition, declaration, declaration_takes, expression,
    expression_statement, finish_call, for_initializer, for_loop, for_statement, function,
    height, if_statement, is_operator, operand, optional_expression, primary, print_statement,
    program, remaining, return_statement, statement, unary, var_declaration, while_statement,
    Level,
};
use crate::statement::StmtView;
use crate::token::TokenView;
use crate::token_kind::TokenKind;

verus! {

/// How tightly the operators of a level bind: the higher, the tighter.
pub open spec fn tightness(level: Level) -> nat {
    match level {
        Level::Or => 1,
        Level::And => 2,
        Level::Equality => 3,
        Level::Comparison => 4,
        Level::Term => 5,
        Level::Factor => 6,
    }
}

/// How tightly a token binds as an operator between two operands; 0 for a
/// token that is no such operator.
pub open spec fn operator_rank(kind: TokenKind) -> nat {
    if is_operator(Level::Or, kind) {
        1
    } else if is_operator(Level::And, kind) {
        2
    } else if is_operator(Level::Equality, kind) {
        3
    } else if is_operator(Level::Comparison, kind) {
        4
    } else if is_operator(Level::Term, kind) {
        5
    } else if is_operator(Level::Factor, kind) {
        6
    } else {
        0
    }
}

/// How tightly the top of a tree binds: an assignment least, then the
/// operators between two operands by their levels, then the prefix
/// operators, then calls; literals, variables and what stands in
/// parentheses bind tightest.
pub open spec fn rank(expr: ExprView) -> nat {
    match expr {
        ExprView::Assign(_, _, _) => 0,
        ExprView::Binary(_, operator, _) => operator_rank(operator.kind),
        ExprView::Logical(_, operator, _) => operator_rank(operator.kind),
        ExprView::Unary(_, _) => 7,
        ExprView::Call(_, _, _) => 8,
        _ => 9,
    }
}

/// Whether the operators in a tree are nested by precedence: the left
/// operand of an operator binds at least as tightly as the operator and the
/// right operand more tightly, the operand of a prefix operator is a prefix
/// operator's tree or binds tighter, and what is called is a call or binds
/// tighter. What stands in parentheses, the arguments of a call and the
/// value of an assignment are nested in themselves.
pub open spec fn nested(expr: ExprView) -> bool
    decreases expr,
{
    match expr {
        ExprView::Literal(_) => true,
        ExprView::Variable(_, _) => true,
        ExprView::Assign(_, _, value) => nested(*value),
        ExprView::Binary(left, operator, right) => rank(*left) >= rank(expr) && rank(*right) > rank(
            expr,
        ) && rank(expr) > 0 && nested(*left) && nested(*right),
        ExprView::Logical(left, operator, right) => rank(*left) >= rank(expr) && rank(*right)
            > rank(expr) && rank(expr) > 0 && nested(*left) && nested(*right),
        ExprView::Unary(_, operand) => rank(*operand) >= 7 && nested(*operand),
        ExprView::Grouping(inner) => nested(*inner),
        ExprView::Call(callee, _, arguments) => rank(*callee) >= 8 && nested(*callee) && forall|
            i: int,
        |
            0 <= i < arguments.len() ==> nested(#[trigger] arguments[i]),
    }
}

/// Whether each of the trees is nested by precedence.
pub open spec fn all_nested(exprs: Seq<ExprView>) -> bool {
    forall|i: int| 0 <= i < exprs.len() ==> nested(#[trigger] exprs[i])
}

/// A primary expression binds tightest.
pub proof fn primary_is_nested(tokens: Seq<TokenView>, pos: int)
    ensures
        primary(tokens, pos).result matches Ok(expr) ==> nested(expr) && rank(expr) == 9,
    decreases remaining(tokens, pos), 0nat,
{
    reveal(primary);
    reveal(closed_expression);
    if crate::grammar::check(tokens, pos, TokenKind::LeftParen) {
        closed_expression_is_nested(
            tokens,
            pos + 1,
            TokenKind::RightParen,
            "Expect ')' after expression."@,
        );
    }
}

/// An expression before a closing token is nested.
pub proof fn closed_expression_is_nested(
    tokens: Seq<TokenView>,
    pos: int,
    kind: TokenKind,
    message: Seq<char>,
)
    ensures
        closed_expression(tokens, pos, kind, message).result matches Ok(expr) ==> nested(expr),
    decreases remaining(tokens, pos), 32nat,
{
    reveal(closed_expression);
    reveal(expression);
    expression_is_nested(tokens, pos);
}

/// The calls after a callee are nested, and are calls or the callee itself.
pub proof fn call_rest_is_nested(tokens: Seq<TokenView>, pos: int, callee: ExprView)
    requires
        nested(callee),
        rank(callee) >= 8,
    ensures
        call_rest(tokens, pos, callee).result matches Ok(expr) ==> nested(expr) && rank(expr) >= 8,
    decreases remaining(tokens, pos), 1nat,
{
    reveal(call_rest);
    reveal(finish_call);
    if crate::grammar::check(tokens, pos, TokenKind::LeftParen) {
        finish_call_is_nested(tokens, pos + 1, callee);
        let one = finish_call(tokens, pos + 1, callee);
        match one.result {
            Ok(expr) => {
                call_rest_is_nested(tokens, pos + 1 + one.used, expr);
            },
            Err(_) => {},
        }
    }
}

/// A call is nested, and binds as tightly as a call or tighter.
pub proof fn call_is_nested(tokens: Seq<TokenView>, pos: int)
    ensures
        call(tokens, pos).result matches Ok(expr) ==> nested(expr) && rank(expr) >= 8,
    decreases remaining(tokens, pos), 2nat,
{
    reveal(call);
    reveal(primary);
    reveal(call_rest);
    primary_is_nested(tokens, pos);
    let callee = primary(tokens, pos);
    match callee.result {
        Ok(expr) => {
            call_rest_is_nested(tokens, pos + callee.used, expr);
        },
        Err(_) => {},
    }
}

/// The arguments of a call are nested, each in itself.
pub proof fn arguments_are_nested(tokens: Seq<TokenView>, pos: int, collected: Seq<ExprView>)
    requires
        all_nested(collected),
    ensures
        arguments(tokens, pos, collected).result matches Ok(list) ==> all_nested(list),
    decreases remaining(tokens, pos), 40nat,
{
    reveal(arguments);
    reveal(expression);
    if collected.len() < crate::grammar::MAX_ARGUMENTS {
        expression_is_nested(tokens, pos);
        let one = expression(tokens, pos);
        match one.result {
            Ok(expr) => {
                let longer = collected.push(expr);
                assert forall|i: int| 0 <= i < longer.len() implies nested(#[trigger] longer[i]) by {
                    if i < collected.len() {
                        assert(longer[i] == collected[i]);
                    }
                }
                if crate::grammar::check(tokens, pos + one.used, TokenKind::Comma) {
                    arguments_are_nested(tokens, pos + one.used + 1, longer);
                }
            },
            Err(_) => {},
        }
    }
}

/// A call with its arguments is nested.
pub proof fn finish_call_is_nested(tokens: Seq<TokenView>, pos: int, callee: ExprView)
    requires
        nested(callee),
        rank(callee) >= 8,
    ensures
        finish_call(tokens, pos, callee).result matches Ok(expr) ==> nested(expr) && rank(expr)
            == 8,
    decreases remaining(tokens, pos), 41nat,
{
    reveal(finish_call);
    reveal(arguments);
    if !crate::grammar::check(tokens, pos, TokenKind::RightParen) {
        arguments_are_nested(tokens, pos, Seq::empty());
    }
}

/// A unary expression is nested, and binds as tightly as a prefix operator
/// or tighter.
pub proof fn unary_is_nested(tokens: Seq<TokenView>, pos: int)
    ensures
        unary(tokens, pos).result matches Ok(expr) ==> nested(expr) && rank(expr) >= 7,
    decreases remaining(tokens, pos), 3nat,
{
    reveal(unary);
    reveal(call);
    if crate::grammar::check(tokens, pos, TokenKind::Bang) || crate::grammar::check(
        tokens,
        pos,
        TokenKind::Minus,
    ) {
        unary_is_nested(tokens, pos + 1);
    } else {
        call_is_nested(tokens, pos);
    }
}

/// An operand of an operator binds more tightly than the operator.
pub proof fn operand_is_nested(tokens: Seq<TokenView>, pos: int, level: Level)
    ensures
        operand(tokens, pos, level).result matches Ok(expr) ==> nested(expr) && rank(expr)
            > tightness(level),
    decreases remaining(tokens, pos), height(level) - 1,
{
    reveal(operand);
    reveal(binary);
    reveal(unary);
    match level {
        Level::Or => binary_is_nested(tokens, pos, Level::And),
        Level::And => binary_is_nested(tokens, pos, Level::Equality),
        Level::Equality => binary_is_nested(tokens, pos, Level::Comparison),
        Level::Comparison => binary_is_nested(tokens, pos, Level::Term),
        Level::Term => binary_is_nested(tokens, pos, Level::Factor),
        Level::Factor => unary_is_nested(tokens, pos),
    }
}

/// Operators of one level group to the left: what stands before an
/// operator is its left operand, and the whole binds as tightly as the
/// level or tighter.
pub proof fn binary_rest_is_nested(tokens: Seq<TokenView>, pos: int, level: Level, left: ExprView)
    requires
        nested(left),
        rank(left) >= tightness(level),
    ensures
        binary_rest(tokens, pos, level, left).result matches Ok(expr) ==> nested(expr) && rank(expr)
            >= tightness(level),
    decreases remaining(tokens, pos), height(level),
{
    reveal(binary_rest);
    reveal(operand);
    if !crate::grammar::at_end(tokens, pos) && is_operator(
        level,
        crate::grammar::kind_at(tokens, pos),
    ) {
        operand_is_nested(tokens, pos + 1, level);
        let right = operand(tokens, pos + 1, level);
        match right.result {
            Ok(expr) => {
                let joined = crate::grammar::operation(level, left, tokens[pos], expr);
                assert(rank(joined) == tightness(level));
                assert(nested(joined));
                binary_rest_is_nested(tokens, pos + 1 + right.used, level, joined);
            },
            Err(_) => {},
        }
    }
}

/// An expression of a level is nested, and binds as tightly as the level
/// or tighter.
pub proof fn binary_is_nested(tokens: Seq<TokenView>, pos: int, level: Level)
    ensures
        binary(tokens, pos, level).result matches Ok(expr) ==> nested(expr) && rank(expr)
            >= tightness(level),
    decreases remaining(tokens, pos), height(level) + 1,
{
    reveal(binary);
    reveal(operand);
    reveal(binary_rest);
    operand_is_nested(tokens, pos, level);
    let left = operand(tokens, pos, level);
    match left.result {
        Ok(expr) => {
            binary_rest_is_nested(tokens, pos + left.used, level, expr);
        },
        Err(_) => {},
    }
}

/// An assignment is nested.
pub proof fn assignment_is_nested(tokens: Seq<TokenView>, pos: int)
    ensures
        assignment(tokens, pos).result matches Ok(expr) ==> nested(expr),
    decreases remaining(tokens, pos), 30nat,
{
    reveal(assignment);
    reveal(binary);
    binary_is_nested(tokens, pos, Level::Or);
    let left = binary(tokens, pos, Level::Or);
    match left.result {
        Ok(target) => {
            if crate::grammar::check(tokens, pos + left.used, TokenKind::Equal) {
                assignment_is_nested(tokens, pos + left.used + 1);
            }
        },
        Err(_) => {},
    }
}

/// Every expression that the grammar finds has its operators nested by
/// precedence.
pub proof fn expression_is_nested(tokens: Seq<TokenView>, pos: int)
    ensures
        expression(tokens, pos).result matches Ok(expr) ==> nested(expr),
    decreases remaining(tokens, pos), 31nat,
{
    reveal(expression);
    reveal(assignment);
    assignment_is_nested(tokens, pos);
}

/// Whether every expression in a statement, and in the statements inside
/// it, has its operators nested by precedence.
pub open spec fn nested_stmt(stmt: StmtView) -> bool
    decreases stmt,
{
    match stmt {
        StmtView::Expression(expr) => nested(expr),
        StmtView::Print(expr) => nested(expr),
        StmtView::Var(_, initializer) => match initializer {
            Some(expr) => nested(expr),
            None => true,
        },
        StmtView::Block(statements) => forall|i: int|
            0 <= i < statements.len() ==> nested_stmt(#[trigger] statements[i]),
        StmtView::If(test, then_branch, else_branch) => nested(test) && nested_stmt(*then_branch)
            && match else_branch {
            Some(branch) => nested_stmt(*branch),
            None => true,
        },
        StmtView::While(test, body) => nested(test) && nested_stmt(*body),
        StmtView::Function(_, _, body) => forall|i: int|
            0 <= i < body.len() ==> nested_stmt(#[trigger] body[i]),
        StmtView::Return(_, value) => match value {
            Some(expr) => nested(expr),
            None => true,
        },
    }
}

/// Whether each of the statements is nested.
pub open spec fn all_nested_stmts(statements: Seq<StmtView>) -> bool {
    forall|i: int| 0 <= i < statements.len() ==> nested_stmt(#[trigger] statements[i])
}

/// An expression that may be missing is nested where it is there.
pub proof fn optional_expression_is_nested(
    tokens: Seq<TokenView>,
    pos: int,
    kind: TokenKind,
    message: Seq<char>,
)
    ensures
        optional_expression(tokens, pos, kind, message).result matches Ok(Some(expr)) ==> nested(
            expr,
        ),
{
    closed_expression_is_nested(tokens, pos, kind, message);
}

/// A variable declaration is nested.
pub proof fn var_declaration_is_nested(tokens: Seq<TokenView>, pos: int)
    ensures
        var_declaration(tokens, pos).result matches Ok(stmt) ==> nested_stmt(stmt),
{
    closed_expression_is_nested(
        tokens,
        pos + 2,
        TokenKind::Semicolon,
        "Expect ';' after variable declaration."@,
    );
}

/// An expression statement is nested.
pub proof fn expression_statement_is_nested(tokens: Seq<TokenView>, pos: int)
    ensures
        expression_statement(tokens, pos).result matches Ok(stmt) ==> nested_stmt(stmt),
{
    closed_expression_is_nested(
        tokens,
        pos,
        TokenKind::Semicolon,
        "Expect ';' after expression."@,
    );
}

/// The statement that a `for` stands for is nested if its parts are.
pub proof fn for_loop_is_nested(
    initializer: Option<StmtView>,
    test: Option<ExprView>,
    increment: Option<ExprView>,
    body: StmtView,
)
    requires
        initializer matches Some(stmt) ==> nested_stmt(stmt),
        test matches Some(expr) ==> nested(expr),
        increment matches Some(expr) ==> nested(expr),
        nested_stmt(body),
    ensures
        nested_stmt(for_loop(initializer, test, increment, body)),
{
    let repeated = match increment {
        Some(expr) => StmtView::Block(seq![body, StmtView::Expression(expr)]),
        None => body,
    };
    match increment {
        Some(expr) => {
            let both = seq![body, StmtView::Expression(expr)];
            assert forall|i: int| 0 <= i < both.len() implies nested_stmt(#[trigger] both[i]) by {
                if i == 0 {
                    assert(both[i] == body);
                } else {
                    assert(both[i] == StmtView::Expression(expr));
                }
            }
        },
        None => {},
    }
    assert(nested_stmt(repeated));
    let looping = StmtView::While(
        match test {
            Some(expr) => expr,
            None => ExprView::Literal(crate::literal::LiteralView::Boolean(true)),
        },
        Box::new(repeated),
    );
    assert(nested_stmt(looping));
    match initializer {
        Some(stmt) => {
            let both = seq![stmt, looping];
            assert forall|i: int| 0 <= i < both.len() implies nested_stmt(#[trigger] both[i]) by {
                if i == 0 {
                    assert(both[i] == stmt);
                } else {
                    assert(both[i] == looping);
                }
            }
        },
        None => {},
    }
}

/// A `for` statement is nested.
pub proof fn for_statement_is_nested(tokens: Seq<TokenView>, pos: int)
    ensures
        for_statement(tokens, pos).result matches Ok(stmt) ==> nested_stmt(stmt),
    decreases remaining(tokens, pos), 49nat,
{
    reveal(for_statement);
    reveal(statement);
    if check(tokens, pos, TokenKind::LeftParen) {
        let initializer = for_initializer(tokens, pos + 1);
        var_declaration_is_nested(tokens, pos + 2);
        expression_statement_is_nested(tokens, pos + 1);
        let test = optional_expression(
            tokens,
            pos + 1 + initializer.used,
            TokenKind::Semicolon,
            "Expect ';' after loop condition."@,
        );
        optional_expression_is_nested(
            tokens,
            pos + 1 + initializer.used,
            TokenKind::Semicolon,
            "Expect ';' after loop condition."@,
        );
        let increment = optional_expression(
            tokens,
            pos + 1 + initializer.used + test.used,
            TokenKind::RightParen,
            "Expect ')' after for clauses."@,
        );
        optional_expression_is_nested(
            tokens,
            pos + 1 + initializer.used + test.used,
            TokenKind::RightParen,
            "Expect ')' after for clauses."@,
        );
        if initializer.result is Ok && test.result is Ok && increment.result is Ok {
            let before = 1 + initializer.used + test.used + increment.used;
            statement_is_nested(tokens, pos + before);
            let body = statement(tokens, pos + before);
            match body.result {
                Ok(stmt) => {
                    for_loop_is_nested(
                        initializer.result->Ok_0,
                        test.result->Ok_0,
                        increment.result->Ok_0,
                        stmt,
                    );
                },
                Err(_) => {},
            }
        }
    }
}

/// An `if` statement is nested.
pub proof fn if_statement_is_nested(tokens: Seq<TokenView>, pos: int)
    ensures
        if_statement(tokens, pos).result matches Ok(stmt) ==> nested_stmt(stmt),
    decreases remaining(tokens, pos), 49nat,
{
    reveal(if_statement);
    reveal(statement);
    let test = condition(tokens, pos, "Expect '(' after 'if'."@, "Expect ')' after if condition."@);
    closed_expression_is_nested(
        tokens,
        pos + 1,
        TokenKind::RightParen,
        "Expect ')' after if condition."@,
    );
    if test.result is Ok && test.used > 0 {
        statement_is_nested(tokens, pos + test.used);
        let first = statement(tokens, pos + test.used);
        if first.result is Ok && check(tokens, pos + test.used + first.used, TokenKind::Else) {
            statement_is_nested(tokens, pos + test.used + first.used + 1);
        }
    }
}

/// A `while` statement is nested.
pub proof fn while_statement_is_nested(tokens: Seq<TokenView>, pos: int)
    ensures
        while_statement(tokens, pos).result matches Ok(stmt) ==> nested_stmt(stmt),
    decreases remaining(tokens, pos), 49nat,
{
    reveal(while_statement);
    reveal(statement);
    let test = condition(tokens, pos, "Expect '(' after 'while'."@, "Expect ')' after condition."@);
    closed_expression_is_nested(
        tokens,
        pos + 1,
        TokenKind::RightParen,
        "Expect ')' after condition."@,
    );
    if test.result is Ok && test.used > 0 {
        statement_is_nested(tokens, pos + test.used);
    }
}

/// A statement is nested.
pub proof fn statement_is_nested(tokens: Seq<TokenView>, pos: int)
    ensures
        statement(tokens, pos).result matches Ok(stmt) ==> nested_stmt(stmt),
    decreases remaining(tokens, pos), 50nat,
{
    reveal(statement);
    reveal(for_statement);
    reveal(if_statement);
    reveal(while_statement);
    reveal(block);
    if check(tokens, pos, TokenKind::For) {
        for_statement_is_nested(tokens, pos + 1);
    } else if check(tokens, pos, TokenKind::If) {
        if_statement_is_nested(tokens, pos + 1);
    } else if check(tokens, pos, TokenKind::Print) {
        closed_expression_is_nested(
            tokens,
            pos + 1,
            TokenKind::Semicolon,
            "Expect ';' after value."@,
        );
    } else if check(tokens, pos, TokenKind::Return) {
        optional_expression_is_nested(
            tokens,
            pos + 1,
            TokenKind::Semicolon,
            "Expect ';' after return value."@,
        );
    } else if check(tokens, pos, TokenKind::While) {
        while_statement_is_nested(tokens, pos + 1);
    } else if check(tokens, pos, TokenKind::LeftBrace) {
        block_is_nested(tokens, pos + 1);
    } else {
        expression_statement_is_nested(tokens, pos);
    }
}

/// The statements of a block are nested.
pub proof fn block_rest_is_nested(tokens: Seq<TokenView>, pos: int, collected: Seq<StmtView>)
    requires
        all_nested_stmts(collected),
    ensures
        block_rest(tokens, pos, collected).result matches Ok(list) ==> all_nested_stmts(list),
    decreases remaining(tokens, pos), 61nat,
{
    reveal(block_rest);
    reveal(declaration);
    if !check(tokens, pos, TokenKind::RightBrace) && !at_end(tokens, pos) {
        declaration_is_nested(tokens, pos);
        let one = declaration(tokens, pos);
        let gathered = match one.statement {
            Some(stmt) => collected.push(stmt),
            None => collected,
        };
        assert forall|i: int| 0 <= i < gathered.len() implies nested_stmt(
            #[trigger] gathered[i],
        ) by {
            if i < collected.len() {
                assert(gathered[i] == collected[i]);
            }
        }
        if one.used > 0 {
            block_rest_is_nested(tokens, pos + one.used, gathered);
        }
    }
}

/// A block is nested.
pub proof fn block_is_nested(tokens: Seq<TokenView>, pos: int)
    ensures
        block(tokens, pos).result matches Ok(list) ==> all_nested_stmts(list),
    decreases remaining(tokens, pos), 62nat,
{
    reveal(block);
    reveal(block_rest);
    block_rest_is_nested(tokens, pos, Seq::empty());
}

/// A function declaration is nested.
pub proof fn function_is_nested(tokens: Seq<TokenView>, pos: int)
    ensures
        function(tokens, pos).result matches Ok(stmt) ==> nested_stmt(stmt),
    decreases remaining(tokens, pos), 49nat,
{
    reveal(function);
    reveal(block);
    if check(tokens, pos, TokenKind::Identifier) && check(tokens, pos + 1, TokenKind::LeftParen) {
        let list = if check(tokens, pos + 2, TokenKind::RightParen) {
            crate::grammar::found(Seq::<TokenView>::empty(), 0)
        } else {
            crate::grammar::parameters(tokens, pos + 2, Seq::empty())
        };
        let close = pos + 2 + list.used;
        if list.result is Ok && check(tokens, close, TokenKind::RightParen) && check(
            tokens,
            close + 1,
            TokenKind::LeftBrace,
        ) {
            block_is_nested(tokens, close + 2);
        }
    }
}

/// A declaration that is not given up is nested.
pub proof fn declaration_is_nested(tokens: Seq<TokenView>, pos: int)
    ensures
        declaration(tokens, pos).statement matches Some(stmt) ==> nested_stmt(stmt),
    decreases remaining(tokens, pos), 60nat,
{
    reveal(declaration);
    reveal(function);
    reveal(statement);
    if check(tokens, pos, TokenKind::Fun) {
        function_is_nested(tokens, pos + 1);
    } else if check(tokens, pos, TokenKind::Var) {
        var_declaration_is_nested(tokens, pos + 1);
    } else {
        statement_is_nested(tokens, pos);
    }
}

/// Precedence holds of all that the parser gives: in every statement of a
/// program, every operator's operands bind at least as tightly as the
/// operator, and its right operand more tightly.
pub proof fn program_is_nested(tokens: Seq<TokenView>, pos: int)
    ensures
        all_nested_stmts(program(tokens, pos).statements),
    decreases remaining(tokens, pos),
{
    if !at_end(tokens, pos) {
        declaration_is_nested(tokens, pos);
        declaration_takes(tokens, pos);
        let one = declaration(tokens, pos);
        program_is_nested(tokens, pos + one.used);
        let rest = program(tokens, pos + one.used).statements;
        let all = program(tokens, pos).statements;
        assert forall|i: int| 0 <= i < all.len() implies nested_stmt(#[trigger] all[i]) by {
            match one.statement {
                Some(stmt) => {
                    if i > 0 {
                        assert(all[i] == rest[i - 1]);
                    }
                },
                None => {
                    assert(all[i] == rest[i]);
                },
            }
        }
    }
}

} // verus!
