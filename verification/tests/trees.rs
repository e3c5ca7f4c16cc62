use rslox::expression::Expr;
use rslox::interpreter::{Action, Event, Interpreter};
use rslox::literal::Literal;
use rslox::machine::Request;
use rslox::resolver::ResolutionMap;
use rslox::statement::Stmt;
use rslox::token::Token;
use rslox::token_kind::TokenKind;

fn token(kind: TokenKind, lexeme: &str) -> Token {
    Token { kind, lexeme: lexeme.to_string(), line: 4, literal: None }
}

fn number(value: f64) -> Expr {
    Expr::Literal(Literal::Number(value.to_bits()))
}

/// Runs hand-made statements that need no arithmetic and gives the lines
/// printed and the failure.
fn run(statements: &Vec<Stmt>, locals: ResolutionMap) -> (Vec<String>, Option<String>) {
    let mut interpreter = Interpreter::new();
    interpreter.load(statements, locals);
    let mut output = Vec::new();
    let mut event = Event::Resume;
    loop {
        match interpreter.run(event, 100) {
            Action::Proceed => event = Event::Resume,
            Action::Print(line) => {
                output.push(line);
                event = Event::Resume;
            }
            Action::Ask(Request::Render(bits)) => {
                event = Event::Text(f64::from_bits(bits).to_string());
            }
            Action::Ask(Request::Compute(_, _, _)) => panic!("no arithmetic expected"),
            Action::Finished => return (output, None),
            Action::Failed(error) => return (output, Some(error.report())),
        }
    }
}

#[test]
fn binary_node_with_another_token_fails() {
    let tree = Expr::Binary(
        Box::new(number(1.0)),
        token(TokenKind::Comma, ","),
        Box::new(number(2.0)),
    );
    let (output, failure) = run(&vec![Stmt::Print(tree)], ResolutionMap::new());
    assert!(output.is_empty());
    assert_eq!(failure, Some("Invalid binary operator\n[Line 4 ]".to_string()));
}

#[test]
fn logical_node_with_another_token_fails() {
    let tree = Expr::Logical(
        Box::new(number(1.0)),
        token(TokenKind::Plus, "+"),
        Box::new(number(2.0)),
    );
    let (_, failure) = run(&vec![Stmt::Expression(tree)], ResolutionMap::new());
    assert_eq!(failure, Some("Logical evaluator needs to be AND or OR\n[Line 4 ]".to_string()));
}

#[test]
fn unary_node_with_another_token_fails() {
    let tree = Expr::Unary(token(TokenKind::Plus, "+"), Box::new(number(1.0)));
    let (_, failure) = run(&vec![Stmt::Expression(tree)], ResolutionMap::new());
    assert_eq!(failure, Some("Invalid unary operator\n[Line 4 ]".to_string()));
}

#[test]
fn function_value_that_was_never_made_cannot_be_called() {
    let tree = Expr::Call(
        Box::new(Expr::Literal(Literal::Callable(99))),
        token(TokenKind::RightParen, ")"),
        Vec::new(),
    );
    let (_, failure) = run(&vec![Stmt::Expression(tree)], ResolutionMap::new());
    assert_eq!(failure, Some("Can only call functions.\n[Line 4 ]".to_string()));
}

#[test]
fn distance_beyond_the_scopes_is_an_undefined_variable() {
    let statements = vec![
        Stmt::Var(token(TokenKind::Identifier, "a"), Some(Expr::Literal(Literal::Nil))),
        Stmt::Print(Expr::Variable(token(TokenKind::Identifier, "a"), 7)),
    ];
    let (output, failure) = run(&statements, ResolutionMap::new());
    assert_eq!(output, vec!["nil"]);
    assert_eq!(failure, None);

    let mut wrong = ResolutionMap::new();
    wrong.record(7, 3);
    let (output, failure) = run(&statements, wrong);
    assert!(output.is_empty());
    assert_eq!(failure, Some("Undefined variable 'a'.\n[Line 4 ]".to_string()));

    let assignment = vec![Stmt::Expression(Expr::Assign(
        token(TokenKind::Identifier, "a"),
        7,
        Box::new(Expr::Literal(Literal::Nil)),
    ))];
    let mut wrong = ResolutionMap::new();
    wrong.record(7, 1);
    let (_, failure) = run(&assignment, wrong);
    assert_eq!(failure, Some("Undefined variable 'a'.\n[Line 4 ]".to_string()));
}

#[test]
fn recorded_distance_is_followed() {
    let inner = vec![
        Stmt::Var(token(TokenKind::Identifier, "a"), Some(Expr::Literal(Literal::Boolean(true)))),
        Stmt::Print(Expr::Variable(token(TokenKind::Identifier, "a"), 1)),
        Stmt::Print(Expr::Variable(token(TokenKind::Identifier, "a"), 2)),
    ];
    let statements = vec![
        Stmt::Var(token(TokenKind::Identifier, "a"), Some(Expr::Literal(Literal::Boolean(false)))),
        Stmt::Block(inner),
    ];
    let mut locals = ResolutionMap::new();
    locals.record(1, 0);
    locals.record(2, 1);
    let (output, failure) = run(&statements, locals);
    assert_eq!(output, vec!["true", "false"]);
    assert_eq!(failure, None);
}

#[test]
fn grouping_gives_the_value_of_what_is_inside() {
    let tree = Expr::Grouping(Box::new(Expr::Grouping(Box::new(Expr::Literal(
        Literal::String("in".to_string()),
    )))));
    let (output, _) = run(&vec![Stmt::Print(tree)], ResolutionMap::new());
    assert_eq!(output, vec!["in"]);
}

#[test]
fn new_interpreter_has_nothing_to_run() {
    let mut interpreter = Interpreter::new();
    assert!(matches!(interpreter.pending(), Action::Finished));
    assert!(matches!(interpreter.step(Event::Resume), Action::Finished));
    assert_eq!(interpreter.environment().len(), 1);
}
