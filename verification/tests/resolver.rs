use rslox::literal::Literal;
use rslox::parser::Parser;
use rslox::resolver::{resolve, ResolutionMap, Resolver};
use rslox::scanner::Scanner;
use rslox::statement::Stmt;
use rslox::token::Token;
use rslox::token_kind::TokenKind;

fn scan(source: &str) -> Vec<Token> {
    let mut scanner = Scanner::new(&source.to_string());
    let mut tokens = scanner.scan_tokens();
    for token in tokens.iter_mut() {
        if token.kind == TokenKind::Number {
            let value: f64 = token.lexeme.parse().unwrap();
            token.literal = Some(Literal::Number(value.to_bits()));
        }
    }
    tokens
}

fn parse(source: &str) -> Vec<Stmt> {
    let mut parser = Parser::new(scan(source));
    let statements = parser.parse();
    assert!(parser.errors().is_empty());
    statements
}

/// The distance recorded for each identifier token of the source, in order.
fn distances(source: &str) -> Vec<(String, Option<usize>)> {
    let table = resolve(&parse(source));
    scan(source)
        .iter()
        .enumerate()
        .filter(|(_, token)| token.kind == TokenKind::Identifier)
        .map(|(index, token)| (token.lexeme.clone(), table.distance(index)))
        .collect()
}

fn entry(name: &str, distance: Option<usize>) -> (String, Option<usize>) {
    (name.to_string(), distance)
}

#[test]
fn empty_table() {
    let table = ResolutionMap::new();
    assert_eq!(table.distance(0), None);
    let mut table = table;
    table.record(3, 1);
    table.record(3, 2);
    assert_eq!(table.distance(3), Some(2));
    assert_eq!(table.distance(2), None);
}

#[test]
fn globals_have_no_entry() {
    assert_eq!(
        distances("var a = 1; print a; a = 2;"),
        vec![entry("a", None), entry("a", None), entry("a", None)]
    );
}

#[test]
fn locals_are_found_by_their_distance() {
    assert_eq!(
        distances("{ var a; { var b; print a; print b; { a = b; } } }"),
        vec![
            entry("a", None),
            entry("b", None),
            entry("a", Some(1)),
            entry("b", Some(0)),
            entry("a", Some(2)),
            entry("b", Some(1)),
        ]
    );
}

#[test]
fn reference_before_declaration_is_to_the_outer_variable() {
    assert_eq!(
        distances("{ var a; { print a; var a; print a; } }"),
        vec![
            entry("a", None),
            entry("a", Some(1)),
            entry("a", None),
            entry("a", Some(0)),
        ]
    );
}

#[test]
fn initializer_is_resolved_before_the_name_is_declared() {
    assert_eq!(
        distances("{ var a; { var a = a; } }"),
        vec![entry("a", None), entry("a", None), entry("a", Some(1))]
    );
}

#[test]
fn parameters_and_body_share_one_scope() {
    assert_eq!(
        distances("fun f(a, b) { var c; print a; print c; print f; }"),
        vec![
            entry("f", None),
            entry("a", None),
            entry("b", None),
            entry("c", None),
            entry("a", Some(0)),
            entry("c", Some(0)),
            entry("f", None),
        ]
    );
}

#[test]
fn local_function_can_refer_to_itself() {
    assert_eq!(
        distances("{ fun f(n) { f(n); } f(1); }"),
        vec![
            entry("f", None),
            entry("n", None),
            entry("f", Some(1)),
            entry("n", Some(0)),
            entry("f", Some(0)),
        ]
    );
}

#[test]
fn scope_of_a_block_ends_with_the_block() {
    assert_eq!(
        distances("{ { var a; } print a; } fun f(a) {} print a;"),
        vec![
            entry("a", None),
            entry("a", None),
            entry("f", None),
            entry("a", None),
            entry("a", None),
        ]
    );
}

#[test]
fn for_loop_variable_is_local_to_the_loop() {
    assert_eq!(
        distances("for (var i = 0; i < 3; i = i + 1) { print i; }"),
        vec![
            entry("i", None),
            entry("i", Some(0)),
            entry("i", Some(1)),
            entry("i", Some(1)),
            entry("i", Some(2)),
        ]
    );
}

#[test]
fn resolver_can_be_used_in_steps() {
    let first = parse("{ var a; print a; }");
    let mut resolver = Resolver::new();
    resolver.resolve(&first);
    let table = resolver.finish();
    assert_eq!(table.distance(5), Some(0));
    assert_eq!(table.distance(2), None);
}
