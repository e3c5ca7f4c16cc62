use rslox::environment::Environment;
use rslox::literal::Literal;
use rslox::token::Token;
use rslox::token_kind::TokenKind;

fn name(text: &str) -> Token {
    Token { kind: TokenKind::Identifier, lexeme: text.to_string(), line: 7, literal: None }
}

fn number(value: f64) -> Literal {
    Literal::Number(value.to_bits())
}

fn is_number(value: &Literal, expected: f64) -> bool {
    matches!(value, Literal::Number(bits) if f64::from_bits(*bits) == expected)
}

#[test]
fn new_arena_holds_the_global_scope() {
    let environment = Environment::new();
    assert_eq!(environment.len(), 1);
    assert_eq!(environment.ancestor(0, 0), Some(0));
    assert_eq!(environment.ancestor(0, 1), None);
}

#[test]
fn define_binds_and_overwrites() {
    let mut environment = Environment::new();
    environment.define(0, "a".to_string(), number(1.0));
    assert!(is_number(&environment.get(0, &name("a")).unwrap(), 1.0));
    environment.define(0, "a".to_string(), Literal::Boolean(true));
    assert!(matches!(environment.get(0, &name("a")), Ok(Literal::Boolean(true))));
}

#[test]
fn get_searches_outward() {
    let mut environment = Environment::new();
    environment.define(0, "a".to_string(), number(1.0));
    let inner = environment.open_scope(0);
    let innermost = environment.open_scope(inner);
    assert_eq!((inner, innermost), (1, 2));
    assert!(is_number(&environment.get(innermost, &name("a")).unwrap(), 1.0));
    environment.define(inner, "a".to_string(), number(2.0));
    assert!(is_number(&environment.get(innermost, &name("a")).unwrap(), 2.0));
    assert!(is_number(&environment.get(inner, &name("a")).unwrap(), 2.0));
    assert!(is_number(&environment.get(0, &name("a")).unwrap(), 1.0));
}

#[test]
fn get_of_unbound_name_fails() {
    let mut environment = Environment::new();
    let inner = environment.open_scope(0);
    environment.define(inner, "a".to_string(), number(1.0));
    let error = environment.get(0, &name("a")).unwrap_err();
    assert_eq!(error.message, "Undefined variable 'a'.");
    assert_eq!(error.token.as_ref().unwrap().line, 7);
    assert_eq!(error.report(), "Undefined variable 'a'.\n[Line 7 ]");
    assert!(environment.get(99, &name("a")).is_err());
}

#[test]
fn assign_changes_the_scope_that_holds_the_name() {
    let mut environment = Environment::new();
    environment.define(0, "a".to_string(), number(1.0));
    let left = environment.open_scope(0);
    let right = environment.open_scope(0);
    assert!(environment.assign(left, &name("a"), number(5.0)).is_ok());
    assert!(is_number(&environment.get(right, &name("a")).unwrap(), 5.0));
    assert!(is_number(&environment.get(0, &name("a")).unwrap(), 5.0));
    assert_eq!(environment.get_at(left, 0, &"a".to_string()).is_none(), true);
}

#[test]
fn assign_never_declares() {
    let mut environment = Environment::new();
    let inner = environment.open_scope(0);
    let error = environment.assign(inner, &name("a"), number(1.0)).unwrap_err();
    assert_eq!(error.message, "Undefined variable 'a'.");
    assert!(environment.get(inner, &name("a")).is_err());
    assert!(environment.get(0, &name("a")).is_err());
}

#[test]
fn ancestor_counts_scopes_outward() {
    let mut environment = Environment::new();
    let a = environment.open_scope(0);
    let b = environment.open_scope(a);
    let c = environment.open_scope(a);
    assert_eq!(environment.ancestor(b, 0), Some(b));
    assert_eq!(environment.ancestor(b, 1), Some(a));
    assert_eq!(environment.ancestor(c, 1), Some(a));
    assert_eq!(environment.ancestor(c, 2), Some(0));
    assert_eq!(environment.ancestor(c, 3), None);
    assert_eq!(environment.ancestor(17, 0), None);
}

#[test]
fn get_at_looks_in_one_scope_only() {
    let mut environment = Environment::new();
    environment.define(0, "a".to_string(), number(1.0));
    let inner = environment.open_scope(0);
    environment.define(inner, "b".to_string(), number(2.0));
    assert!(environment.get_at(inner, 0, &"a".to_string()).is_none());
    assert!(is_number(&environment.get_at(inner, 1, &"a".to_string()).unwrap(), 1.0));
    assert!(is_number(&environment.get_at(inner, 0, &"b".to_string()).unwrap(), 2.0));
    assert!(environment.get_at(inner, 1, &"b".to_string()).is_none());
    assert!(environment.get_at(inner, 2, &"a".to_string()).is_none());
}

#[test]
fn assign_at_binds_in_the_scope_at_that_distance() {
    let mut environment = Environment::new();
    let inner = environment.open_scope(0);
    let innermost = environment.open_scope(inner);
    assert!(environment.assign_at(innermost, 1, &name("a"), number(3.0)));
    assert!(is_number(&environment.get_at(inner, 0, &"a".to_string()).unwrap(), 3.0));
    assert!(environment.get_at(innermost, 0, &"a".to_string()).is_none());
    assert!(environment.get(0, &name("a")).is_err());
    assert!(!environment.assign_at(innermost, 3, &name("a"), number(4.0)));
    assert!(is_number(&environment.get(innermost, &name("a")).unwrap(), 3.0));
}

#[test]
fn newest_scope_is_given_up_unless_captured() {
    let mut environment = Environment::new();
    let a = environment.open_scope(0);
    let b = environment.open_scope(a);
    environment.close_scope(a);
    assert_eq!(environment.len(), 3);
    environment.close_scope(b);
    assert_eq!(environment.len(), 2);
    environment.capture(a);
    environment.close_scope(a);
    assert_eq!(environment.len(), 2);
    environment.close_scope(0);
    assert_eq!(environment.len(), 2);
    let c = environment.open_scope(a);
    assert_eq!(c, 2);
    environment.define(c, "x".to_string(), number(1.0));
    environment.close_scope(c);
    let d = environment.open_scope(0);
    assert_eq!(d, 2);
    assert!(environment.get(d, &name("x")).is_err());
}

#[test]
fn global_scope_is_never_given_up() {
    let mut environment = Environment::new();
    environment.close_scope(0);
    assert_eq!(environment.len(), 1);
}
