use rslox::interpreter::RuntimeError;
use rslox::token::Token;
use rslox::token_kind::TokenKind;

#[test]
fn report_names_the_line_of_the_token() {
    let token = Token { kind: TokenKind::Minus, lexeme: "-".to_string(), line: 12, literal: None };
    let error = RuntimeError::new("Operands must be two numbers".to_string(), Some(token));
    assert_eq!(error.message, "Operands must be two numbers");
    assert_eq!(error.token.as_ref().map(|t| t.line), Some(12));
    assert_eq!(error.report(), "Operands must be two numbers\n[Line 12 ]");
    assert_eq!(error.clone().report(), error.report());
}

#[test]
fn report_without_token_is_the_message() {
    let error = RuntimeError::new("Something failed".to_string(), None);
    assert_eq!(error.report(), "Something failed");
}

#[test]
fn undefined_variable_is_named() {
    let token = Token { kind: TokenKind::Identifier, lexeme: "x1".to_string(), line: 3, literal: None };
    let error = RuntimeError::undefined(&token);
    assert_eq!(error.message, "Undefined variable 'x1'.");
    assert_eq!(error.report(), "Undefined variable 'x1'.\n[Line 3 ]");
}
