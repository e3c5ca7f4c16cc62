use rslox::literal::Literal;
use rslox::scanner::Scanner;
use rslox::token::Token;
use rslox::token_kind::TokenKind;

fn scan(source: &str) -> (Vec<Token>, Vec<(usize, String)>) {
    let mut scanner = Scanner::new(&source.to_string());
    let tokens = scanner.scan_tokens();
    let errors = scanner.errors().iter().map(|e| (e.line, e.message.clone())).collect();
    (tokens, errors)
}

fn kinds(source: &str) -> Vec<TokenKind> {
    scan(source).0.iter().map(|t| t.kind).collect()
}

fn lexemes(source: &str) -> Vec<String> {
    scan(source).0.iter().map(|t| t.lexeme.clone()).collect()
}

#[test]
fn empty_source_gives_eof_alone() {
    let (tokens, errors) = scan("");
    assert_eq!(tokens.len(), 1);
    assert_eq!(tokens[0].kind, TokenKind::Eof);
    assert_eq!(tokens[0].lexeme, "");
    assert_eq!(tokens[0].line, 1);
    assert!(tokens[0].literal.is_none());
    assert!(errors.is_empty());
}

#[test]
fn punctuation_and_operators() {
    assert_eq!(
        kinds("(){},.-+;*/"),
        vec![
            TokenKind::LeftParen,
            TokenKind::RightParen,
            TokenKind::LeftBrace,
            TokenKind::RightBrace,
            TokenKind::Comma,
            TokenKind::Dot,
            TokenKind::Minus,
            TokenKind::Plus,
            TokenKind::Semicolon,
            TokenKind::Star,
            TokenKind::Slash,
            TokenKind::Eof,
        ]
    );
}

#[test]
fn one_character_of_lookahead() {
    assert_eq!(
        kinds("! != = == < <= > >="),
        vec![
            TokenKind::Bang,
            TokenKind::BangEqual,
            TokenKind::Equal,
            TokenKind::EqualEqual,
            TokenKind::Less,
            TokenKind::LessEqual,
            TokenKind::Greater,
            TokenKind::GreaterEqual,
            TokenKind::Eof,
        ]
    );
    assert_eq!(lexemes("!==="), vec!["!=", "==", ""]);
    assert_eq!(lexemes("==="), vec!["==", "=", ""]);
}

#[test]
fn comment_runs_to_the_end_of_the_line() {
    let (tokens, errors) = scan("1 // two ! \" 3\n4 / 5 // end");
    let found: Vec<(TokenKind, String, usize)> =
        tokens.iter().map(|t| (t.kind, t.lexeme.clone(), t.line)).collect();
    assert_eq!(
        found,
        vec![
            (TokenKind::Number, "1".to_string(), 1),
            (TokenKind::Number, "4".to_string(), 2),
            (TokenKind::Slash, "/".to_string(), 2),
            (TokenKind::Number, "5".to_string(), 2),
            (TokenKind::Eof, "".to_string(), 2),
        ]
    );
    assert!(errors.is_empty());
}

#[test]
fn whitespace_is_skipped_and_lines_are_counted() {
    let (tokens, _) = scan(" \t\r\n\n  a\n");
    assert_eq!(tokens.len(), 2);
    assert_eq!(tokens[0].kind, TokenKind::Identifier);
    assert_eq!(tokens[0].line, 3);
    assert_eq!(tokens[1].kind, TokenKind::Eof);
    assert_eq!(tokens[1].line, 4);
}

#[test]
fn string_keeps_its_contents_as_value() {
    let (tokens, errors) = scan("\"hello world\"");
    assert_eq!(tokens[0].kind, TokenKind::String);
    assert_eq!(tokens[0].lexeme, "\"hello world\"");
    assert!(matches!(&tokens[0].literal, Some(Literal::String(text)) if text == "hello world"));
    assert!(errors.is_empty());
    let (tokens, _) = scan("\"\"");
    assert!(matches!(&tokens[0].literal, Some(Literal::String(text)) if text.is_empty()));
}

#[test]
fn string_over_several_lines() {
    let (tokens, errors) = scan("\"a\nb\nc\" x");
    assert_eq!(tokens[0].kind, TokenKind::String);
    assert_eq!(tokens[0].line, 3);
    assert!(matches!(&tokens[0].literal, Some(Literal::String(text)) if text == "a\nb\nc"));
    assert_eq!(tokens[1].kind, TokenKind::Identifier);
    assert_eq!(tokens[1].line, 3);
    assert!(errors.is_empty());
}

#[test]
fn string_with_characters_beyond_ascii() {
    let (tokens, errors) = scan("\"héllo ∀ 🦀\" + 1");
    assert!(matches!(&tokens[0].literal, Some(Literal::String(text)) if text == "héllo ∀ 🦀"));
    assert_eq!(tokens[1].kind, TokenKind::Plus);
    assert!(errors.is_empty());
}

#[test]
fn unterminated_string_is_an_error_and_no_token() {
    let (tokens, errors) = scan("print \"abc\ndef");
    let found: Vec<TokenKind> = tokens.iter().map(|t| t.kind).collect();
    assert_eq!(found, vec![TokenKind::Print, TokenKind::Eof]);
    assert_eq!(errors, vec![(2, "Unterminated string".to_string())]);
    assert_eq!(tokens[1].line, 2);
}

#[test]
fn numbers_take_a_fraction_only_with_digits() {
    assert_eq!(lexemes("123"), vec!["123", ""]);
    assert_eq!(lexemes("12.5"), vec!["12.5", ""]);
    assert_eq!(lexemes("12."), vec!["12", ".", ""]);
    assert_eq!(kinds("12."), vec![TokenKind::Number, TokenKind::Dot, TokenKind::Eof]);
    assert_eq!(lexemes("1.2.3"), vec!["1.2", ".", "3", ""]);
    assert_eq!(lexemes(".5"), vec![".", "5", ""]);
    assert_eq!(lexemes("12.a"), vec!["12", ".", "a", ""]);
    assert_eq!(lexemes("7abc"), vec!["7", "abc", ""]);
}

#[test]
fn number_token_has_no_value_yet() {
    let (tokens, _) = scan("12.5");
    assert_eq!(tokens[0].kind, TokenKind::Number);
    assert!(tokens[0].literal.is_none());
}

#[test]
fn keywords_and_identifiers() {
    assert_eq!(
        kinds("and class else false for fun if nil or print return super this true var while"),
        vec![
            TokenKind::And,
            TokenKind::Class,
            TokenKind::Else,
            TokenKind::False,
            TokenKind::For,
            TokenKind::Fun,
            TokenKind::If,
            TokenKind::Nil,
            TokenKind::Or,
            TokenKind::Print,
            TokenKind::Return,
            TokenKind::Super,
            TokenKind::This,
            TokenKind::True,
            TokenKind::Var,
            TokenKind::While,
            TokenKind::Eof,
        ]
    );
    assert_eq!(
        kinds("android _x x_1 For whiles __ a1b2"),
        vec![
            TokenKind::Identifier,
            TokenKind::Identifier,
            TokenKind::Identifier,
            TokenKind::Identifier,
            TokenKind::Identifier,
            TokenKind::Identifier,
            TokenKind::Identifier,
            TokenKind::Eof,
        ]
    );
    assert_eq!(lexemes("snake_case_1+x"), vec!["snake_case_1", "+", "x", ""]);
}

#[test]
fn unexpected_characters_are_errors_and_scanning_goes_on() {
    let (tokens, errors) = scan("a @ b\n# c é");
    let found: Vec<String> = tokens.iter().map(|t| t.lexeme.clone()).collect();
    assert_eq!(found, vec!["a", "b", "c", ""]);
    assert_eq!(
        errors,
        vec![
            (1, "Unexpected character".to_string()),
            (2, "Unexpected character".to_string()),
            (2, "Unexpected character".to_string()),
        ]
    );
}

#[test]
fn scanning_token_by_token_gives_the_same_tokens() {
    let source = "var a = 1;\nprint a >= 2; // done".to_string();
    let mut stepwise = Scanner::new(&source);
    while !stepwise.is_at_end() {
        stepwise.scan_token();
    }
    stepwise.scan_token();
    let by_steps: Vec<(TokenKind, String, usize)> =
        stepwise.scan_tokens().iter().map(|t| (t.kind, t.lexeme.clone(), t.line)).collect();
    let at_once: Vec<(TokenKind, String, usize)> =
        scan(&source).0.iter().map(|t| (t.kind, t.lexeme.clone(), t.line)).collect();
    assert_eq!(by_steps, at_once);
    assert_eq!(at_once.len(), 11);
}

#[test]
fn advance_reads_one_character() {
    let mut scanner = Scanner::new(&"ab".to_string());
    assert_eq!(scanner.advance(), 'a');
    assert!(!scanner.is_at_end());
    assert_eq!(scanner.advance(), 'b');
    assert!(scanner.is_at_end());
    let tokens = scanner.scan_tokens();
    assert_eq!(tokens.len(), 1);
    assert_eq!(tokens[0].kind, TokenKind::Eof);
}
