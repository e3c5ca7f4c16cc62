use rslox::expression::Expr;
use rslox::literal::Literal;
use rslox::parser::Parser;
use rslox::statement::Stmt;
use rslox::token::Token;
use rslox::token_kind::TokenKind;

fn is_ten(expr: &Expr) -> bool {
    matches!(expr, Expr::Literal(Literal::Number(bits)) if f64::from_bits(*bits) == 10.0)
}

#[test]
fn test_print_statement_parsing() {
    // Sample tokens for the expression: print 10 + 10 * 10;
    let tokens = vec![
        Token {
            kind: TokenKind::Print,
            lexeme: "print".to_string(),
            line: 1,
            literal: None,
        },
        Token {
            kind: TokenKind::Number,
            lexeme: "10".to_string(),
            line: 1,
            literal: Some(Literal::Number(10.0f64.to_bits())),
        },
        Token {
            kind: TokenKind::Plus,
            lexeme: "+".to_string(),
            line: 1,
            literal: None,
        },
        Token {
            kind: TokenKind::Number,
            lexeme: "10".to_string(),
            line: 1,
            literal: Some(Literal::Number(10.0f64.to_bits())),
        },
        Token {
            kind: TokenKind::Star,
            lexeme: "*".to_string(),
            line: 1,
            literal: None,
        },
        Token {
            kind: TokenKind::Number,
            lexeme: "10".to_string(),
            line: 1,
            literal: Some(Literal::Number(10.0f64.to_bits())),
        },
        Token {
            kind: TokenKind::Semicolon,
            lexeme: ";".to_string(),
            line: 1,
            literal: None,
        },
        Token {
            kind: TokenKind::Eof,
            lexeme: "".to_string(),
            line: 1,
            literal: None,
        },
    ];

    let mut parser = Parser::new(tokens);
    let statements = parser.parse();

    assert_eq!(statements.len(), 1);

    if let Stmt::Print(expr) = &statements[0] {
        if let Expr::Binary(left, operator, right) = expr {
            assert!(is_ten(left));
            assert_eq!(operator.kind, TokenKind::Plus);
            if let Expr::Binary(left_mult, operator_mult, right_mult) = &**right {
                assert!(is_ten(left_mult));
                assert_eq!(operator_mult.kind, TokenKind::Star);
                assert!(is_ten(right_mult));
            } else {
                panic!("Expected a binary expression for the right operand of '+'");
            }
        } else {
            panic!("Expected a binary expression for the print statement");
        }
    } else {
        panic!("Expected a print statement");
    }
}
