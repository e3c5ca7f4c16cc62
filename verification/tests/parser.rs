use rslox::expression::Expr;
use rslox::literal::Literal;
use rslox::parser::Parser;
use rslox::scanner::Scanner;
use rslox::statement::Stmt;
use rslox::token::Token;
use rslox::token_kind::TokenKind;

fn scan(source: &str) -> Vec<Token> {
    let mut scanner = Scanner::new(&source.to_string());
    let mut tokens = scanner.scan_tokens();
    for token in tokens.iter_mut() {
        if token.kind == TokenKind::Number {
            let value: f64 = token.lexeme.parse().unwrap();
            token.literal = Some(Literal::Number(value.to_bits()));
        }
    }
    tokens
}

fn parse(source: &str) -> (Vec<Stmt>, Vec<String>) {
    let mut parser = Parser::new(scan(source));
    let statements = parser.parse();
    let errors = parser.errors().iter().map(|e| e.message.clone()).collect();
    (statements, errors)
}

fn show_value(value: &Literal) -> String {
    match value {
        Literal::Number(bits) => f64::from_bits(*bits).to_string(),
        Literal::String(text) => format!("{:?}", text),
        Literal::Boolean(b) => b.to_string(),
        Literal::Nil => "nil".to_string(),
        Literal::Callable(id) => format!("<fn {}>", id),
    }
}

fn show(expr: &Expr) -> String {
    match expr {
        Expr::Literal(value) => show_value(value),
        Expr::Variable(name, _) => name.lexeme.clone(),
        Expr::Assign(name, _, value) => format!("(= {} {})", name.lexeme, show(value)),
        Expr::Binary(left, operator, right) => {
            format!("({} {} {})", operator.lexeme, show(left), show(right))
        }
        Expr::Logical(left, operator, right) => {
            format!("[{} {} {}]", operator.lexeme, show(left), show(right))
        }
        Expr::Unary(operator, operand) => format!("({} {})", operator.lexeme, show(operand)),
        Expr::Grouping(inner) => format!("(group {})", show(inner)),
        Expr::Call(callee, _, arguments) => {
            let mut text = format!("(call {}", show(callee));
            for argument in arguments {
                text.push(' ');
                text.push_str(&show(argument));
            }
            text.push(')');
            text
        }
    }
}

fn show_stmt(stmt: &Stmt) -> String {
    match stmt {
        Stmt::Expression(expr) => format!("{};", show(expr)),
        Stmt::Print(expr) => format!("print {};", show(expr)),
        Stmt::Var(name, None) => format!("var {};", name.lexeme),
        Stmt::Var(name, Some(expr)) => format!("var {} = {};", name.lexeme, show(expr)),
        Stmt::Block(statements) => format!("{{ {} }}", show_all(statements)),
        Stmt::If(condition, then_branch, None) => {
            format!("if {} then {}", show(condition), show_stmt(then_branch))
        }
        Stmt::If(condition, then_branch, Some(else_branch)) => format!(
            "if {} then {} else {}",
            show(condition),
            show_stmt(then_branch),
            show_stmt(else_branch)
        ),
        Stmt::While(condition, body) => format!("while {} do {}", show(condition), show_stmt(body)),
        Stmt::Function(name, parameters, body) => {
            let names: Vec<String> = parameters.iter().map(|p| p.lexeme.clone()).collect();
            format!("fun {}({}) {{ {} }}", name.lexeme, names.join(", "), show_all(body))
        }
        Stmt::Return(_, None) => "return;".to_string(),
        Stmt::Return(_, Some(expr)) => format!("return {};", show(expr)),
    }
}

fn show_all(statements: &[Stmt]) -> String {
    let shown: Vec<String> = statements.iter().map(show_stmt).collect();
    shown.join(" ")
}

fn parsed(source: &str) -> String {
    let (statements, errors) = parse(source);
    assert_eq!(errors, Vec::<String>::new());
    show_all(&statements)
}

#[test]
fn multiplication_binds_tighter_than_addition() {
    assert_eq!(parsed("print 10 + 10 * 10;"), "print (+ 10 (* 10 10));");
    assert_eq!(parsed("print 10 * 10 + 10;"), "print (+ (* 10 10) 10);");
}

#[test]
fn every_level_of_precedence() {
    assert_eq!(
        parsed("a = b or c and d == e < f + g * -h;"),
        "(= a [or b [and c (== d (< e (+ f (* g (- h)))))]]);"
    );
    assert_eq!(parsed("1 < 2 == 3 > 4 != 5 <= 6;"), "(!= (== (< 1 2) (> 3 4)) (<= 5 6));");
}

#[test]
fn operators_group_to_the_left() {
    assert_eq!(parsed("1 - 2 - 3;"), "(- (- 1 2) 3);");
    assert_eq!(parsed("8 / 4 / 2 * 3;"), "(* (/ (/ 8 4) 2) 3);");
    assert_eq!(parsed("a or b or c;"), "[or [or a b] c];");
    assert_eq!(parsed("a and b and c;"), "[and [and a b] c];");
    assert_eq!(parsed("a or b and c or d;"), "[or [or a [and b c]] d];");
}

#[test]
fn unary_operators_nest_to_the_right() {
    assert_eq!(parsed("!!a;"), "(! (! a));");
    assert_eq!(parsed("-!-a;"), "(- (! (- a)));");
    assert_eq!(parsed("- a * b;"), "(* (- a) b);");
}

#[test]
fn grouping_overrides_precedence() {
    assert_eq!(parsed("(1 + 2) * 3;"), "(* (group (+ 1 2)) 3);");
}

#[test]
fn literals() {
    assert_eq!(parsed("true; false; nil; 1.5; \"s\";"), "true; false; nil; 1.5; \"s\";");
}

#[test]
fn calls_chain() {
    assert_eq!(parsed("f();"), "(call f);");
    assert_eq!(parsed("f(1, a + b)(c)();"), "(call (call (call f 1 (+ a b)) c));");
    assert_eq!(parsed("-f(1);"), "(- (call f 1));");
}

#[test]
fn call_keeps_its_closing_parenthesis() {
    let (statements, _) = parse("f(\n1\n);");
    let Stmt::Expression(Expr::Call(_, paren, _)) = &statements[0] else { panic!("no call") };
    assert_eq!(paren.kind, TokenKind::RightParen);
    assert_eq!(paren.line, 3);
}

#[test]
fn assignment_groups_to_the_right() {
    assert_eq!(parsed("a = b = c;"), "(= a (= b c));");
}

#[test]
fn references_are_numbered_by_their_token() {
    let (statements, _) = parse("a = b + a;");
    let Stmt::Expression(Expr::Assign(_, target, value)) = &statements[0] else {
        panic!("no assignment")
    };
    let Expr::Binary(left, _, right) = &**value else { panic!("no sum") };
    let Expr::Variable(_, first) = &**left else { panic!("no variable") };
    let Expr::Variable(_, second) = &**right else { panic!("no variable") };
    assert_eq!((*target, *first, *second), (0, 2, 4));
}

#[test]
fn invalid_assignment_target_is_an_error() {
    let (statements, errors) = parse("1 = 2; (a) = 3; a + b = c; print 4;");
    assert_eq!(show_all(&statements), "print 4;");
    assert_eq!(
        errors,
        vec![
            "[line 1] Error at '=': Invalid assignment target.",
            "[line 1] Error at '=': Invalid assignment target.",
            "[line 1] Error at '=': Invalid assignment target.",
        ]
    );
}

#[test]
fn statements_of_each_kind() {
    assert_eq!(parsed("var a;"), "var a;");
    assert_eq!(parsed("var a = 1 + 2;"), "var a = (+ 1 2);");
    assert_eq!(parsed("{ var a; print a; { } }"), "{ var a; print a; {  } }");
    assert_eq!(parsed("if (a) print 1;"), "if a then print 1;");
    assert_eq!(parsed("if (a) print 1; else print 2;"), "if a then print 1; else print 2;");
    assert_eq!(parsed("while (a < 3) a = a + 1;"), "while (< a 3) do (= a (+ a 1));");
    assert_eq!(parsed("fun f() { return; }"), "fun f() { return; }");
    assert_eq!(parsed("fun add(a, b) { return a + b; }"), "fun add(a, b) { return (+ a b); }");
}

#[test]
fn else_belongs_to_the_nearest_if() {
    assert_eq!(
        parsed("if (a) if (b) print 1; else print 2;"),
        "if a then if b then print 1; else print 2;"
    );
}

#[test]
fn for_becomes_a_while_in_blocks() {
    assert_eq!(
        parsed("for (var i = 0; i < 3; i = i + 1) print i;"),
        "{ var i = 0; while (< i 3) do { print i; (= i (+ i 1)); } }"
    );
    assert_eq!(parsed("for (;;) print 1;"), "while true do print 1;");
    assert_eq!(parsed("for (i = 0;;) print 1;"), "{ (= i 0); while true do print 1; }");
    assert_eq!(parsed("for (; a;) print 1;"), "while a do print 1;");
    assert_eq!(parsed("for (;; a) print 1;"), "while true do { print 1; a; }");
}

#[test]
fn return_keeps_its_keyword() {
    let (statements, _) = parse("fun f() {\n return 1; }");
    let Stmt::Function(_, _, body) = &statements[0] else { panic!("no function") };
    let Stmt::Return(keyword, _) = &body[0] else { panic!("no return") };
    assert_eq!(keyword.kind, TokenKind::Return);
    assert_eq!(keyword.line, 2);
}

#[test]
fn errors_name_line_and_token() {
    assert_eq!(parse("print 1").1, vec!["[line 1] Error at '': Expect ';' after value."]);
    assert_eq!(parse("1 + 2").1, vec!["[line 1] Error at '': Expect ';' after expression."]);
    assert_eq!(parse("\n\nvar 1;").1, vec!["[line 3] Error at '1': Expect variable name."]);
    assert_eq!(
        parse("var a = 1 print a;").1,
        vec!["[line 1] Error at 'print': Expect ';' after variable declaration."]
    );
    assert_eq!(parse("var a 1;").1, vec!["[line 1] Error at '1': Expect ';' after variable declaration."]);
    assert_eq!(parse("(1 + 2;").1, vec!["[line 1] Error at ';': Expect ')' after expression."]);
    assert_eq!(parse("+;").1, vec!["[line 1] Error at '+': Expect expression."]);
    assert_eq!(parse("{ print 1;").1, vec!["[line 1] Error at '': Expect '}' after block."]);
    assert_eq!(parse("if a) b;").1, vec!["[line 1] Error at 'a': Expect '(' after 'if'."]);
    assert_eq!(parse("if (a b;").1, vec!["[line 1] Error at 'b': Expect ')' after if condition."]);
    assert_eq!(parse("while a) b;").1, vec!["[line 1] Error at 'a': Expect '(' after 'while'."]);
    assert_eq!(parse("while (a b;").1, vec!["[line 1] Error at 'b': Expect ')' after condition."]);
    assert_eq!(parse("for a; b;").1, vec!["[line 1] Error at 'a': Expect '(' after 'for'."]);
    assert_eq!(parse("for (;a b; c;").1, vec!["[line 1] Error at 'b': Expect ';' after loop condition."]);
    assert_eq!(parse("for (;;a b) c;").1, vec!["[line 1] Error at 'b': Expect ')' after for clauses."]);
    assert_eq!(parse("return 1 2;").1, vec!["[line 1] Error at '2': Expect ';' after return value."]);
    assert_eq!(parse("f(1 2);").1, vec!["[line 1] Error at '2': Expect ')' after arguments."]);
    assert_eq!(parse("fun (a) {}").1, vec!["[line 1] Error at '(': Expect function name."]);
    assert_eq!(parse("fun f a) {}").1, vec!["[line 1] Error at 'a': Expect '(' after function name."]);
    assert_eq!(parse("fun f(1) {}").1, vec!["[line 1] Error at '1': Expect parameter name."]);
    assert_eq!(parse("fun f(a b) {}").1, vec!["[line 1] Error at 'b': Expect ')' after parameters."]);
    assert_eq!(parse("fun f(a) print a;").1, vec!["[line 1] Error at 'print': Expect '{' before function body."]);
}

#[test]
fn synchronization_stops_behind_a_semicolon() {
    let (statements, errors) = parse("for a;;) b; print c;");
    assert_eq!(show_all(&statements), "print c;");
    assert_eq!(
        errors,
        vec![
            "[line 1] Error at 'a': Expect '(' after 'for'.",
            "[line 1] Error at ';': Expect expression.",
            "[line 1] Error at ')': Expect expression.",
        ]
    );
}

#[test]
fn error_in_one_declaration_leaves_the_others() {
    let (statements, errors) = parse("var a = ;\nprint 1;\nprint +;\nvar b = 2;\nprint (b;");
    assert_eq!(show_all(&statements), "print 1; var b = 2;");
    assert_eq!(
        errors,
        vec![
            "[line 1] Error at ';': Expect expression.",
            "[line 3] Error at '+': Expect expression.",
            "[line 5] Error at ';': Expect ')' after expression.",
        ]
    );
}

#[test]
fn synchronization_stops_before_a_keyword() {
    let (statements, errors) = parse("1 2 3 print 4; 5 6 var a; 7 8 if (a) b;");
    assert_eq!(show_all(&statements), "print 4; var a; if a then b;");
    assert_eq!(errors.len(), 3);
}

#[test]
fn error_inside_a_block_leaves_the_rest_of_the_block() {
    let (statements, errors) = parse("{ print 1; print ; print 2; } print 3;");
    assert_eq!(show_all(&statements), "{ print 1; print 2; } print 3;");
    assert_eq!(errors, vec!["[line 1] Error at ';': Expect expression."]);
}

#[test]
fn at_most_255_arguments_and_parameters() {
    let list = |n: usize| (0..n).map(|i| format!("a{}", i)).collect::<Vec<String>>().join(", ");
    let (statements, errors) = parse(&format!("f({});", list(255)));
    assert_eq!(errors, Vec::<String>::new());
    let Stmt::Expression(Expr::Call(_, _, arguments)) = &statements[0] else { panic!("no call") };
    assert_eq!(arguments.len(), 255);

    let (statements, errors) = parse(&format!("f({}); print 1;", list(256)));
    assert_eq!(show_all(&statements), "print 1;");
    assert_eq!(errors, vec!["[line 1] Error at 'a255': Can't have more than 255 arguments."]);

    let (statements, errors) = parse(&format!("fun f({}) {{}}", list(255)));
    assert_eq!(errors, Vec::<String>::new());
    let Stmt::Function(_, parameters, _) = &statements[0] else { panic!("no function") };
    assert_eq!(parameters.len(), 255);

    let (_, errors) = parse(&format!("fun f({}) {{}}", list(256)));
    assert_eq!(errors, vec!["[line 1] Error at 'a255': Can't have more than 255 parameters."]);
}

#[test]
fn number_token_without_value_is_an_error() {
    let mut scanner = Scanner::new(&"print 1; print 2;".to_string());
    let mut tokens = scanner.scan_tokens();
    tokens[4].literal = Some(Literal::Number(2.0f64.to_bits()));
    let mut parser = Parser::new(tokens);
    let statements = parser.parse();
    assert_eq!(show_all(&statements), "print 2;");
    let errors: Vec<String> = parser.errors().iter().map(|e| e.message.clone()).collect();
    assert_eq!(errors, vec!["[line 1] Error at '1': Expect literal value."]);
}

#[test]
fn tokens_without_eof_are_given_one() {
    let mut tokens = scan("print 1;");
    tokens.pop();
    let mut parser = Parser::new(tokens);
    assert_eq!(show_all(&parser.parse()), "print 1;");
    assert!(parser.errors().is_empty());

    let mut parser = Parser::new(Vec::new());
    assert!(parser.parse().is_empty());
    assert!(parser.errors().is_empty());

    let mut tokens = scan("print 1");
    tokens.pop();
    let mut parser = Parser::new(tokens);
    assert!(parser.parse().is_empty());
    let errors: Vec<String> = parser.errors().iter().map(|e| e.message.clone()).collect();
    assert_eq!(errors, vec!["[line 1] Error at '': Expect ';' after value."]);
}

#[test]
fn parsing_stops_at_the_first_eof() {
    let mut tokens = scan("print 1;");
    tokens.extend(scan("print 2;"));
    let mut parser = Parser::new(tokens);
    assert_eq!(show_all(&parser.parse()), "print 1;");
}
