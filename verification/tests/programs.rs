use rslox::interpreter::{Action, Event, Interpreter};
use rslox::literal::Literal;
use rslox::machine::{Arithmetic, Request};
use rslox::parser::Parser;
use rslox::scanner::Scanner;
use rslox::token::Token;
use rslox::token_kind::TokenKind;

struct Outcome {
    output: Vec<String>,
    failure: Option<String>,
    syntax: Vec<String>,
}

fn scan(source: &str) -> Vec<Token> {
    let mut scanner = Scanner::new(&source.to_string());
    let mut tokens = scanner.scan_tokens();
    for token in tokens.iter_mut() {
        if token.kind == TokenKind::Number {
            let value: f64 = token.lexeme.parse().unwrap();
            token.literal = Some(Literal::Number(value.to_bits()));
        }
    }
    tokens
}

fn compute(operation: Arithmetic, left: u64, right: u64) -> u64 {
    let a = f64::from_bits(left);
    let b = f64::from_bits(right);
    let result = match operation {
        Arithmetic::Add => a + b,
        Arithmetic::Subtract => a - b,
        Arithmetic::Multiply => a * b,
        Arithmetic::Divide => a / b,
    };
    result.to_bits()
}

fn run(source: &str) -> Outcome {
    let mut parser = Parser::new(scan(source));
    let statements = parser.parse();
    let syntax: Vec<String> = parser.errors().iter().map(|e| e.message.clone()).collect();
    let mut output = Vec::new();
    let mut failure = None;
    let mut interpreter = Interpreter::new();
    interpreter.interpret(&statements);
    let mut event = Event::Resume;
    let mut steps = 0usize;
    loop {
        steps += 1;
        assert!(steps < 10_000_000);
        match interpreter.run(event, 1000) {
            Action::Proceed => event = Event::Resume,
            Action::Print(line) => {
                output.push(line);
                event = Event::Resume;
            }
            Action::Ask(Request::Compute(operation, left, right)) => {
                event = Event::Number(compute(operation, left, right));
            }
            Action::Ask(Request::Render(bits)) => {
                event = Event::Text(f64::from_bits(bits).to_string());
            }
            Action::Finished => break,
            Action::Failed(error) => {
                failure = Some(error.report());
                break;
            }
        }
    }
    Outcome { output, failure, syntax }
}

fn prints(source: &str) -> Vec<String> {
    let outcome = run(source);
    assert_eq!(outcome.syntax, Vec::<String>::new());
    assert_eq!(outcome.failure, None);
    outcome.output
}

#[test]
fn equality_of_numbers_prints_true() {
    assert_eq!(prints("print 1 == 1;"), vec!["true"]);
}

#[test]
fn equality_across_kinds_prints_false() {
    assert_eq!(prints("print 1 == \"1\";"), vec!["false"]);
    assert_eq!(prints("print nil == false;"), vec!["false"]);
    assert_eq!(prints("print 1 != \"1\";"), vec!["true"]);
}

#[test]
fn string_plus_number_joins() {
    assert_eq!(prints("print \"a\" + 1;"), vec!["a1"]);
    assert_eq!(prints("print 1 + \"a\";"), vec!["1a"]);
    assert_eq!(prints("print \"a\" + \"b\";"), vec!["ab"]);
    assert_eq!(prints("print 1.5 + \"\";"), vec!["1.5"]);
}

#[test]
fn number_minus_string_fails_without_output() {
    let outcome = run("print 1 - \"a\";");
    assert_eq!(outcome.output, Vec::<String>::new());
    assert_eq!(outcome.failure, Some("Operands must be two numbers\n[Line 1 ]".to_string()));
}

#[test]
fn plus_refuses_other_kinds() {
    let outcome = run("print 1;\nprint true + 1;\nprint 2;");
    assert_eq!(outcome.output, vec!["1"]);
    assert_eq!(
        outcome.failure,
        Some("Operands must be numbers or strings\n[Line 2 ]".to_string())
    );
}

#[test]
fn inner_block_shadows_without_changing_outer() {
    assert_eq!(prints("var a = 1; { var a = 2; print a; } print a;"), vec!["2", "1"]);
}

#[test]
fn assignment_in_block_reaches_outer_variable() {
    assert_eq!(prints("var a = 1; { a = 2; { a = a + 1; } } print a;"), vec!["3"]);
    assert_eq!(prints("{ var a = 1; { a = 5; } print a; }"), vec!["5"]);
}

#[test]
fn closure_sees_bindings_of_returned_function() {
    let source = "
        fun outer(x) {
            var y = 10;
            fun inner() { return x + y; }
            return inner;
        }
        var f = outer(5);
        print f();
    ";
    assert_eq!(prints(source), vec!["15"]);
}

#[test]
fn closures_share_the_scope_they_captured() {
    let source = "
        fun counter() {
            var count = 0;
            fun increment() { count = count + 1; return count; }
            return increment;
        }
        var a = counter();
        var b = counter();
        print a();
        print a();
        print b();
        print a();
    ";
    assert_eq!(prints(source), vec!["1", "2", "1", "3"]);
}

#[test]
fn closure_keeps_its_binding_when_name_is_declared_again() {
    let source = "
        var a = \"global\";
        {
            fun show() { print a; }
            show();
            var a = \"block\";
            show();
        }
    ";
    assert_eq!(prints(source), vec!["global", "global"]);
}

#[test]
fn for_loop_counts() {
    assert_eq!(prints("for (var i = 0; i < 3; i = i + 1) print i;"), vec!["0", "1", "2"]);
}

#[test]
fn for_loop_without_clauses_runs_until_return() {
    let source = "
        fun first() {
            var i = 0;
            for (;;) { i = i + 1; if (i >= 4) return i; }
        }
        print first();
    ";
    assert_eq!(prints(source), vec!["4"]);
}

#[test]
fn parse_error_leaves_later_statements() {
    let outcome = run("print 1 +; print 2;");
    assert_eq!(outcome.syntax, vec!["[line 1] Error at ';': Expect expression."]);
    assert_eq!(outcome.output, vec!["2"]);
    assert_eq!(outcome.failure, None);
}

#[test]
fn while_loop_and_arithmetic() {
    let source = "
        var i = 0;
        var sum = 0;
        while (i < 5) { sum = sum + i * 2; i = i + 1; }
        print sum;
        print 7 / 2;
        print 10 - 4 - 3;
        print -(1 + 2);
    ";
    assert_eq!(prints(source), vec!["20", "3.5", "3", "-3"]);
}

#[test]
fn comparisons_of_numbers() {
    assert_eq!(
        prints("print 1 < 2; print 2 <= 2; print 1 > 2; print 2 >= 3; print 0 == -0;"),
        vec!["true", "true", "false", "false", "true"]
    );
    assert_eq!(prints("print 0/0 == 0/0; print 0/0 < 1;"), vec!["false", "false"]);
}

#[test]
fn comparison_refuses_strings() {
    let outcome = run("print \"a\" < \"b\";");
    assert_eq!(outcome.failure, Some("Operands must be two numbers\n[Line 1 ]".to_string()));
}

#[test]
fn logical_operators_short_circuit() {
    let source = "
        var calls = 0;
        fun touch() { calls = calls + 1; return 7; }
        print true or touch();
        print nil and touch();
        print calls;
        print false or touch();
        print 1 and touch();
        print nil or \"x\";
        print calls;
    ";
    assert_eq!(prints(source), vec!["true", "false", "0", "7", "7", "x", "2"]);
}

#[test]
fn unary_operators() {
    assert_eq!(
        prints("print !true; print !nil; print !0; print !\"\"; print -3; print --3;"),
        vec!["false", "true", "false", "false", "-3", "3"]
    );
    let outcome = run("print -\"a\";");
    assert_eq!(outcome.failure, Some("Operand must be a number.\n[Line 1 ]".to_string()));
}

#[test]
fn printed_forms() {
    assert_eq!(
        prints("print nil; print true; print false; print \"text\"; print 10; print 0.1 + 0.2;"),
        vec!["nil", "true", "false", "text", "10", "0.30000000000000004"]
    );
    assert_eq!(prints("fun f() {} print f;"), vec!["<fn>"]);
}

#[test]
fn function_without_return_gives_nil() {
    assert_eq!(prints("fun f() { 1; } print f(); fun g() { return; } print g();"), vec!["nil", "nil"]);
}

#[test]
fn return_leaves_loops_and_blocks() {
    let source = "
        fun find() {
            var i = 0;
            while (true) {
                { if (i == 3) { return i; } }
                i = i + 1;
            }
        }
        print find();
        print \"after\";
    ";
    assert_eq!(prints(source), vec!["3", "after"]);
}

#[test]
fn recursion() {
    let source = "
        fun fib(n) { if (n < 2) return n; return fib(n - 1) + fib(n - 2); }
        print fib(15);
    ";
    assert_eq!(prints(source), vec!["610"]);
}

#[test]
fn arguments_are_evaluated_left_to_right() {
    let source = "
        fun show(x) { print x; return x; }
        fun three(a, b, c) { return a + b + c; }
        print three(show(1), show(2), show(3));
    ";
    assert_eq!(prints(source), vec!["1", "2", "3", "6"]);
}

#[test]
fn wrong_number_of_arguments_fails() {
    let outcome = run("fun f(a, b) {}\nf(1);");
    assert_eq!(outcome.failure, Some("Expected 2 arguments but got 1.\n[Line 2 ]".to_string()));
    let outcome = run("fun f() {}\nf(1, 2, 3);");
    assert_eq!(outcome.failure, Some("Expected 0 arguments but got 3.\n[Line 2 ]".to_string()));
}

#[test]
fn calling_what_is_no_function_fails() {
    let outcome = run("var a = 1; a();");
    assert_eq!(outcome.failure, Some("Can only call functions.\n[Line 1 ]".to_string()));
    let outcome = run("\"text\"();");
    assert_eq!(outcome.failure, Some("Can only call functions.\n[Line 1 ]".to_string()));
}

#[test]
fn undefined_variable_fails() {
    let outcome = run("print 1;\nprint missing;\nprint 2;");
    assert_eq!(outcome.output, vec!["1"]);
    assert_eq!(outcome.failure, Some("Undefined variable 'missing'.\n[Line 2 ]".to_string()));
}

#[test]
fn assignment_never_declares() {
    let outcome = run("missing = 1;");
    assert_eq!(outcome.failure, Some("Undefined variable 'missing'.\n[Line 1 ]".to_string()));
}

#[test]
fn assignment_yields_the_value() {
    assert_eq!(prints("var a; var b; a = b = 3; print a; print b; print a = 4;"), vec!["3", "3", "4"]);
}

#[test]
fn variable_without_initializer_is_nil() {
    assert_eq!(prints("var a; print a;"), vec!["nil"]);
}

#[test]
fn endless_recursion_fails_with_stack_overflow() {
    let outcome = run("fun f() { return f(); }\nf();");
    assert_eq!(outcome.failure, Some("Stack overflow.\n[Line 1 ]".to_string()));
}

#[test]
fn functions_are_equal_to_themselves_only() {
    let source = "
        fun make() { fun inner() {} return inner; }
        var a = make();
        var b = make();
        print a == a;
        print a == b;
        print make == make;
    ";
    assert_eq!(prints(source), vec!["true", "false", "true"]);
}

#[test]
fn if_else_chooses_by_truthiness() {
    assert_eq!(
        prints("if (0) print \"yes\"; else print \"no\"; if (nil) print \"yes\"; else print \"no\"; if (false) print 1;"),
        vec!["yes", "no"]
    );
}

#[test]
fn return_at_top_level_ends_the_program() {
    assert_eq!(prints("print 1; return; print 2;"), vec!["1"]);
}

#[test]
fn numeral_survives_rendering_and_scanning_again() {
    for numeral in ["0", "1", "10", "3.25", "0.1", "123456789.125", "007", "1.50", "9007199254740993"] {
        let first = scan(numeral);
        let Some(Literal::Number(bits)) = first[0].literal else { panic!("no number") };
        let rendered = f64::from_bits(bits).to_string();
        let second = scan(&rendered);
        assert_eq!(second[0].kind, TokenKind::Number);
        assert_eq!(second[0].lexeme, rendered);
        let Some(Literal::Number(again)) = second[0].literal else { panic!("no number") };
        assert_eq!(f64::from_bits(again), f64::from_bits(bits));
    }
}

#[test]
fn step_repeats_an_open_request_until_answered() {
    let mut parser = Parser::new(scan("print 1 + 2;"));
    let statements = parser.parse();
    let mut interpreter = Interpreter::new();
    interpreter.interpret(&statements);
    let one = 1.0f64.to_bits();
    let two = 2.0f64.to_bits();
    let three = 3.0f64.to_bits();
    let asked = interpreter.run(Event::Resume, 1000);
    assert!(matches!(asked, Action::Ask(Request::Compute(Arithmetic::Add, a, b)) if a == one && b == two));
    let again = interpreter.step(Event::Resume);
    assert!(matches!(again, Action::Ask(Request::Compute(Arithmetic::Add, a, b)) if a == one && b == two));
    let again = interpreter.step(Event::Text("3".to_string()));
    assert!(matches!(again, Action::Ask(Request::Compute(Arithmetic::Add, _, _))));
    let render = interpreter.run(Event::Number(three), 1000);
    assert!(matches!(render, Action::Ask(Request::Render(bits)) if bits == three));
    let print = interpreter.run(Event::Text("3".to_string()), 1000);
    assert!(matches!(print, Action::Print(line) if line == "3"));
    assert!(matches!(interpreter.run(Event::Resume, 1000), Action::Finished));
    assert!(matches!(interpreter.step(Event::Resume), Action::Finished));
}

#[test]
fn run_stops_at_its_limit() {
    let mut parser = Parser::new(scan("while (true) {}"));
    let statements = parser.parse();
    let mut interpreter = Interpreter::new();
    interpreter.interpret(&statements);
    assert!(matches!(interpreter.run(Event::Resume, 0), Action::Proceed));
    assert!(matches!(interpreter.run(Event::Resume, 500), Action::Proceed));
    assert!(matches!(interpreter.pending(), Action::Proceed));
}

fn scopes_left(source: &str) -> usize {
    let mut parser = Parser::new(scan(source));
    let statements = parser.parse();
    assert!(parser.errors().is_empty());
    let mut interpreter = Interpreter::new();
    interpreter.interpret(&statements);
    let mut event = Event::Resume;
    loop {
        match interpreter.run(event, 1000) {
            Action::Proceed | Action::Print(_) => event = Event::Resume,
            Action::Ask(Request::Compute(operation, left, right)) => {
                event = Event::Number(compute(operation, left, right));
            }
            Action::Ask(Request::Render(bits)) => {
                event = Event::Text(f64::from_bits(bits).to_string());
            }
            Action::Finished => break,
            Action::Failed(error) => panic!("{}", error.report()),
        }
    }
    interpreter.environment().len()
}

#[test]
fn scopes_of_finished_blocks_and_calls_are_given_up() {
    assert_eq!(scopes_left("var i = 0; while (i < 200) { var x = i; { i = x + 1; } }"), 1);
    assert_eq!(
        scopes_left("fun f(n) { if (n < 1) return 0; { return f(n - 1) + 1; } } print f(50);"),
        1
    );
    assert_eq!(scopes_left("for (var i = 0; i < 10; i = i + 1) { print i; }"), 1);
}

#[test]
fn scope_of_a_closure_stays() {
    let source = "
        fun counter() { var n = 0; fun next() { n = n + 1; return n; } return next; }
        var a = counter();
        var b = counter();
        print a() + b();
    ";
    assert_eq!(scopes_left(source), 3);
}

#[test]
fn each_turn_of_a_loop_has_its_own_scope() {
    let source = "
        var first;
        var second;
        for (var i = 0; i < 2; i = i + 1) {
            var j = i * 10;
            fun get() { return j; }
            if (i == 0) first = get; else second = get;
        }
        print first();
        print second();
    ";
    assert_eq!(prints(source), vec!["0", "10"]);
}

#[test]
fn scopes_are_right_after_returns_from_inside_blocks() {
    let source = "
        fun pick(n) {
            var seen = 0;
            while (true) {
                var here = seen;
                { { if (here == n) return here * 2; } }
                seen = seen + 1;
            }
        }
        var total = 0;
        for (var i = 0; i < 5; i = i + 1) {
            var got = pick(i);
            { var again = pick(got); total = total + again; }
        }
        print total;
    ";
    assert_eq!(prints(source), vec!["40"]);
}

#[test]
fn functions_nested_three_deep() {
    let source = "
        fun a(x) {
            fun b(y) {
                fun c(z) { return x + y + z; }
                return c;
            }
            return b;
        }
        print a(1)(2)(3);
        var b1 = a(10);
        var c1 = b1(20);
        var c2 = b1(30);
        print c1(1);
        print c2(1);
    ";
    assert_eq!(prints(source), vec!["6", "31", "41"]);
}

#[test]
fn global_functions_may_call_each_other() {
    let source = "
        fun even(n) { if (n == 0) return true; return odd(n - 1); }
        fun odd(n) { if (n == 0) return false; return even(n - 1); }
        print even(10);
        print odd(7);
    ";
    assert_eq!(prints(source), vec!["true", "true"]);
}

#[test]
fn parameter_shadows_outer_variable() {
    let source = "
        var x = \"outer\";
        fun show(x) { print x; x = \"changed\"; print x; }
        show(\"inner\");
        print x;
    ";
    assert_eq!(prints(source), vec!["inner", "changed", "outer"]);
}

#[test]
fn local_variable_used_in_its_own_initializer_is_the_outer_one() {
    assert_eq!(prints("var a = 1; { var a = a + 1; print a; } print a;"), vec!["2", "1"]);
}

#[test]
fn deep_recursion_below_the_limit_runs() {
    let source = "
        fun down(n) { if (n == 0) return 0; return 1 + down(n - 1); }
        print down(5000);
    ";
    assert_eq!(prints(source), vec!["5000"]);
}

#[test]
fn failure_inside_a_call_ends_the_program() {
    let outcome = run("fun f() { print 1; return nil + 1; }\nprint 0;\nf();\nprint 2;");
    assert_eq!(outcome.output, vec!["0", "1"]);
    assert_eq!(
        outcome.failure,
        Some("Operands must be numbers or strings\n[Line 1 ]".to_string())
    );
}

#[test]
fn large_and_special_numbers_print_as_doubles() {
    assert_eq!(
        prints("print 1/0; print -1/0; print 0/0; print 100000000000000000000 * 10; print 1 / 3;"),
        vec!["inf", "-inf", "NaN", "1000000000000000000000", "0.3333333333333333"]
    );
}
