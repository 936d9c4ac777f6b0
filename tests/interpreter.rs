use rlox::ast::{BinaryOp, Expr, LiteralValue, Stmt, Token, TokenKind, UnaryOp};
use rlox::interpreter::{binary_op, unary_op, Interpreter, NumberOp};
use rlox::object::{compare_numbers, negate_number, Object};
use rlox::parser::Parser;
use rlox::result::Error;
use rlox::scanner::Scanner;
use rlox::{evaluate, run, Interpret};
use std::cmp::Ordering;

fn host(op: NumberOp) -> u32 {
    match op {
        NumberOp::Literal(text) => text.parse::<f32>().unwrap().to_bits(),
        NumberOp::Add(a, b) => (f32::from_bits(a) + f32::from_bits(b)).to_bits(),
        NumberOp::Subtract(a, b) => (f32::from_bits(a) - f32::from_bits(b)).to_bits(),
        NumberOp::Multiply(a, b) => (f32::from_bits(a) * f32::from_bits(b)).to_bits(),
        NumberOp::Divide(a, b) => (f32::from_bits(a) / f32::from_bits(b)).to_bits(),
    }
}

fn render(value: &Object) -> String {
    match value {
        Object::Number(bits) => f32::from_bits(*bits).to_string(),
        Object::String(s) => s.clone(),
        Object::True => String::from("true"),
        Object::False => String::from("false"),
        Object::Nil => String::from("nil"),
    }
}

fn printed(source: &str) -> Vec<String> {
    let (values, result) = evaluate(source, &host);
    assert!(result.is_ok(), "{:?}", result);
    values.iter().map(render).collect()
}

fn num(x: f32) -> Object {
    Object::Number(x.to_bits())
}

fn name(lexeme: &str, line: usize) -> Token {
    Token {
        kind: TokenKind::Identifier,
        line,
        lexeme: String::from(lexeme),
        literal: String::from(lexeme),
    }
}

#[test]
fn multiplication_binds_tighter_than_addition() {
    let tokens = Scanner::scan("1 + 1 * 2;").unwrap();
    let statements = Parser::parse(tokens).unwrap();
    let one = || Box::new(Expr::Literal(LiteralValue::Number(String::from("1"))));
    let two = Box::new(Expr::Literal(LiteralValue::Number(String::from("2"))));
    let expected = Expr::Binary(
        one(),
        BinaryOp::Plus,
        Box::new(Expr::Binary(one(), BinaryOp::Star, two, 1)),
        1,
    );
    assert_eq!(statements, vec![Stmt::Expression(Box::new(expected))]);
}

#[test]
fn expression_tokens_parse_with_precedence() {
    let tokens = Scanner::scan("1 + 1 * 2").unwrap();
    let n = |s: &str| Box::new(Expr::Literal(LiteralValue::Number(String::from(s))));
    let expected = Expr::Binary(n("1"), BinaryOp::Plus, Box::new(Expr::Binary(n("1"), BinaryOp::Star, n("2"), 1)), 1);
    assert_eq!(Parser::parse_expression(tokens).unwrap(), expected);

    match Parser::parse_expression(Scanner::scan("1 2").unwrap()) {
        Err(Error::Parser(1, msg)) => assert_eq!(msg, "Expected end of input."),
        other => panic!("unexpected {:?}", other),
    }
    let grouped = Parser::parse_expression(Scanner::scan("-(1)").unwrap()).unwrap();
    assert_eq!(grouped, Expr::Unary(UnaryOp::Neg, Box::new(Expr::Grouping(n("1"))), 1));
}

#[test]
fn binary_levels_fold_to_the_left() {
    let tokens = Scanner::scan("8 - 4 - 2;").unwrap();
    let statements = Parser::parse(tokens).unwrap();
    let n = |s: &str| Box::new(Expr::Literal(LiteralValue::Number(String::from(s))));
    let expected = Expr::Binary(
        Box::new(Expr::Binary(n("8"), BinaryOp::Minus, n("4"), 1)),
        BinaryOp::Minus,
        n("2"),
        1,
    );
    assert_eq!(statements, vec![Stmt::Expression(Box::new(expected))]);
    assert_eq!(printed("print 8 - 4 - 2;"), vec!["2"]);
}

#[test]
fn assignment_is_right_associative_and_needs_a_variable() {
    let tokens = Scanner::scan("a = b = 1;").unwrap();
    let statements = Parser::parse(tokens).unwrap();
    let expected = Expr::Assign(
        name("a", 1),
        Box::new(Expr::Assign(
            name("b", 1),
            Box::new(Expr::Literal(LiteralValue::Number(String::from("1")))),
        )),
    );
    assert_eq!(statements, vec![Stmt::Expression(Box::new(expected))]);

    let errors = Parser::parse(Scanner::scan("a + b = c;").unwrap()).unwrap_err();
    assert_eq!(errors.len(), 1);
    match &errors[0] {
        Error::Parser(line, msg) => {
            assert_eq!(*line, 1);
            assert_eq!(msg, "Invalid assignment target.");
        }
        other => panic!("unexpected {:?}", other),
    }
}

#[test]
fn parser_reports_each_failed_declaration() {
    let errors = Parser::parse(Scanner::scan("var 1;\nprint (2;\nprint 3;").unwrap()).unwrap_err();
    let found: Vec<(usize, String)> = errors
        .iter()
        .map(|e| match e {
            Error::Parser(line, msg) => (*line, msg.clone()),
            other => panic!("unexpected {:?}", other),
        })
        .collect();
    assert_eq!(
        found,
        vec![
            (1, String::from("Expected variable name.")),
            (2, String::from("Expected ')' after expression.")),
        ]
    );
}

#[test]
fn parser_messages_for_missing_tokens() {
    let first = |src: &str| match &Parser::parse(Scanner::scan(src).unwrap()).unwrap_err()[0] {
        Error::Parser(_, msg) => msg.clone(),
        other => panic!("unexpected {:?}", other),
    };
    assert_eq!(first("var a = 1"), "Expected ';' after variable declaration.");
    assert_eq!(first("print 1"), "Expected ';' after value");
    assert_eq!(first("1"), "Expected ';' after expression");
    assert_eq!(first("{ print 1;"), "Expected '}' after block.");
    assert_eq!(first("1 +;"), "Expected expression");
}

#[test]
fn truthiness_of_not() {
    assert_eq!(printed("print !nil;"), vec!["true"]);
    assert_eq!(printed("print !0;"), vec!["false"]);
    assert_eq!(printed("print !\"\";"), vec!["false"]);
    assert_eq!(printed("print !\"x\";"), vec!["false"]);
    assert_eq!(printed("print !false; print !true;"), vec!["true", "false"]);
}

#[test]
fn inner_block_shadows_and_outer_binding_returns() {
    assert_eq!(printed("var a = 1; { var a = 2; print a; } print a;"), vec!["2", "1"]);
}

#[test]
fn assignment_in_a_block_reaches_the_enclosing_scope() {
    assert_eq!(printed("var a = 1; { a = 3; } print a;"), vec!["3"]);
}

#[test]
fn division_by_zero_follows_ieee() {
    assert_eq!(printed("print 1 / 0;"), vec!["inf"]);
    assert_eq!(printed("print -1 / 0;"), vec!["-inf"]);
    assert_eq!(printed("print 0 / 0 == 0 / 0;"), vec!["false"]);
}

#[test]
fn assigning_an_undeclared_name_is_a_runtime_error() {
    let (values, result) = evaluate("x = 1;", &host);
    assert!(values.is_empty());
    match result {
        Err(Error::Runtime(line, msg)) => {
            assert_eq!(line, 1);
            assert_eq!(msg, "Undefined variable 'x'.");
        }
        other => panic!("unexpected {:?}", other),
    }
}

#[test]
fn reading_an_undeclared_name_is_a_runtime_error() {
    let (values, result) = evaluate("print 1;\nprint y;\nprint 2;", &host);
    assert_eq!(values.iter().map(render).collect::<Vec<_>>(), vec!["1"]);
    match result {
        Err(Error::Runtime(line, msg)) => {
            assert_eq!(line, 2);
            assert_eq!(msg, "Undefined variable 'y'.");
        }
        other => panic!("unexpected {:?}", other),
    }
}

#[test]
fn arithmetic_and_concatenation() {
    assert_eq!(printed("print 1 + 2 * 3;"), vec!["7"]);
    assert_eq!(printed("print (1 + 2) * 3;"), vec!["9"]);
    assert_eq!(printed("print 7 - 10;"), vec!["-3"]);
    assert_eq!(printed("print -2.5;"), vec!["-2.5"]);
    assert_eq!(printed("print \"ab\" + \"cd\";"), vec!["abcd"]);
    assert_eq!(printed("var u; print u;"), vec!["nil"]);
}

#[test]
fn comparisons_and_equality() {
    assert_eq!(
        printed("print 1 < 2; print 2 <= 2; print 3 > 4; print 4 >= 5;"),
        vec!["true", "true", "false", "false"]
    );
    assert_eq!(printed("print \"a\" < \"b\"; print \"b\" < \"a\"; print \"ab\" > \"a\";"), vec!["true", "false", "true"]);
    assert_eq!(printed("print 1 == \"1\"; print nil == nil; print true != false;"), vec!["false", "true", "true"]);
    assert_eq!(printed("print -0 == 0;"), vec!["true"]);
}

#[test]
fn type_errors_carry_the_operator_line() {
    let message = |src: &str| match evaluate(src, &host).1 {
        Err(Error::Runtime(line, msg)) => (line, msg),
        other => panic!("unexpected {:?}", other),
    };
    assert_eq!(message("print\n1 + nil;"), (2, String::from("Operands must be numbers or strings.")));
    assert_eq!(message("print 1 -\n\"a\";"), (1, String::from("Operands must be numbers.")));
    assert_eq!(message("print -\"a\";"), (1, String::from("Operand must be a number.")));
    assert_eq!(
        message("print 1 < \"a\";"),
        (1, String::from("Invalid comparison between types (left: Number, right: String)."))
    );
    assert_eq!(
        message("print true < true;"),
        (1, String::from("Invalid comparison between types (left: True, right: True)."))
    );
}

#[test]
fn scanner_and_parser_errors_stop_before_running() {
    let (values, result) = evaluate("print 1; @", &host);
    assert!(values.is_empty());
    assert!(matches!(result, Err(Error::Scanner(1, _))));
    let (values, result) = evaluate("print 1; print ;", &host);
    assert!(values.is_empty());
    assert!(matches!(result, Err(Error::Parser(1, _))));
}

#[test]
fn a_session_keeps_bindings_between_runs() {
    let mut session = Interpreter::new();
    run(&mut session, "var a = 40;", &host).unwrap();
    run(&mut session, "print a + 2;", &host).unwrap();
    let out: Vec<String> = session.take_output().iter().map(render).collect();
    assert_eq!(out, vec!["42"]);
    assert!(session.output().is_empty());
}

#[test]
fn fresh_sessions_print_the_same() {
    let program = "var a = 1; { var b = a + 1; print b; } print a / 3;";
    let mut first = Interpreter::new();
    run(&mut first, "var a = 100; print a;", &host).unwrap();
    first.take_output();
    run(&mut first, program, &host).unwrap();
    let again = printed(program);
    assert_eq!(first.take_output().iter().map(render).collect::<Vec<_>>(), again);
    assert_eq!(printed(program), again);
}

#[test]
fn block_scope_is_released_after_an_error() {
    let mut session = Interpreter::new();
    assert!(run(&mut session, "var a = 1; { var a = 2; print a; a + nil; }", &host).is_err());
    run(&mut session, "print a;", &host).unwrap();
    let out: Vec<String> = session.take_output().iter().map(render).collect();
    assert_eq!(out, vec!["2", "1"]);
}

#[test]
fn single_expressions_evaluate_without_bindings() {
    let mut calc = Interpret::new();
    let expr = Expr::Binary(
        Box::new(Expr::Literal(LiteralValue::Number(String::from("6")))),
        BinaryOp::Star,
        Box::new(Expr::Literal(LiteralValue::Number(String::from("7")))),
        1,
    );
    assert_eq!(calc.evaluate(&expr, &host).unwrap(), num(42.0));
    let unbound = Expr::Variable(name("q", 4));
    assert!(matches!(calc.evaluate(&unbound, &host), Err(Error::Runtime(4, _))));
}

#[test]
fn operators_on_values() {
    assert_eq!(unary_op(UnaryOp::Neg, num(3.0), 1).unwrap(), num(-3.0));
    assert_eq!(unary_op(UnaryOp::Not, Object::Nil, 1).unwrap(), Object::True);
    assert_eq!(binary_op(BinaryOp::Slash, num(1.0), num(4.0), 1, &host).unwrap(), num(0.25));
    assert_eq!(
        binary_op(BinaryOp::Plus, Object::String(String::from("a")), Object::String(String::from("b")), 1, &host)
            .unwrap(),
        Object::String(String::from("ab"))
    );
    assert_eq!(binary_op(BinaryOp::GreaterEqual, num(2.0), num(2.0), 1, &host).unwrap(), Object::True);
    assert_eq!(binary_op(BinaryOp::Equal, Object::Nil, Object::False, 1, &host).unwrap(), Object::False);
}

#[test]
fn number_order_matches_ieee() {
    let samples = [
        0.0f32, -0.0, 1.0, -1.0, 0.5, -2.5, 1e-40, -1e-40, 3.4e38, f32::INFINITY, f32::NEG_INFINITY, f32::NAN,
    ];
    for a in samples {
        for b in samples {
            assert_eq!(compare_numbers(a.to_bits(), b.to_bits()), a.partial_cmp(&b), "{} {}", a, b);
        }
        assert_eq!(f32::from_bits(negate_number(a.to_bits())).to_bits(), (-a).to_bits());
    }
    assert_eq!(compare_numbers(1.0f32.to_bits(), 2.0f32.to_bits()), Some(Ordering::Less));
}

#[test]
fn missing_semicolon_after_print_points_at_the_next_line() {
    let errors = Parser::parse(Scanner::scan("print 1\n").unwrap()).unwrap_err();
    assert_eq!(errors.len(), 1);
    match &errors[0] {
        Error::Parser(line, msg) => {
            assert_eq!(*line, 2);
            assert_eq!(msg, "Expected ';' after value");
        }
        other => panic!("unexpected {:?}", other),
    }
}

#[test]
fn failures_before_running_keep_their_messages() {
    match evaluate("print \"abc", &host) {
        (values, Err(Error::Scanner(1, msg))) => {
            assert!(values.is_empty());
            assert_eq!(msg, "Unterminated string");
        }
        other => panic!("unexpected {:?}", other),
    }
    match evaluate("print 1; print ;", &host) {
        (values, Err(Error::Parser(1, msg))) => {
            assert!(values.is_empty());
            assert_eq!(msg, "Expected expression");
        }
        other => panic!("unexpected {:?}", other),
    }
    match Parser::parse(Scanner::scan("1 +").unwrap()) {
        Err(errors) => assert!(matches!(&errors[0], Error::Parser(1, msg) if msg == "Expected expression")),
        other => panic!("unexpected {:?}", other),
    }
}

#[test]
fn object_equality_is_the_language_equality() {
    assert_eq!(num(0.0), num(-0.0));
    assert_ne!(num(f32::NAN), num(f32::NAN));
    assert_ne!(num(1.0), Object::String(String::from("1")));
    let s = Object::String(String::from("x"));
    assert_eq!(s.clone(), s);
    assert_eq!(Object::Nil.clone(), Object::Nil);
}
