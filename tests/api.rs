use lox::ast::{BinaryKind, Expr, Stmt};
use lox::env::{Environment, EvaluationValue};
use lox::eval::{NumberOp, NumberResult};
use lox::lexer::Lexer;
use lox::parser::{Parser, ParserError};

fn integers(op: NumberOp) -> NumberResult {
    match op {
        NumberOp::Literal(text) => {
            NumberResult::Number(text.split('.').next().unwrap().parse::<u64>().unwrap())
        }
        NumberOp::Negate(a) => NumberResult::Number(a.wrapping_neg()),
        NumberOp::Apply(op, a, b) => NumberResult::Number(match op {
            BinaryKind::Addition => a + b,
            BinaryKind::Subtraction => a - b,
            BinaryKind::Multiplication => a * b,
            _ => a / b,
        }),
        NumberOp::Compare(op, a, b) => NumberResult::Truth(match op {
            BinaryKind::Less => a < b,
            BinaryKind::LessEqual => a <= b,
            BinaryKind::Greater => a > b,
            BinaryKind::GreaterEqual => a >= b,
            _ => a == b,
        }),
        NumberOp::Format(a) => NumberResult::Text(a.to_string()),
    }
}

fn parser_of(src: &str) -> Parser {
    Parser::new(Lexer::new(src.to_string()))
}

#[test]
fn parser_yields_statements_then_stops() {
    let mut p = parser_of("print 1; x = 2 print 3");
    let a = p.parse_statement().unwrap();
    assert_eq!(a.to_text(), "print 1.0;");
    let b = p.parse_statement().unwrap();
    assert_eq!(b.to_text(), "x = 2.0");
    let c = p.parse_statement().unwrap();
    assert_eq!(c.to_text(), "print 3.0;");
    assert!(p.parse_statement().is_none());
    assert!(p.status().is_ok());
}

#[test]
fn parser_keeps_first_error_and_halts() {
    let mut p = parser_of("print (1; print 2;");
    assert!(p.parse_statement().is_none());
    assert!(matches!(p.status(), Err(ParserError::UnmatchedParens(1))));
    assert!(p.parse_statement().is_none());
}

#[test]
fn parser_reports_lexer_error() {
    let mut p = parser_of("print 1; @");
    assert!(p.parse_statement().is_none());
    assert!(matches!(p.status(), Err(ParserError::LexerError(_))));
    assert_eq!(p.lexer_errors().len(), 1);
}

#[test]
fn precedence_climbing_shapes() {
    let mut p = parser_of("1 - 2 - 3; -1 * 2; 1 + 2 < 3; a = b = 1;");
    let texts: Vec<String> = (0..4).map(|_| p.parse_statement().unwrap().to_text()).collect();
    assert_eq!(
        texts,
        vec![
            "(- (- 1.0 2.0) 3.0)",
            "(* (- 1.0) 2.0)",
            "(< (+ 1.0 2.0) 3.0)",
            "a = b = 1.0",
        ]
    );
}

#[test]
fn evaluate_with_environment_and_custom_numbers() {
    let mut env = Environment::new();
    let mut out = String::new();
    let mut p = parser_of("var a = 6; a = a * 7; print a;");
    while let Some(s) = p.parse_statement() {
        assert!(s.run(&integers, &mut env, &mut out).is_ok());
    }
    assert_eq!(out, "42\n");
    match env.get(&"a".to_string()) {
        Some(EvaluationValue::Number(n)) => assert_eq!(n, 42),
        other => panic!("unexpected {:?}", other),
    }
}

#[test]
fn environment_scopes() {
    let mut env = Environment::new();
    env.declare("x".to_string(), EvaluationValue::Logical(true));
    env.push_scope();
    env.declare("x".to_string(), EvaluationValue::Nil);
    assert!(matches!(env.get(&"x".to_string()), Some(EvaluationValue::Nil)));
    assert!(env.assign("x".to_string(), EvaluationValue::Number(3)));
    env.pop_scope();
    assert!(matches!(env.get(&"x".to_string()), Some(EvaluationValue::Logical(true))));
    assert!(!env.assign("y".to_string(), EvaluationValue::Nil));
    assert!(env.get(&"y".to_string()).is_none());
}

#[test]
fn expression_evaluation_direct() {
    let mut p = parser_of("(1 + 2) * 3 == 9");
    let stmt = p.parse_statement().unwrap();
    let mut env = Environment::new();
    match stmt {
        Stmt::Expr(e) => {
            let v = e.evaluate(&integers, &mut env).unwrap();
            assert!(matches!(v, EvaluationValue::Logical(true)));
        }
        _ => panic!("expected an expression statement"),
    }
    let e = Expr::Ident(lox::ast::Ident("nope".to_string()));
    assert!(e.evaluate(&integers, &mut env).is_err());
}

