use lox::ast::BinaryKind;
use lox::eval::{NumberOp, NumberResult};
use lox::interp::{evaluate_source, parse_source, run_source, tokenize, Outcome};

fn doubles(op: NumberOp) -> NumberResult {
    match op {
        NumberOp::Literal(text) => NumberResult::Number(text.parse::<f64>().unwrap_or(0.0).to_bits()),
        NumberOp::Negate(a) => NumberResult::Number((-f64::from_bits(a)).to_bits()),
        NumberOp::Apply(op, a, b) => {
            let (x, y) = (f64::from_bits(a), f64::from_bits(b));
            let r = match op {
                BinaryKind::Addition => x + y,
                BinaryKind::Subtraction => x - y,
                BinaryKind::Multiplication => x * y,
                _ => x / y,
            };
            NumberResult::Number(r.to_bits())
        }
        NumberOp::Compare(op, a, b) => {
            let (x, y) = (f64::from_bits(a), f64::from_bits(b));
            NumberResult::Truth(match op {
                BinaryKind::Less => x < y,
                BinaryKind::LessEqual => x <= y,
                BinaryKind::Greater => x > y,
                BinaryKind::GreaterEqual => x >= y,
                _ => x == y,
            })
        }
        NumberOp::Format(a) => {
            let x = f64::from_bits(a);
            if x.fract() == 0.0 {
                NumberResult::Text(format!("{:.1}", x))
            } else {
                NumberResult::Text(format!("{}", x))
            }
        }
    }
}

fn run(src: &str) -> Outcome {
    run_source(src.to_string(), &doubles)
}

fn evaluate(src: &str) -> Outcome {
    evaluate_source(src.to_string(), &doubles)
}

fn parse(src: &str) -> Outcome {
    parse_source(src.to_string())
}

#[test]
fn run_prints_string() {
    let o = run("print \"hello\";");
    assert_eq!(o.stdout, "hello\n");
    assert_eq!(o.code, 0);
}

#[test]
fn run_multiplication_binds_tighter() {
    let o = run("print 1 + 2 * 3;");
    assert_eq!(o.stdout, "7.0\n");
    assert_eq!(o.code, 0);
}

#[test]
fn run_block_shadows_then_restores() {
    let o = run("var a = 1; { var a = 2; print a; } print a;");
    assert_eq!(o.stdout, "2.0\n1.0\n");
    assert_eq!(o.code, 0);
}

#[test]
fn run_negate_string_fails() {
    let o = run("print -\"x\";");
    assert!(o.stderr.contains("Operand must be a number."));
    assert_eq!(o.code, 70);
}

#[test]
fn parse_unmatched_parens() {
    let o = parse("(1 + 2;");
    assert!(o.stderr.contains("Unmatched parens"));
    assert_eq!(o.code, 65);
}

#[test]
fn tokenize_unexpected_character() {
    let o = tokenize("@".to_string());
    assert!(o.stderr.contains("[line 1] Error: Unexpected character: @"));
    assert_eq!(o.stdout, "EOF  null\n");
    assert_eq!(o.code, 65);
}

#[test]
fn run_undefined_variable() {
    let o = run("print a;");
    assert_eq!(o.stderr, "Undefined variable 'a'.\n");
    assert_eq!(o.code, 70);
}

#[test]
fn parse_number_literal() {
    let o = parse("42");
    assert_eq!(o.stdout, "42.0\n");
    assert_eq!(o.code, 0);
}

#[test]
fn parse_grouping_and_product() {
    let o = parse("(1 + 2) * 3");
    assert_eq!(o.stdout, "(* (group (+ 1.0 2.0)) 3.0)\n");
    assert_eq!(o.code, 0);
}

#[test]
fn parse_not_then_equality() {
    let o = parse("!true == false");
    assert_eq!(o.stdout, "(== (! true) false)\n");
    assert_eq!(o.code, 0);
}

#[test]
fn parse_statements_print_forms() {
    let o = parse("print 1; var a = \"s\"; var b; { a = 2; }");
    assert_eq!(o.stdout, "print 1.0;\nvar a = s;\nvar b = nil;\n{\na = 2.0\n}\n");
    assert_eq!(o.code, 0);
}

#[test]
fn parse_expected_expression() {
    let o = parse("1 + ;");
    assert_eq!(o.stderr, "[line 1] Error: Expected expression: ;\n");
    assert_eq!(o.code, 65);
}

#[test]
fn parse_unexpected_token() {
    let o = parse("var 1;");
    assert_eq!(o.stderr, "[line 1] Error: Unexpected token\n");
    assert_eq!(o.code, 65);
    let o = parse("{ print 1;");
    assert_eq!(o.stderr, "[line 1] Error: Unexpected token\n");
}

#[test]
fn parse_error_line_number() {
    let o = parse("1;\n\n(2;");
    assert_eq!(o.stdout, "1.0\n");
    assert_eq!(o.stderr, "[line 3] Error: Unmatched parens\n");
}

#[test]
fn parse_balanced_parens_ok() {
    let o = parse("((1)) + (2 * (3));");
    assert_eq!(o.stdout, "(+ (group (group 1.0)) (group (* 2.0 (group 3.0))))\n");
    assert_eq!(o.code, 0);
}

#[test]
fn parse_halts_on_lexical_error() {
    let o = parse("1 # 2");
    assert_eq!(o.stdout, "");
    assert_eq!(o.stderr, "[line 1] Error: Unexpected character: #\n");
    assert_eq!(o.code, 65);
}

#[test]
fn run_operands_must_be_numbers() {
    let o = run("print 1 + \"a\";");
    assert_eq!(o.stderr, "Operands must be a number.\n[line 1]\n");
    assert_eq!(o.code, 70);
    let o = run("print \"a\" < \"b\";");
    assert_eq!(o.code, 70);
}

#[test]
fn run_runtime_error_line() {
    let o = run("print 1;\nprint -nil;");
    assert_eq!(o.stdout, "1.0\n");
    assert_eq!(o.stderr, "Operand must be a number.\n[line 2]\n");
    assert_eq!(o.code, 70);
}

#[test]
fn run_string_concatenation_and_equality() {
    let o = run("print \"ab\" + \"cd\"; print \"a\" == \"a\"; print 1 == \"1\"; print 1 != \"1\"; print nil == nil;");
    assert_eq!(o.stdout, "abcd\ntrue\nfalse\ntrue\ntrue\n");
}

#[test]
fn run_truthiness() {
    let o = run("print !nil; print !false; print !0; print !\"\";");
    assert_eq!(o.stdout, "true\ntrue\nfalse\nfalse\n");
}

#[test]
fn run_arithmetic_and_comparison() {
    let o = run("print 7 / 2; print 10 - 4; print 1 < 2; print 2 <= 1; print 3 > 2; print 3 >= 4; print -(2);");
    assert_eq!(o.stdout, "3.5\n6.0\ntrue\nfalse\ntrue\nfalse\n-2.0\n");
}

#[test]
fn run_division_by_zero_is_not_an_error() {
    let o = run("print 1 / 0;");
    assert_eq!(o.stdout, "inf\n");
    assert_eq!(o.code, 0);
}

#[test]
fn run_assignment_updates_outer_binding() {
    let o = run("var a = 1; { a = 5; var b = a; print b; } print a;");
    assert_eq!(o.stdout, "5.0\n5.0\n");
}

#[test]
fn run_block_variable_not_visible_after_block() {
    let o = run("{ var inner = 1; } print inner;");
    assert_eq!(o.stdout, "");
    assert_eq!(o.stderr, "Undefined variable 'inner'.\n");
    assert_eq!(o.code, 70);
}

#[test]
fn run_assignment_to_unbound_name() {
    let o = run("b = 1;");
    assert_eq!(o.stderr, "Undefined variable 'b'.\n");
    assert_eq!(o.code, 70);
}

#[test]
fn run_declaration_without_initializer_is_nil() {
    let o = run("var a; print a;");
    assert_eq!(o.stdout, "nil\n");
}

#[test]
fn run_lexical_error_exits_65() {
    let o = run("print 1; $");
    assert_eq!(o.stdout, "");
    assert_eq!(o.code, 65);
}

#[test]
fn run_unterminated_string() {
    let o = run("print \"abc");
    assert_eq!(o.stderr, "[line 1] Error: Unterminated string.\n");
    assert_eq!(o.code, 65);
}

#[test]
fn evaluate_prints_values() {
    let o = evaluate("1 + 2; \"a\" + \"b\"; true; nil; var x = 3; x * 2;");
    assert_eq!(o.stdout, "3.0\nab\ntrue\nnil\n6.0\n");
    assert_eq!(o.code, 0);
}

#[test]
fn evaluate_stops_at_runtime_error() {
    let o = evaluate("1; -\"a\"; 2;");
    assert_eq!(o.stdout, "1.0\n");
    assert_eq!(o.code, 70);
}

#[test]
fn empty_source() {
    assert_eq!(run("").stdout, "");
    assert_eq!(run("").code, 0);
    assert_eq!(tokenize(String::new()).stdout, "EOF  null\n");
    assert_eq!(parse("").code, 0);
}
