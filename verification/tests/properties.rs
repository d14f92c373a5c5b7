use tinyscript::ast::{Expression, Operator, Program};
use tinyscript::environment::Environment;
use tinyscript::interpreter::Interpreter;
use tinyscript::number::NumberValue;
use tinyscript::parser::Parser;
use tinyscript::scanner::Scanner;
use tinyscript::value::{apply_binary, apply_unary, EvalError, LiteralValue};

fn expr(source: &str) -> Expression {
    let tokens =
        Scanner::parse_tokens_from_source(source).expect("Scanner should not fail to parse source");
    Parser::parse_expr_from_tokens(&tokens).expect("Parser should not fail")
}

fn run_program(source: &str) -> Interpreter {
    let tokens =
        Scanner::parse_tokens_from_source(source).expect("Scanner should not fail to parse source");
    let mut parser = Parser::new(&tokens);
    let program = parser.parse().expect("Parser should not fail");
    let mut interpreter = Interpreter::new(program);
    interpreter.run().expect("run should not fail");
    interpreter
}

#[test]
fn assignment_round_trip() {
    let interpreter = run_program("x = 5;");

    let result = interpreter
        .evaluate_expression(&expr("x"))
        .expect("evaluation should not fail");

    assert_eq!(result.debug_string(), "Number(5.0)");
}

#[test]
fn unbound_name_resolves_to_nil() {
    let interpreter = Interpreter::new(Program::new());

    let result = interpreter
        .evaluate_expression(&expr("never_assigned"))
        .expect("evaluation should not fail");

    assert_eq!(result, LiteralValue::Nil);
}

#[test]
fn reassignment_overwrites() {
    let interpreter = run_program("x = 1; x = 2;");

    let result = interpreter
        .evaluate_expression(&expr("x"))
        .expect("evaluation should not fail");

    assert_eq!(result.debug_string(), "Number(2.0)");
}

#[test]
fn resolution_is_idempotent() {
    let interpreter = run_program("x = 41;");
    let reference = expr("x");

    let first = interpreter
        .evaluate_expression(&reference)
        .expect("evaluation should not fail");
    let second = interpreter
        .evaluate_expression(&reference)
        .expect("evaluation should not fail");

    assert_eq!(first, second);
}

#[test]
fn environment_assign_then_resolve() {
    let mut environment = Environment::new();
    environment.assign(
        &"answer".to_string(),
        LiteralValue::Number(NumberValue { num: 42, den: 1 }),
    );

    let bound = environment.resolve(&"answer".to_string());
    let unbound = environment.resolve(&"question".to_string());

    assert_eq!(bound, LiteralValue::Number(NumberValue { num: 42, den: 1 }));
    assert_eq!(unbound, LiteralValue::Nil);
}

#[test]
fn truthiness_zero_is_false() {
    let interpreter = run_program("if 0 { print \"a\"; }");

    assert_eq!(interpreter.output().len(), 0);
}

#[test]
fn truthiness_empty_string_is_false() {
    let interpreter = run_program("if \"\" { print \"a\"; }");

    assert_eq!(interpreter.output().len(), 0);
}

#[test]
fn truthiness_nonempty_string_is_true() {
    let interpreter = run_program("if \"x\" { print \"a\"; }");

    assert_eq!(interpreter.output(), &vec!["a".to_string()]);
}

#[test]
fn truthiness_nil_is_false() {
    let interpreter = run_program("if nil { print \"a\"; }");

    assert_eq!(interpreter.output().len(), 0);
}

#[test]
fn print_formats_integers_without_a_point() {
    let interpreter = run_program("print 42;");

    assert_eq!(interpreter.output(), &vec!["42".to_string()]);
}

#[test]
fn print_formats_fractions_exactly() {
    let interpreter = run_program("print 1 + 2 / 4; print -10 / 4;");

    assert_eq!(
        interpreter.output(),
        &vec!["1.5".to_string(), "-2.5".to_string()]
    );
}

#[test]
fn print_formats_booleans_strings_and_nil() {
    let interpreter = run_program("print true; print \"hi\"; print nil;");

    assert_eq!(
        interpreter.output(),
        &vec!["true".to_string(), "hi".to_string(), "nil".to_string()]
    );
}

#[test]
fn expression_statement_reports_debug_form() {
    let interpreter = run_program("1 + 1;");

    assert_eq!(interpreter.output(), &vec!["Number(2.0)".to_string()]);
}

#[test]
fn blocks_share_the_flat_environment() {
    let interpreter = run_program("{ x = 1; } print x;");

    assert_eq!(interpreter.output(), &vec!["1".to_string()]);
}

#[test]
fn string_concatenation_and_stringification() {
    let interpreter = run_program("print \"n=\" + 2; print 2 + \"!\"; print true + \"!\"; print nil + \"!\";");

    assert_eq!(
        interpreter.output(),
        &vec![
            "n=2".to_string(),
            "2!".to_string(),
            "true!".to_string(),
            "nil!".to_string()
        ]
    );
}

#[test]
fn unary_plus_is_identity() {
    let interpreter = Interpreter::new(Program::new());

    let result = interpreter
        .evaluate_expression(&expr("+5"))
        .expect("evaluation should not fail");

    assert_eq!(result.debug_string(), "Number(5.0)");
}

#[test]
fn unary_minus_negates() {
    let interpreter = Interpreter::new(Program::new());

    let result = interpreter
        .evaluate_expression(&expr("-5"))
        .expect("evaluation should not fail");

    assert_eq!(result.debug_string(), "Number(-5.0)");
}

#[test]
fn strings_compare_lexicographically() {
    let interpreter = Interpreter::new(Program::new());

    let lt = interpreter
        .evaluate_expression(&expr("\"abc\" < \"abd\""))
        .expect("evaluation should not fail");
    let le = interpreter
        .evaluate_expression(&expr("1 <= 1"))
        .expect("evaluation should not fail");

    assert_eq!(lt, LiteralValue::Boolean(true));
    assert_eq!(le, LiteralValue::Boolean(true));
}

#[test]
fn subtracting_strings_is_a_type_mismatch() {
    let interpreter = Interpreter::new(Program::new());

    let error = interpreter
        .evaluate_expression(&expr("\"a\" - \"b\""))
        .expect_err("subtracting strings must fail");

    assert_eq!(error, EvalError::TypeMismatch);
}

#[test]
fn dividing_by_zero_is_an_error() {
    let interpreter = Interpreter::new(Program::new());

    let error = interpreter
        .evaluate_expression(&expr("1/0"))
        .expect_err("dividing by zero must fail");

    assert_eq!(error, EvalError::DivisionByZero);
}

#[test]
fn overflowing_arithmetic_is_an_error() {
    let interpreter = Interpreter::new(Program::new());

    let error = interpreter
        .evaluate_expression(&expr("9223372036854775807 + 9223372036854775807"))
        .expect_err("an overflowing sum must fail");

    assert_eq!(error, EvalError::NumberOverflow);
}

#[test]
fn bang_as_binary_operator_is_invalid() {
    let one = LiteralValue::Number(NumberValue { num: 1, den: 1 });

    let error = apply_binary(Operator::Bang, &one, &one)
        .expect_err("bang is not a binary operator");

    assert_eq!(error, EvalError::InvalidOperator);
}

#[test]
fn operating_on_an_unresolved_identifier_is_an_error() {
    let ident = LiteralValue::Identifier("x".to_string());

    let error = apply_unary(Operator::Bang, &ident)
        .expect_err("an unresolved identifier has no truth value");

    assert_eq!(error, EvalError::UnresolvedIdentifier);
}

#[test]
fn number_arithmetic_is_exact() {
    let a = NumberValue { num: 1, den: 3 };
    let b = NumberValue { num: 1, den: 6 };

    let sum = a.add(&b).expect("small sums never overflow");
    let difference = a.sub(&b).expect("small differences never overflow");
    let product = a.mul(&b).expect("small products never overflow");
    let quotient = a.div(&b).expect("small quotients never overflow");

    assert_eq!(sum, NumberValue { num: 1, den: 2 });
    assert_eq!(difference, NumberValue { num: 1, den: 6 });
    assert_eq!(product, NumberValue { num: 1, den: 18 });
    assert_eq!(quotient, NumberValue { num: 2, den: 1 });
}

#[test]
fn empty_program_runs_without_output() {
    let interpreter = run_program("");

    assert_eq!(interpreter.output().len(), 0);
}

#[test]
fn repl_style_incremental_evaluation() {
    let tokens = Scanner::parse_tokens_from_source("x = 1;").expect("lexing should not fail");
    let mut parser = Parser::new(&tokens);
    let program = parser.parse().expect("parsing should not fail");
    let mut interpreter = Interpreter::new(program);
    interpreter.run().expect("run should not fail");

    let tokens2 = Scanner::parse_tokens_from_source("print x + 1;").expect("lexing should not fail");
    let mut parser2 = Parser::new(&tokens2);
    let program2 = parser2.parse().expect("parsing should not fail");
    let mut more = program2.0;
    interpreter
        .evaluate_declarations(&mut more)
        .expect("the second line should run");

    assert_eq!(interpreter.output(), &vec!["2".to_string()]);
}
