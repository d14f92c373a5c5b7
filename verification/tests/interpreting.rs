use tinyscript::ast::{Expression, Program};
use tinyscript::interpreter::Interpreter;
use tinyscript::parser::Parser;
use tinyscript::scanner::Scanner;

fn expr(source: &str) -> Expression {
    let tokens =
        Scanner::parse_tokens_from_source(source).expect("Scanner should not fail to parse source");
    Parser::parse_expr_from_tokens(&tokens).expect("Parser should not fail")
}

fn eval_debug(source: &str) -> String {
    let interpreter = Interpreter::new(Program::new());
    let result = interpreter
        .evaluate_expression(&expr(source))
        .expect("evaluation should not fail");
    result.debug_string()
}

#[test]
fn one_equals_equals_one() {
    assert_eq!(eval_debug("1==1"), "Boolean(true)");
}

#[test]
fn one_equals_equals_two() {
    assert_eq!(eval_debug("1==2"), "Boolean(false)");
}

#[test]
fn one_equals_equals_true() {
    assert_eq!(eval_debug("1==true"), "Boolean(false)");
}

#[test]
fn one_bang_equals_one() {
    assert_eq!(eval_debug("1!=1"), "Boolean(false)");
}

#[test]
fn one_bang_equals_two() {
    assert_eq!(eval_debug("1!=2"), "Boolean(true)");
}

#[test]
fn one_greater_two() {
    assert_eq!(eval_debug("1>2"), "Boolean(false)");
}

#[test]
fn string_star_number() {
    assert_eq!(eval_debug("\"Hello \"*3"), "String(\"Hello Hello Hello \")");
}

#[test]
fn string_star_negative_number() {
    assert_eq!(eval_debug("\"Hello \"*-3"), "String(\"\")");
}

#[test]
fn string_star_float() {
    assert_eq!(
        eval_debug("\"Hello \"*3.9"),
        "String(\"Hello Hello Hello \")"
    );
}

#[test]
fn interpreter_complex_expression() {
    assert_eq!(
        eval_debug("!false == 5 > (1 - 2 + 5 / 2) * 100 - 10"),
        "Boolean(false)"
    );
}

#[test]
fn regression_number_multiply_string() {
    assert_eq!(eval_debug("3*\"Hello \""), "String(\"Hello Hello Hello \")");
}

#[test]
fn regression_divison_order() {
    assert_eq!(eval_debug("1+2/4"), "Number(1.5)");
}
