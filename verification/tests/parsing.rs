use tinyscript::ast::{Block, Declaration, Expression, Operator, Program, Statement};
use tinyscript::number::NumberValue;
use tinyscript::parser::{ParseError, Parser};
use tinyscript::scanner::{Scanner, Tokens};
use tinyscript::value::LiteralValue;

fn lex(source: &str) -> Tokens {
    Scanner::parse_tokens_from_source(source).expect("Scanner should not fail to parse source")
}

fn parse_expr(source: &str) -> Expression {
    let tokens = lex(source);
    Parser::parse_expr_from_tokens(&tokens).expect("Parser should not fail")
}

fn parse_program(source: &str) -> Program {
    let tokens = lex(source);
    let mut parser = Parser::new(&tokens);
    parser.parse().expect("Parser should not fail")
}

fn number(n: i64) -> Expression {
    Expression::Literal(LiteralValue::Number(NumberValue { num: n, den: 1 }))
}

#[test]
fn expr_macro() {
    let expression = parse_expr("true");

    assert_eq!(expression, Expression::Literal(LiteralValue::Boolean(true)));
}

#[test]
fn boolean() {
    let tokens = lex("true");
    let mut parser = Parser::new(&tokens);

    let result = parser.parse_expression().expect("Parser should not fail");

    assert_eq!(result, Expression::Literal(LiteralValue::Boolean(true)));
}

#[test]
fn grouping() {
    let result = parse_expr("(true)");

    assert_eq!(
        result,
        Expression::Grouping(Box::new(Expression::Literal(LiteralValue::Boolean(true))))
    );
}

#[test]
fn grouping_comparison() {
    let result = parse_expr("(true < false)");

    assert_eq!(
        result,
        Expression::Grouping(Box::new(Expression::Binary {
            left: Box::new(Expression::Literal(LiteralValue::Boolean(true))),
            right: Box::new(Expression::Literal(LiteralValue::Boolean(false))),
            operator: Operator::Less,
        }))
    );
}

#[test]
fn comparison() {
    let result = parse_expr("123 > 321");

    assert_eq!(
        result,
        Expression::Binary {
            left: Box::new(number(123)),
            right: Box::new(number(321)),
            operator: Operator::Greater,
        }
    );
}

#[test]
fn not_negative_number() {
    let result = parse_expr("!-99");

    assert_eq!(
        result,
        Expression::Unary {
            right: Box::new(Expression::Unary {
                right: Box::new(number(99)),
                operator: Operator::Minus,
            }),
            operator: Operator::Bang,
        }
    );
}

#[test]
fn parser_complex_expression() {
    let result = parse_expr("123 * 2 - 456 < 42 + 99");

    assert_eq!(
        result,
        Expression::Binary {
            left: Box::new(Expression::Binary {
                left: Box::new(Expression::Binary {
                    left: Box::new(number(123)),
                    right: Box::new(number(2)),
                    operator: Operator::Star,
                }),
                right: Box::new(number(456)),
                operator: Operator::Minus,
            }),
            right: Box::new(Expression::Binary {
                left: Box::new(number(42)),
                right: Box::new(number(99)),
                operator: Operator::Plus,
            }),
            operator: Operator::Less,
        }
    );
}

#[test]
fn regression_lhs_grouped_binary_expressions() {
    let result = parse_expr("(1)+2");

    assert_eq!(
        result,
        Expression::Binary {
            left: Box::new(Expression::Grouping(Box::new(number(1)))),
            right: Box::new(number(2)),
            operator: Operator::Plus,
        }
    );
}

#[test]
fn print() {
    let result = parse_program("print 42;");

    assert_eq!(
        result,
        Program(vec![Declaration::Statement(Statement::Print(number(42)))])
    );
}

#[test]
fn print_twice() {
    let result = parse_program("print 42; print true;");

    assert_eq!(
        result,
        Program(vec![
            Declaration::Statement(Statement::Print(number(42))),
            Declaration::Statement(Statement::Print(Expression::Literal(
                LiteralValue::Boolean(true)
            ))),
        ])
    );
}

#[test]
fn expression_statement() {
    let result = parse_program("42;");

    assert_eq!(
        result,
        Program(vec![Declaration::Statement(Statement::Expression(number(
            42
        )))])
    );
}

#[test]
fn string_literal_is_unquoted() {
    let result = parse_expr("\"abc\"");

    assert_eq!(
        result,
        Expression::Literal(LiteralValue::String("abc".to_string()))
    );
}

#[test]
fn variable_assignment_declaration() {
    let result = parse_program("x = 5;");

    assert_eq!(
        result,
        Program(vec![Declaration::VariableAssignment {
            identifier: "x".to_string(),
            value: number(5),
        }])
    );
}

#[test]
fn bare_identifier_is_not_an_assignment() {
    let result = parse_program("x;");

    assert_eq!(
        result,
        Program(vec![Declaration::Statement(Statement::Expression(
            Expression::Literal(LiteralValue::Identifier("x".to_string()))
        ))])
    );
}

#[test]
fn block_declaration() {
    let result = parse_program("{ x = 1; }");

    assert_eq!(
        result,
        Program(vec![Declaration::Block(Block(vec![
            Declaration::VariableAssignment {
                identifier: "x".to_string(),
                value: number(1),
            }
        ]))])
    );
}

#[test]
fn if_statement_declaration() {
    let result = parse_program("if true print 1;");

    assert_eq!(
        result,
        Program(vec![Declaration::Statement(Statement::If {
            condition: Expression::Literal(LiteralValue::Boolean(true)),
            declaration: Box::new(Declaration::Statement(Statement::Print(number(1)))),
        })])
    );
}

#[test]
fn unclosed_paren_is_a_parse_error() {
    let tokens = lex("(1");
    let mut parser = Parser::new(&tokens);

    let error = parser.parse().expect_err("an unclosed paren must not parse");

    assert_eq!(error, ParseError::MissingRightParen);
    assert_eq!(error.message(), "Expected ')' after expression");
}

#[test]
fn missing_semicolon_is_a_parse_error() {
    let tokens = lex("print 42");
    let mut parser = Parser::new(&tokens);

    let error = parser.parse().expect_err("a missing semicolon must not parse");

    assert_eq!(error, ParseError::MissingSemicolon);
}

#[test]
fn unclosed_brace_is_a_parse_error() {
    let tokens = lex("{ print 1;");
    let mut parser = Parser::new(&tokens);

    let error = parser.parse().expect_err("an unclosed brace must not parse");

    assert_eq!(error, ParseError::MissingRightBrace);
}

#[test]
fn input_ending_mid_construct_is_a_parse_error() {
    let tokens = lex("1 +");
    let mut parser = Parser::new(&tokens);

    let error = parser.parse().expect_err("a dangling operator must not parse");

    assert_eq!(error, ParseError::UnexpectedEnd);
    assert_eq!(error.message(), "Unexpected end of input");
}

#[test]
fn stray_operator_is_a_parse_error() {
    let tokens = lex("*;");
    let mut parser = Parser::new(&tokens);

    let error = parser.parse().expect_err("a stray operator must not parse");

    assert_eq!(error, ParseError::UnexpectedToken);
}
