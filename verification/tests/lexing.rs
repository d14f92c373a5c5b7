use tinyscript::number::NumberValue;
use tinyscript::scanner::{Keyword, Scanner, Token, TokenDirection, Tokens};

fn lex(source: &str) -> Tokens {
    Scanner::parse_tokens_from_source(source).expect("Scanner should not fail to parse source")
}

fn num(num: i64, den: i64) -> NumberValue {
    NumberValue { num, den }
}

#[test]
fn single_chars() {
    let tokens = lex("(){},.-+*;");

    assert_eq!(
        tokens,
        Tokens(vec![
            Token::Paren(TokenDirection::Left),
            Token::Paren(TokenDirection::Right),
            Token::Brace(TokenDirection::Left),
            Token::Brace(TokenDirection::Right),
            Token::Comma,
            Token::Dot,
            Token::Minus,
            Token::Plus,
            Token::Star,
            Token::SemiColon,
        ])
    );
}

#[test]
fn maybe_single_chars() {
    let tokens = lex("> < = !");

    assert_eq!(
        tokens,
        Tokens(vec![Token::Greater, Token::Less, Token::Equals, Token::Bang])
    );
}

#[test]
fn double_chars() {
    let tokens = lex(">= <= == != /");

    assert_eq!(
        tokens,
        Tokens(vec![
            Token::GreaterEqual,
            Token::LessEqual,
            Token::EqualsEquals,
            Token::BangEquals,
            Token::Slash,
        ])
    );
}

#[test]
fn comments() {
    let tokens = lex("!\n// Hello World!\n!");

    assert_eq!(tokens, Tokens(vec![Token::Bang, Token::Bang]));
}

#[test]
fn unexpected_char() {
    let error = Scanner::parse_tokens_from_source("\n#")
        .expect_err("Scanner should return an error when it encounters an unexpected error");

    assert_eq!(error.message(), "Unexpected character (#) on line 2");
}

#[test]
fn unexpected_char_after_number_new_line() {
    let error = Scanner::parse_tokens_from_source("123\n#")
        .expect_err("Scanner should return an error when it encounters an unexpected error");

    assert_eq!(error.message(), "Unexpected character (#) on line 2");
}

#[test]
fn ignore_white_space() {
    let tokens = lex("\n\t!\r");

    assert_eq!(tokens, Tokens(vec![Token::Bang]));
}

#[test]
fn string() {
    let tokens = lex("\"Hello World!\"");

    assert_eq!(
        tokens,
        Tokens(vec![Token::String("\"Hello World!\"".to_string())])
    );

    match tokens.get(0).expect("Expected a token") {
        Token::String(value) => {
            assert_eq!(value, "\"Hello World!\"");
        }
        _ => panic!("Expected a string token"),
    }
}

#[test]
fn multi_line_string() {
    let tokens = lex("\"Hello\nWorld!\"");

    assert_eq!(
        tokens,
        Tokens(vec![Token::String("\"Hello\nWorld!\"".to_string())])
    );

    match tokens.get(0).expect("Expected a token") {
        Token::String(value) => {
            assert_eq!(value, "\"Hello\nWorld!\"");
        }
        _ => panic!("Expected a string token"),
    }
}

#[test]
fn integer() {
    let tokens = lex("123");

    assert_eq!(tokens, Tokens(vec![Token::Number(num(123, 1))]));

    match tokens.get(0).expect("Expected a token") {
        Token::Number(value) => {
            assert_eq!(*value, num(123, 1));
        }
        _ => panic!("Expected a string token"),
    }
}

#[test]
fn float() {
    let tokens = lex("123.456");

    // The exact value 123.456 in lowest terms: 123456 / 1000 = 15432 / 125.
    assert_eq!(tokens, Tokens(vec![Token::Number(num(15432, 125))]));

    match tokens.get(0).expect("Expected a token") {
        Token::Number(value) => {
            assert!(value.eq_value(&num(123456, 1000)));
        }
        _ => panic!("Expected a string token"),
    }
}

#[test]
fn number_equal_equal_number() {
    let tokens = lex("123==456");

    assert_eq!(
        tokens,
        Tokens(vec![
            Token::Number(num(123, 1)),
            Token::EqualsEquals,
            Token::Number(num(456, 1)),
        ])
    );
}

#[test]
fn number_trailing_dot() {
    // A trailing point not followed by a digit is not part of the number.
    let tokens = lex("123.");

    assert_eq!(tokens, Tokens(vec![Token::Number(num(123, 1)), Token::Dot]));
}

#[test]
fn identifier() {
    let tokens = lex("Hello World!");

    assert_eq!(
        tokens,
        Tokens(vec![
            Token::Identifier("Hello".to_string()),
            Token::Identifier("World".to_string()),
            Token::Bang,
        ])
    );

    match tokens.get(0).expect("Expected a token") {
        Token::Identifier(value) => {
            assert_eq!(value, "Hello");
        }
        _ => panic!("Expected an identifier token"),
    }

    match tokens.get(1).expect("Expected a token") {
        Token::Identifier(value) => {
            assert_eq!(value, "World");
        }
        _ => panic!("Expected an identifier token"),
    }
}

#[test]
fn keywords() {
    let tokens = lex("Hello super World!");

    assert_eq!(
        tokens,
        Tokens(vec![
            Token::Identifier("Hello".to_string()),
            Token::Keyword(Keyword::Super),
            Token::Identifier("World".to_string()),
            Token::Bang,
        ])
    );
}

#[test]
fn all_keywords() {
    let tokens = lex("and class else false for fun if nil or print return super this true var while");

    assert_eq!(
        tokens,
        Tokens(vec![
            Token::Keyword(Keyword::And),
            Token::Keyword(Keyword::Class),
            Token::Keyword(Keyword::Else),
            Token::Keyword(Keyword::False),
            Token::Keyword(Keyword::For),
            Token::Keyword(Keyword::Function),
            Token::Keyword(Keyword::If),
            Token::Keyword(Keyword::Nil),
            Token::Keyword(Keyword::Or),
            Token::Keyword(Keyword::Print),
            Token::Keyword(Keyword::Return),
            Token::Keyword(Keyword::Super),
            Token::Keyword(Keyword::This),
            Token::Keyword(Keyword::True),
            Token::Keyword(Keyword::VariableDeclaration),
            Token::Keyword(Keyword::While),
        ])
    );
}

#[test]
fn empty_source() {
    let tokens = lex("");

    assert_eq!(tokens, Tokens(vec![]));
}

#[test]
fn unterminated_string() {
    let error = Scanner::parse_tokens_from_source("\"abc")
        .expect_err("Scanner should report an unterminated string");

    assert_eq!(error.message(), "Unterminated string");
}

#[test]
fn number_with_too_many_digits() {
    let error = Scanner::parse_tokens_from_source("1.000000000000000000000000000000000000001")
        .expect_err("Scanner should reject a literal with too many significant digits");

    assert_eq!(error.message(), "Number literal too large on line 1");
}

#[test]
fn line_counter_counts_string_newlines() {
    let error = Scanner::parse_tokens_from_source("\"a\nb\"\n#")
        .expect_err("Scanner should report the unexpected character");

    assert_eq!(error.message(), "Unexpected character (#) on line 3");
}

#[test]
fn comment_swallows_its_newline() {
    // A line comment consumes the newline that ends it without counting it.
    let error = Scanner::parse_tokens_from_source("//c\n#")
        .expect_err("Scanner should report the unexpected character");

    assert_eq!(error.message(), "Unexpected character (#) on line 1");
}

#[test]
fn lexes_number_plus_number() {
    let tokens = lex("123 + 5");

    assert_eq!(
        tokens,
        Tokens(vec![
            Token::Number(num(123, 1)),
            Token::Plus,
            Token::Number(num(5, 1)),
        ])
    );
}
