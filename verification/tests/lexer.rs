use lib::lexer::{lex, Token};
use lib::error::LiabError;

fn dec(text: &str) -> u64 {
    text.parse::<f64>().unwrap().to_bits()
}



#[test]
fn lex_simple_assignment() {
    let tokens = lex("let x = 42;", dec).unwrap();
    assert_eq!(
        tokens,
        vec![
            Token::Let,
            Token::Identifier("x".into()),
            Token::Equals,
            Token::Number(42.0f64.to_bits()),
            Token::Semicolon,
            Token::Eof,
        ]
    );
}

#[test]
fn lex_float_number() {
    let tokens = lex("42.5", dec).unwrap();
    assert_eq!(tokens, vec![Token::Number(42.5f64.to_bits()), Token::Eof]);
}

#[test]
fn lex_string() {
    let tokens = lex("\"hello world\"", dec).unwrap();
    assert_eq!(tokens, vec![Token::String("hello world".into()), Token::Eof]);
}

#[test]
fn lex_dot() {
    let tokens = lex("rust.call", dec).unwrap();
    assert_eq!(tokens, vec![
        Token::Identifier("rust".into()),
        Token::Dot,
        Token::Identifier("call".into()),
        Token::Eof
    ]);
}

#[test]
fn lex_arithmetic_expression() {
    let tokens = lex("(1 + 2) * 3", dec).unwrap();
    assert_eq!(
        tokens,
        vec![
            Token::LeftParen,
            Token::Number(1.0f64.to_bits()),
            Token::Plus,
            Token::Number(2.0f64.to_bits()),
            Token::RightParen,
            Token::Star,
            Token::Number(3.0f64.to_bits()),
            Token::Eof,
        ]
    );
}

#[test]
fn lex_print_keyword() {
    let tokens = lex("print result;", dec).unwrap();
    assert_eq!(
        tokens,
        vec![
            Token::Print,
            Token::Identifier("result".into()),
            Token::Semicolon,
            Token::Eof,
        ]
    );
}

#[test]
fn lex_unknown_char() {
    let result = lex("let a = $;", dec);
    assert!(result.is_err());
    if let Err(LiabError::SyntaxError(msg)) = result {
        assert!(msg.contains("Unknown character: '$'"));
    } else {
        panic!("Expected SyntaxError");
    }
}

#[test]
fn lex_comment() {
    let tokens = lex("let x = 5; // this is a comment\nprint x;", dec).unwrap();
    assert_eq!(
        tokens,
        vec![
            Token::Let,
            Token::Identifier("x".into()),
            Token::Equals,
            Token::Number(5.0f64.to_bits()),
            Token::Semicolon,
            Token::Print,
            Token::Identifier("x".into()),
            Token::Semicolon,
            Token::Eof,
        ]
    );
}

// ---- v0.2 tests ----

#[test]
fn lex_comparison_operators() {
    let tokens = lex("== != > < >= <=", dec).unwrap();
    assert_eq!(
        tokens,
        vec![
            Token::EqualEqual,
            Token::BangEqual,
            Token::Greater,
            Token::Less,
            Token::GreaterEqual,
            Token::LessEqual,
            Token::Eof,
        ]
    );
}

#[test]
fn lex_braces_and_comma() {
    let tokens = lex("{ a, b }", dec).unwrap();
    assert_eq!(
        tokens,
        vec![
            Token::LeftBrace,
            Token::Identifier("a".into()),
            Token::Comma,
            Token::Identifier("b".into()),
            Token::RightBrace,
            Token::Eof,
        ]
    );
}

#[test]
fn lex_keywords_v02() {
    let tokens = lex("fn return love export if else while true false", dec).unwrap();
    assert_eq!(
        tokens,
        vec![
            Token::Fn,
            Token::Return,
            Token::Love,
            Token::Export,
            Token::If,
            Token::Else,
            Token::While,
            Token::True,
            Token::False,
            Token::Eof,
        ]
    );
}

#[test]
fn lex_function_definition() {
    let tokens = lex("fn add(a, b) { return a + b; }", dec).unwrap();
    assert_eq!(
        tokens,
        vec![
            Token::Fn,
            Token::Identifier("add".into()),
            Token::LeftParen,
            Token::Identifier("a".into()),
            Token::Comma,
            Token::Identifier("b".into()),
            Token::RightParen,
            Token::LeftBrace,
            Token::Return,
            Token::Identifier("a".into()),
            Token::Plus,
            Token::Identifier("b".into()),
            Token::Semicolon,
            Token::RightBrace,
            Token::Eof,
        ]
    );
}

#[test]
fn lex_if_statement() {
    let tokens = lex("if x > 10 { print x; }", dec).unwrap();
    assert_eq!(
        tokens,
        vec![
            Token::If,
            Token::Identifier("x".into()),
            Token::Greater,
            Token::Number(10.0f64.to_bits()),
            Token::LeftBrace,
            Token::Print,
            Token::Identifier("x".into()),
            Token::Semicolon,
            Token::RightBrace,
            Token::Eof,
        ]
    );
}

#[test]
fn lex_equality_vs_assignment() {
    // Ensure `=` and `==` are correctly distinguished
    let tokens = lex("x = 5; x == 5;", dec).unwrap();
    assert_eq!(
        tokens,
        vec![
            Token::Identifier("x".into()),
            Token::Equals,
            Token::Number(5.0f64.to_bits()),
            Token::Semicolon,
            Token::Identifier("x".into()),
            Token::EqualEqual,
            Token::Number(5.0f64.to_bits()),
            Token::Semicolon,
            Token::Eof,
        ]
    );
}
