use paw_lang::lexer::scanner::Scanner;
use paw_lang::lexer::{LiteralValue, Token, TokenType};

fn scan(src: &str) -> Vec<Token> {
    Scanner::new(src).scan_tokens().expect("scan failed")
}

#[test]
fn decorator_simple() {
    let tokens = scan("@override");
    assert_eq!(tokens[0].token_type, TokenType::Decorator);
    assert_eq!(tokens[0].lexeme, "@override");
    assert!(matches!(
        &tokens[0].literal,
        Some(LiteralValue::DecoratorValue(n)) if n == "override"
    ));
}

#[test]
fn decorator_underscore_prefix() {
    let tokens = scan("@_internal");
    assert_eq!(tokens[0].token_type, TokenType::Decorator);
    assert!(matches!(
        &tokens[0].literal,
        Some(LiteralValue::DecoratorValue(n)) if n == "_internal"
    ));
}

#[test]
fn decorator_with_digits() {
    let tokens = scan("@deprecated2");
    assert_eq!(tokens[0].token_type, TokenType::Decorator);
    assert!(matches!(
        &tokens[0].literal,
        Some(LiteralValue::DecoratorValue(n)) if n == "deprecated2"
    ));
}

#[test]
fn decorator_stops_at_non_ident() {
    let tokens = scan("@route ");
    assert_eq!(tokens[0].token_type, TokenType::Decorator);
    assert_eq!(tokens[0].lexeme, "@route");
    assert_eq!(tokens[1].token_type, TokenType::Eof);
}

#[test]
#[should_panic]
fn decorator_bare_at_panics() {
    scan("@");
}

#[test]
#[should_panic]
fn decorator_digit_after_at_panics() {
    scan("@1bad");
}

#[test]
#[should_panic]
fn decorator_space_after_at_panics() {
    scan("@ name");
}
