use paw_lang::lexer::parser::Parser;
use paw_lang::lexer::scanner::Scanner;
use paw_lang::lexer::{LiteralValue, Token, TokenType};

/// Number literals keep their source text; their value is printed as an
/// `f64` prints.
fn render_numbers(tokens: Vec<Token>) -> Vec<Token> {
    tokens
        .into_iter()
        .map(|mut t| {
            if t.token_type == TokenType::Number {
                if let Some(LiteralValue::NumberValue(text)) = &t.literal {
                    let value: f64 = text.parse().expect("number literal");
                    t.literal = Some(LiteralValue::NumberValue(value.to_string()));
                }
            }
            t
        })
        .collect()
}

fn ast(src: &str) -> String {
    let tokens = Scanner::new(src).scan_tokens().expect("scan failed");
    let tokens = render_numbers(tokens);
    Parser::new(tokens).expression().expect("parse failed").to_string()
}

#[test]
fn expr_literal_num() {
    assert_eq!(ast("42"), "42");
}

#[test]
fn expr_binary_add() {
    assert_eq!(ast("1 + 2"), "(+ 1 2)");
}

#[test]
fn expr_binary_neq() {
    assert_eq!(ast("1 != 2"), "(!= 1 2)");
}

#[test]
fn unary_bang() {
    assert_eq!(ast("!true"), "(! true)");
}

#[test]
fn expr_grouping() {
    assert_eq!(ast("(1 + 2)"), "(group (+ 1 2))");
}

#[test]
fn expr_variable_ref() {
    assert_eq!(ast("x"), "(var x)");
}

#[test]
fn variable_underscore() {
    assert_eq!(ast("_internal"), "(var _internal)");
}

#[test]
fn expr_assign_literal() {
    assert_eq!(ast("x = 5"), "(= x 5)");
}

#[test]
fn expr_assign_expr() {
    assert_eq!(ast("x = 1 + 2"), "(= x (+ 1 2))");
}

#[test]
fn variable_in_binary() {
    assert_eq!(ast("x + 1"), "(+ (var x) 1)");
}

#[test]
fn logical_and() {
    assert_eq!(ast("true && false"), "(&& true false)");
}

#[test]
fn logical_or() {
    assert_eq!(ast("true || false"), "(|| true false)");
}

#[test]
fn or_binds_lower_than_and() {
    assert_eq!(
        ast("true || false && true"),
        "(|| true (&& false true))"
    );
}

#[test]
fn and_binds_lower_than_equality() {
    assert_eq!(
        ast("1 == 1 && 2 == 2"),
        "(&& (== 1 1) (== 2 2))"
    );
}

#[test]
#[should_panic]
fn assign_chained() {
    ast("x = y = 3 = 4");
}
