use paw_lang::codegen::statements::Statement;
use paw_lang::error::{CompileErrors, ParseError};
use paw_lang::lexer::parser::Parser;
use paw_lang::lexer::scanner::Scanner;

fn parse_str(src: &str) -> Result<Vec<Statement>, CompileErrors<ParseError>> {
    let tokens = Scanner::new(src).scan_tokens().expect("scan failed");
    let result = Parser::new(tokens).parse();
    result
}

#[test]
fn test_arithmetic() {
    assert!(parse_str("let x = 1 + 2 * 3").is_ok());
}

#[test]
fn number_literal_ok() {
    assert!(parse_str("let x = 42").is_ok());
}

#[test]
fn grouped_expr_ok() {
    assert!(parse_str("let x = (1 + 2)").is_ok());
}

#[test]
fn unary_ok() {
    assert!(parse_str("let x = -5").is_ok());
    assert!(parse_str("let x = !true").is_ok());
}

#[test]
fn comparison_ok() {
    assert!(parse_str("let x = 3 > 2").is_ok());
    assert!(parse_str("let x = 1 <= 1").is_ok());
}

#[test]
#[should_panic]
fn parser_bare_expr_panics() {
    parse_str("1 + 2").unwrap();
}

#[test]
fn declare_var_ok() {
    assert!(parse_str("let x = 1").is_ok());
    assert!(parse_str("const y = 2").is_ok());
}

#[test]
fn declare_var_fallback_ok() {
    assert!(parse_str("let x").is_ok());
}

#[test]
#[should_panic]
fn declare_var_fallback_const_panics() {
    assert!(parse_str("const y").is_ok());
}

#[test]
#[should_panic]
fn unclosed_paren_panics() {
    parse_str("(1 + 2").unwrap();
}

#[test]
#[should_panic]
fn incomplete_binary_panics() {
    parse_str("1 +").unwrap();
}

#[test]
fn and_ok() {
    assert!(parse_str("let x = true && false").is_ok());
}

#[test]
fn or_ok() {
    assert!(parse_str("let x = true || false").is_ok());
}

#[test]
fn and_chained_ok() {
    assert!(parse_str("let x = true && false && true").is_ok());
}

#[test]
fn or_chained_ok() {
    assert!(parse_str("let x = true || false || true").is_ok());
}

#[test]
fn or_and_precedence_ok() {
    assert!(parse_str("let x = true || false && true").is_ok());
}

#[test]
fn logical_with_comparison_ok() {
    assert!(parse_str("let x = 1 < 2 && 3 > 2").is_ok());
}

#[test]
#[should_panic]
fn incomplete_and_panics() {
    parse_str("true &&").unwrap();
}

#[test]
#[should_panic]
fn incomplete_or_panics() {
    parse_str("true ||").unwrap();
}

#[test]
fn if_ok() {
    assert!(parse_str("if true { x = 1 }").is_ok());
}

#[test]
fn if_else_ok() {
    assert!(parse_str("if true { x = 1 } else { x = 2 }").is_ok());
}

#[test]
fn if_nested_ok() {
    assert!(parse_str("if true { if false { x = 1 } }").is_ok());
}

#[test]
#[should_panic]
fn bare_block_panics() {
    parse_str("{ 1 }").unwrap();
}

#[test]
#[should_panic]
fn if_missing_brace_panics() {
    parse_str("if true 1").unwrap();
}
