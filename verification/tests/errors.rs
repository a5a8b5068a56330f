use paw_lang::error::{lex_messages, parse_messages, CompileErrors, LexError, ParseError, Span};
use paw_lang::lexer::TokenType;

fn span(offset: usize, len: usize) -> Span {
    Span { offset, len }
}

#[test]
fn lex_error_message_includes_char() {
    let err = LexError::UnexpectedChar {
        ch: '$',
        span: span(8, 1),
    };
    assert_eq!(err.to_string(), "unexpected character '$'");
}

#[test]
fn lex_error_unterminated_string_message() {
    let err = LexError::UnterminatedString {
        span: span(10, 6),
    };
    assert_eq!(err.to_string(), "unterminated string");
}

#[test]
fn lex_error_carries_help_text() {
    let err = LexError::SingleAmpersand {
        span: span(3, 1),
    };
    let help = err.help();
    assert_eq!(
        help.as_deref(),
        Some("paw uses '&&' for logical and; there is no single '&' operator")
    );
}

#[test]
fn lex_error_has_diagnostic_code() {
    let err = LexError::UnexpectedChar {
        ch: '#',
        span: span(0, 1),
    };
    let code = Some(err.code().to_string());
    assert_eq!(code.as_deref(), Some("paw::lexer::unexpected_char"));
}

#[test]
fn parse_error_expected_token_message() {
    let err = ParseError::ExpectedToken {
        expected: TokenType::RightParen,
        found: TokenType::Eof,
        span: span(12, 1),
        advice: None,
    };
    assert_eq!(err.to_string(), "expected RightParen, found Eof");
}

#[test]
fn parse_error_expected_token_with_advice() {
    let err = ParseError::ExpectedToken {
        expected: TokenType::RightParen,
        found: TokenType::Eof,
        span: span(12, 1),
        advice: Some("did you forget to close the parenthesis?"),
    };
    assert_eq!(
        err.help().as_deref(),
        Some("did you forget to close the parenthesis?")
    );
}

#[test]
fn parse_error_const_no_help() {
    let err = ParseError::ConstRequiresInitializer {
        span: span(0, 5),
    };
    assert!(err.help().is_none());
}

#[test]
fn compile_errors_message() {
    let errs: CompileErrors<LexError> = CompileErrors::new(vec![
        LexError::UnterminatedString { span: span(0, 1) },
        LexError::SingleAmpersand { span: span(5, 1) },
    ]);
    assert_eq!(errs.to_string(), "compilation failed with 2 error(s)");
}

#[test]
#[should_panic]
fn unwrap_missing_help_panics() {
    let err = ParseError::ExpectedExpression {
        span: span(4, 1),
    };
    err.help().expect("no help text on this variant");
}

#[test]
fn lex_error_spans_and_labels() {
    let err = LexError::SingleAmpersand { span: span(3, 1) };
    assert_eq!(err.span(), span(3, 1));
    assert_eq!(err.label(), "expected another '&' here");
    assert_eq!(err.code(), "paw::lexer::single_ampersand");
}

#[test]
fn compile_errors_count_of_one() {
    let errs: CompileErrors<ParseError> =
        CompileErrors::new(vec![ParseError::ExpectedExpression { span: span(0, 1) }]);
    assert_eq!(errs.to_string(), "compilation failed with 1 error(s)");
}

#[test]
fn messages_are_joined_by_lines() {
    let errs: CompileErrors<LexError> = CompileErrors::new(vec![
        LexError::UnexpectedChar { ch: '$', span: span(0, 1) },
        LexError::UnterminatedString { span: span(2, 3) },
    ]);
    assert_eq!(lex_messages(&errs), "unexpected character '$'\nunterminated string");
    let none: CompileErrors<ParseError> = CompileErrors::new(vec![]);
    assert_eq!(parse_messages(&none), "");
}
