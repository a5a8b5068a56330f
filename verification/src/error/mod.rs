//! Diagnostics of the scanner and the parser: their messages, help texts,
//! codes and labels.
use vstd::prelude::*;

use crate::lexer::{token_name, TokenType};
use crate::text::{decimal, join_lines, push_char, push_decimal};

verus! {

/// A byte range of the source: where it starts and how many bytes it covers.
#[derive(Debug, Clone, Copy, PartialEq, Eq, Structural)]
pub struct Span {
    pub offset: usize,
    pub len: usize,
}

/// What the scanner can reject.
#[derive(Debug)]
pub enum LexError {
    UnexpectedChar { ch: char, span: Span },
    SingleAmpersand { span: Span },
    UnterminatedString { span: Span },
    InvalidNumber { text: String, span: Span },
    ExpectedIdentAfterAt { span: Span },
}

/// What the parser can reject.
#[derive(Debug)]
pub enum ParseError {
    TableExpectedComma { span: Span },
    ConstRequiresInitializer { span: Span },
    ChainedAssignment { span: Span },
    InvalidAssignTarget { span: Span },
    ExpectedExpression { span: Span },
    ExpectedToken { expected: TokenType, found: TokenType, span: Span, advice: Option<&'static str> },
    ExpectedConstruct { what: &'static str, span: Span, advice: Option<&'static str> },
    IfMissingCondition { span: Span },
    IfExprRequiresElse { span: Span },
    WhileMissingCondition { span: Span },
    ForMissingVars { span: Span },
    ExpressionHasNoEffect { span: Span },
}

/// The message of a scanner diagnostic.
pub open spec fn lex_message(e: LexError) -> Seq<char> {
    match e {
        LexError::UnexpectedChar { ch, .. } => "unexpected character '"@ + seq![ch] + "'"@,
        LexError::SingleAmpersand { .. } => "unexpected '&', did you mean '&&'?"@,
        LexError::UnterminatedString { .. } => "unterminated string"@,
        LexError::InvalidNumber { text, .. } => "could not parse number '"@ + text@ + "'"@,
        LexError::ExpectedIdentAfterAt { .. } => "expected an identifier after '@'"@,
    }
}

/// The help text of a scanner diagnostic, where it has one.
pub open spec fn lex_help(e: LexError) -> Option<Seq<char>> {
    match e {
        LexError::UnexpectedChar { .. } => None,
        LexError::SingleAmpersand { .. } => Some("paw uses '&&' for logical and; there is no single '&' operator"@),
        LexError::UnterminatedString { .. } => Some("add a closing '\"' to end the string"@),
        LexError::InvalidNumber { .. } => None,
        LexError::ExpectedIdentAfterAt { .. } => None,
    }
}

/// The code of a scanner diagnostic.
pub open spec fn lex_code(e: LexError) -> Seq<char> {
    match e {
        LexError::UnexpectedChar { .. } => "paw::lexer::unexpected_char"@,
        LexError::SingleAmpersand { .. } => "paw::lexer::single_ampersand"@,
        LexError::UnterminatedString { .. } => "paw::lexer::unterminated_string"@,
        LexError::InvalidNumber { .. } => "paw::lexer::invalid_number"@,
        LexError::ExpectedIdentAfterAt { .. } => "paw::lexer::expected_ident_after_at"@,
    }
}

/// The label that a scanner diagnostic puts on its span.
pub open spec fn lex_label(e: LexError) -> Seq<char> {
    match e {
        LexError::UnexpectedChar { .. } => "not valid here"@,
        LexError::SingleAmpersand { .. } => "expected another '&' here"@,
        LexError::UnterminatedString { .. } => "string starts here"@,
        LexError::InvalidNumber { .. } => "not a valid number"@,
        LexError::ExpectedIdentAfterAt { .. } => "expected a decorator name here"@,
    }
}

/// The span of a scanner diagnostic.
pub open spec fn lex_span(e: LexError) -> Span {
    match e {
        LexError::UnexpectedChar { span, .. } => span,
        LexError::SingleAmpersand { span, .. } => span,
        LexError::UnterminatedString { span, .. } => span,
        LexError::InvalidNumber { span, .. } => span,
        LexError::ExpectedIdentAfterAt { span, .. } => span,
    }
}

/// The message of a parser diagnostic.
pub open spec fn parse_message(e: ParseError) -> Seq<char> {
    match e {
        ParseError::TableExpectedComma { .. } => "expected ',' or '}' in table"@,
        ParseError::ConstRequiresInitializer { .. } => "constant variable requires an initializer"@,
        ParseError::ChainedAssignment { .. } => "chained assignment is not allowed"@,
        ParseError::InvalidAssignTarget { .. } => "invalid assignment target"@,
        ParseError::ExpectedExpression { .. } => "expected an expression"@,
        ParseError::ExpectedToken { expected, found, .. } => "expected "@ + token_name(expected) + ", found "@ + token_name(found),
        ParseError::ExpectedConstruct { what, .. } => "expected "@ + what@,
        ParseError::IfMissingCondition { .. } => "'if' requires a condition before the body"@,
        ParseError::IfExprRequiresElse { .. } => "if expression requires an 'else' branch"@,
        ParseError::WhileMissingCondition { .. } => "'while' requires a condition before the body"@,
        ParseError::ForMissingVars { .. } => "for loop requires at least one binding"@,
        ParseError::ExpressionHasNoEffect { .. } => "expression has no effect"@,
    }
}

/// The help text of a parser diagnostic, where it has one.
pub open spec fn parse_help(e: ParseError) -> Option<Seq<char>> {
    match e {
        ParseError::TableExpectedComma { .. } => Some("separate table fields with ',' and close the table with '}'"@),
        ParseError::ConstRequiresInitializer { .. } => None,
        ParseError::ChainedAssignment { .. } => Some("assign one value at a time"@),
        ParseError::InvalidAssignTarget { .. } => Some("the left side of '=' must be an expression or variable"@),
        ParseError::ExpectedExpression { .. } => None,
        ParseError::ExpectedToken { advice, .. } => match advice {
            Some(a) => Some(a@),
            None => None,
        },
        ParseError::ExpectedConstruct { advice, .. } => match advice {
            Some(a) => Some(a@),
            None => None,
        },
        ParseError::IfMissingCondition { .. } => Some("write a condition before '{'"@),
        ParseError::IfExprRequiresElse { .. } => Some("'if' used as a value must always produce one - add '} else { ... }'"@),
        ParseError::WhileMissingCondition { .. } => Some("write a condition before '{'"@),
        ParseError::ForMissingVars { .. } => Some("expected 'for <var(s)> in <expr> ...'"@),
        ParseError::ExpressionHasNoEffect { .. } => Some("only assignments and function calls can be used as statements"@),
    }
}

/// The code of a parser diagnostic.
pub open spec fn parse_code(e: ParseError) -> Seq<char> {
    match e {
        ParseError::TableExpectedComma { .. } => "paw::parser::table_expected_comma"@,
        ParseError::ConstRequiresInitializer { .. } => "paw::parser::const_requires_initializer"@,
        ParseError::ChainedAssignment { .. } => "paw::parser::chained_assignment"@,
        ParseError::InvalidAssignTarget { .. } => "paw::parser::invalid_assign_target"@,
        ParseError::ExpectedExpression { .. } => "paw::parser::expected_expression"@,
        ParseError::ExpectedToken { .. } => "paw::parser::expected_token"@,
        ParseError::ExpectedConstruct { .. } => "paw::parser::expected_construct"@,
        ParseError::IfMissingCondition { .. } => "paw::parser::if_missing_condition"@,
        ParseError::IfExprRequiresElse { .. } => "paw::parser::if_expr_requires_else"@,
        ParseError::WhileMissingCondition { .. } => "paw::parser::while_missing_condition"@,
        ParseError::ForMissingVars { .. } => "paw::parser::for_invalid_syntax"@,
        ParseError::ExpressionHasNoEffect { .. } => "paw::parser::expression_has_no_effect"@,
    }
}

/// The label that a parser diagnostic puts on its span.
pub open spec fn parse_label(e: ParseError) -> Seq<char> {
    match e {
        ParseError::TableExpectedComma { .. } => "expected ',' or '}' after this field"@,
        ParseError::ConstRequiresInitializer { .. } => "this 'const' has no '= value'"@,
        ParseError::ChainedAssignment { .. } => "unexpected second assignment"@,
        ParseError::InvalidAssignTarget { .. } => "cannot assign to this"@,
        ParseError::ExpectedExpression { .. } => "expected an expression here"@,
        ParseError::ExpectedToken { .. } => "unexpected token"@,
        ParseError::ExpectedConstruct { .. } => "here"@,
        ParseError::IfMissingCondition { .. } => "condition expected here, found '{'"@,
        ParseError::IfExprRequiresElse { .. } => "this 'if' has no 'else' statement"@,
        ParseError::WhileMissingCondition { .. } => "condition expected here, found '{'"@,
        ParseError::ForMissingVars { .. } => "expected an identifier here"@,
        ParseError::ExpressionHasNoEffect { .. } => "this expression does nothing"@,
    }
}

/// The span of a parser diagnostic.
pub open spec fn parse_span(e: ParseError) -> Span {
    match e {
        ParseError::TableExpectedComma { span, .. } => span,
        ParseError::ConstRequiresInitializer { span, .. } => span,
        ParseError::ChainedAssignment { span, .. } => span,
        ParseError::InvalidAssignTarget { span, .. } => span,
        ParseError::ExpectedExpression { span, .. } => span,
        ParseError::ExpectedToken { span, .. } => span,
        ParseError::ExpectedConstruct { span, .. } => span,
        ParseError::IfMissingCondition { span, .. } => span,
        ParseError::IfExprRequiresElse { span, .. } => span,
        ParseError::WhileMissingCondition { span, .. } => span,
        ParseError::ForMissingVars { span, .. } => span,
        ParseError::ExpressionHasNoEffect { span, .. } => span,
    }
}

impl LexError {
    /// The message of the diagnostic (see [`lex_message`]).
    pub fn to_string(&self) -> (r: String)
        ensures
            r@ == lex_message(*self),
    {
        match self {
            LexError::UnexpectedChar { ch, .. } => {
                let mut r = String::from_str("unexpected character '");
                push_char(&mut r, *ch);
                r.append("'");
                r
            },
            LexError::SingleAmpersand { .. } => String::from_str("unexpected '&', did you mean '&&'?"),
            LexError::UnterminatedString { .. } => String::from_str("unterminated string"),
            LexError::InvalidNumber { text, .. } => {
                let mut r = String::from_str("could not parse number '");
                r.append(text.as_str());
                r.append("'");
                r
            },
            LexError::ExpectedIdentAfterAt { .. } => String::from_str("expected an identifier after '@'"),
        }
    }

    /// The help text of the diagnostic, where it has one (see [`lex_help`]).
    pub fn help(&self) -> (r: Option<String>)
        ensures
            match r {
                Some(h) => lex_help(*self) == Some(h@),
                None => lex_help(*self) is None,
            },
    {
        match self {
            LexError::UnexpectedChar { .. } => None,
            LexError::SingleAmpersand { .. } => Some(String::from_str("paw uses '&&' for logical and; there is no single '&' operator")),
            LexError::UnterminatedString { .. } => Some(String::from_str("add a closing '\"' to end the string")),
            LexError::InvalidNumber { .. } => None,
            LexError::ExpectedIdentAfterAt { .. } => None,
        }
    }

    /// The code of the diagnostic (see [`lex_code`]).
    pub fn code(&self) -> (r: &'static str)
        ensures
            r@ == lex_code(*self),
    {
        match self {
            LexError::UnexpectedChar { .. } => "paw::lexer::unexpected_char",
            LexError::SingleAmpersand { .. } => "paw::lexer::single_ampersand",
            LexError::UnterminatedString { .. } => "paw::lexer::unterminated_string",
            LexError::InvalidNumber { .. } => "paw::lexer::invalid_number",
            LexError::ExpectedIdentAfterAt { .. } => "paw::lexer::expected_ident_after_at",
        }
    }

    /// The label the diagnostic puts on its span (see [`lex_label`]).
    pub fn label(&self) -> (r: &'static str)
        ensures
            r@ == lex_label(*self),
    {
        match self {
            LexError::UnexpectedChar { .. } => "not valid here",
            LexError::SingleAmpersand { .. } => "expected another '&' here",
            LexError::UnterminatedString { .. } => "string starts here",
            LexError::InvalidNumber { .. } => "not a valid number",
            LexError::ExpectedIdentAfterAt { .. } => "expected a decorator name here",
        }
    }

    /// The span of the diagnostic.
    pub fn span(&self) -> (r: Span)
        ensures
            r == lex_span(*self),
    {
        match self {
            LexError::UnexpectedChar { span, .. } => *span,
            LexError::SingleAmpersand { span, .. } => *span,
            LexError::UnterminatedString { span, .. } => *span,
            LexError::InvalidNumber { span, .. } => *span,
            LexError::ExpectedIdentAfterAt { span, .. } => *span,
        }
    }
}

impl ParseError {
    /// The message of the diagnostic (see [`parse_message`]).
    pub fn to_string(&self) -> (r: String)
        ensures
            r@ == parse_message(*self),
    {
        match self {
            ParseError::TableExpectedComma { .. } => String::from_str("expected ',' or '}' in table"),
            ParseError::ConstRequiresInitializer { .. } => String::from_str("constant variable requires an initializer"),
            ParseError::ChainedAssignment { .. } => String::from_str("chained assignment is not allowed"),
            ParseError::InvalidAssignTarget { .. } => String::from_str("invalid assignment target"),
            ParseError::ExpectedExpression { .. } => String::from_str("expected an expression"),
            ParseError::ExpectedToken { expected, found, .. } => {
                let mut r = String::from_str("expected ");
                r.append(expected.name());
                r.append(", found ");
                r.append(found.name());
                r
            },
            ParseError::ExpectedConstruct { what, .. } => {
                let mut r = String::from_str("expected ");
                r.append(*what);
                r
            },
            ParseError::IfMissingCondition { .. } => String::from_str("'if' requires a condition before the body"),
            ParseError::IfExprRequiresElse { .. } => String::from_str("if expression requires an 'else' branch"),
            ParseError::WhileMissingCondition { .. } => String::from_str("'while' requires a condition before the body"),
            ParseError::ForMissingVars { .. } => String::from_str("for loop requires at least one binding"),
            ParseError::ExpressionHasNoEffect { .. } => String::from_str("expression has no effect"),
        }
    }

    /// The help text of the diagnostic, where it has one (see [`parse_help`]).
    pub fn help(&self) -> (r: Option<String>)
        ensures
            match r {
                Some(h) => parse_help(*self) == Some(h@),
                None => parse_help(*self) is None,
            },
    {
        match self {
            ParseError::TableExpectedComma { .. } => Some(String::from_str("separate table fields with ',' and close the table with '}'")),
            ParseError::ConstRequiresInitializer { .. } => None,
            ParseError::ChainedAssignment { .. } => Some(String::from_str("assign one value at a time")),
            ParseError::InvalidAssignTarget { .. } => Some(String::from_str("the left side of '=' must be an expression or variable")),
            ParseError::ExpectedExpression { .. } => None,
            ParseError::ExpectedToken { advice, .. } => match advice {
                Some(a) => Some(String::from_str(*a)),
                None => None,
            },
            ParseError::ExpectedConstruct { advice, .. } => match advice {
                Some(a) => Some(String::from_str(*a)),
                None => None,
            },
            ParseError::IfMissingCondition { .. } => Some(String::from_str("write a condition before '{'")),
            ParseError::IfExprRequiresElse { .. } => Some(String::from_str("'if' used as a value must always produce one - add '} else { ... }'")),
            ParseError::WhileMissingCondition { .. } => Some(String::from_str("write a condition before '{'")),
            ParseError::ForMissingVars { .. } => Some(String::from_str("expected 'for <var(s)> in <expr> ...'")),
            ParseError::ExpressionHasNoEffect { .. } => Some(String::from_str("only assignments and function calls can be used as statements")),
        }
    }

    /// The code of the diagnostic (see [`parse_code`]).
    pub fn code(&self) -> (r: &'static str)
        ensures
            r@ == parse_code(*self),
    {
        match self {
            ParseError::TableExpectedComma { .. } => "paw::parser::table_expected_comma",
            ParseError::ConstRequiresInitializer { .. } => "paw::parser::const_requires_initializer",
            ParseError::ChainedAssignment { .. } => "paw::parser::chained_assignment",
            ParseError::InvalidAssignTarget { .. } => "paw::parser::invalid_assign_target",
            ParseError::ExpectedExpression { .. } => "paw::parser::expected_expression",
            ParseError::ExpectedToken { .. } => "paw::parser::expected_token",
            ParseError::ExpectedConstruct { .. } => "paw::parser::expected_construct",
            ParseError::IfMissingCondition { .. } => "paw::parser::if_missing_condition",
            ParseError::IfExprRequiresElse { .. } => "paw::parser::if_expr_requires_else",
            ParseError::WhileMissingCondition { .. } => "paw::parser::while_missing_condition",
            ParseError::ForMissingVars { .. } => "paw::parser::for_invalid_syntax",
            ParseError::ExpressionHasNoEffect { .. } => "paw::parser::expression_has_no_effect",
        }
    }

    /// The label the diagnostic puts on its span (see [`parse_label`]).
    pub fn label(&self) -> (r: &'static str)
        ensures
            r@ == parse_label(*self),
    {
        match self {
            ParseError::TableExpectedComma { .. } => "expected ',' or '}' after this field",
            ParseError::ConstRequiresInitializer { .. } => "this 'const' has no '= value'",
            ParseError::ChainedAssignment { .. } => "unexpected second assignment",
            ParseError::InvalidAssignTarget { .. } => "cannot assign to this",
            ParseError::ExpectedExpression { .. } => "expected an expression here",
            ParseError::ExpectedToken { .. } => "unexpected token",
            ParseError::ExpectedConstruct { .. } => "here",
            ParseError::IfMissingCondition { .. } => "condition expected here, found '{'",
            ParseError::IfExprRequiresElse { .. } => "this 'if' has no 'else' statement",
            ParseError::WhileMissingCondition { .. } => "condition expected here, found '{'",
            ParseError::ForMissingVars { .. } => "expected an identifier here",
            ParseError::ExpressionHasNoEffect { .. } => "this expression does nothing",
        }
    }

    /// The span of the diagnostic.
    pub fn span(&self) -> (r: Span)
        ensures
            r == parse_span(*self),
    {
        match self {
            ParseError::TableExpectedComma { span, .. } => *span,
            ParseError::ConstRequiresInitializer { span, .. } => *span,
            ParseError::ChainedAssignment { span, .. } => *span,
            ParseError::InvalidAssignTarget { span, .. } => *span,
            ParseError::ExpectedExpression { span, .. } => *span,
            ParseError::ExpectedToken { span, .. } => *span,
            ParseError::ExpectedConstruct { span, .. } => *span,
            ParseError::IfMissingCondition { span, .. } => *span,
            ParseError::IfExprRequiresElse { span, .. } => *span,
            ParseError::WhileMissingCondition { span, .. } => *span,
            ParseError::ForMissingVars { span, .. } => *span,
            ParseError::ExpressionHasNoEffect { span, .. } => *span,
        }
    }
}

/// Every diagnostic that one pass over the source produced.
#[derive(Debug)]
pub struct CompileErrors<E> {
    pub errors: Vec<E>,
}

/// The one-line summary of a failed pass with `count` diagnostics.
pub open spec fn summary_text(count: nat) -> Seq<char> {
    "compilation failed with "@ + decimal(count) + " error(s)"@
}

impl<E> CompileErrors<E> {
    pub fn new(errors: Vec<E>) -> (r: Self)
        ensures
            r.errors == errors,
    {
        Self { errors }
    }

    /// The summary line (see [`summary_text`]).
    pub fn to_string(&self) -> (r: String)
        ensures
            r@ == summary_text(self.errors@.len()),
    {
        let mut r = String::from_str("compilation failed with ");
        push_decimal(&mut r, self.errors.len());
        r.append(" error(s)");
        r
    }
}

/// The messages of scanner diagnostics, one per line.
pub open spec fn lex_messages_text(errors: Seq<LexError>) -> Seq<char> {
    join_lines(errors.map_values(|e: LexError| lex_message(e)))
}

/// The messages of parser diagnostics, one per line.
pub open spec fn parse_messages_text(errors: Seq<ParseError>) -> Seq<char> {
    join_lines(errors.map_values(|e: ParseError| parse_message(e)))
}

/// The messages of all scanner diagnostics, one per line.
pub fn lex_messages(errors: &CompileErrors<LexError>) -> (r: String)
    ensures
        r@ == lex_messages_text(errors.errors@),
{
    let ghost lines = errors.errors@.map_values(|e: LexError| lex_message(e));
    let mut r = String::new();
    let mut i: usize = 0;
    while i < errors.errors.len()
        invariant
            i <= errors.errors.len(),
            lines == errors.errors@.map_values(|e: LexError| lex_message(e)),
            r@ == join_lines(lines.take(i as int)),
        decreases errors.errors.len() - i,
    {
        assert(lines.take(i + 1).drop_last() =~= lines.take(i as int));
        if i > 0 {
            push_char(&mut r, '\n');
        }
        let m = errors.errors[i].to_string();
        r.append(m.as_str());
        i = i + 1;
        proof {
            if i == 1 {
                assert(lines.take(0) =~= Seq::<Seq<char>>::empty());
            }
        }
    }
    assert(lines.take(i as int) =~= lines);
    r
}

/// The messages of all parser diagnostics, one per line.
pub fn parse_messages(errors: &CompileErrors<ParseError>) -> (r: String)
    ensures
        r@ == parse_messages_text(errors.errors@),
{
    let ghost lines = errors.errors@.map_values(|e: ParseError| parse_message(e));
    let mut r = String::new();
    let mut i: usize = 0;
    while i < errors.errors.len()
        invariant
            i <= errors.errors.len(),
            lines == errors.errors@.map_values(|e: ParseError| parse_message(e)),
            r@ == join_lines(lines.take(i as int)),
        decreases errors.errors.len() - i,
    {
        assert(lines.take(i + 1).drop_last() =~= lines.take(i as int));
        if i > 0 {
            push_char(&mut r, '\n');
        }
        let m = errors.errors[i].to_string();
        r.append(m.as_str());
        i = i + 1;
        proof {
            if i == 1 {
                assert(lines.take(0) =~= Seq::<Seq<char>>::empty());
            }
        }
    }
    assert(lines.take(i as int) =~= lines);
    r
}

} // verus!
