use paw_lang::codegen::emitter::Emitter;
use paw_lang::codegen::statements::Statement;
use paw_lang::codegen::{can_emit, Codegen};
use paw_lang::compile_tokens;
use paw_lang::error::{LexError, ParseError, Span};
use paw_lang::lexer::expr::Expr;
use paw_lang::lexer::parser::{has_eof, Parser};
use paw_lang::lexer::scanner::Scanner;
use paw_lang::lexer::{LiteralValue, Token, TokenType};

fn scan(src: &str) -> Vec<Token> {
    Scanner::new(src).scan_tokens().expect("scan failed")
}

fn kinds(src: &str) -> Vec<TokenType> {
    scan(src).iter().map(|t| t.token_type).collect()
}

fn lex_errors(src: &str) -> Vec<LexError> {
    match Scanner::new(src).scan_tokens() {
        Ok(_) => panic!("expected diagnostics"),
        Err(e) => e.errors,
    }
}

fn parse_errors(src: &str) -> Vec<ParseError> {
    match Parser::new(scan(src)).parse() {
        Ok(_) => panic!("expected diagnostics"),
        Err(e) => e.errors,
    }
}

fn compile(src: &str) -> String {
    match compile_tokens(scan(src)) {
        Some(Ok(code)) => code,
        Some(Err(msg)) => panic!("{msg}"),
        None => panic!("cannot compile"),
    }
}

#[test]
fn operators_scan_longest_first() {
    assert_eq!(
        kinds("+= -> => == != <= >= :: || && ?? ?. ..= .. ."),
        vec![
            TokenType::PlusEqual, TokenType::Arrow, TokenType::FatArrow, TokenType::EqualEqual, TokenType::BangEqual, TokenType::LessEqual, TokenType::GreaterEqual, TokenType::ColonColon,
            TokenType::Or, TokenType::And, TokenType::QuestionQuestion, TokenType::QuestionDot, TokenType::DotDotEqual, TokenType::DotDot, TokenType::Dot, TokenType::Eof
        ]
    );
}

#[test]
fn keywords_and_names() {
    assert_eq!(
        kinds("let const if else while loop for in return self selfie If"),
        vec![TokenType::Let, TokenType::Const, TokenType::If, TokenType::Else, TokenType::While, TokenType::Loop, TokenType::For, TokenType::In, TokenType::Return, TokenType::KwSelf, TokenType::Identifier, TokenType::Identifier, TokenType::Eof]
    );
    assert_eq!(TokenType::from_str("while"), Some(TokenType::While));
    assert_eq!(TokenType::from_str("While"), None);
    assert_eq!(TokenType::from_str("self"), Some(TokenType::KwSelf));
}

#[test]
fn comments_and_blanks_are_skipped() {
    assert_eq!(kinds("x // a comment\n\t y"), vec![TokenType::Identifier, TokenType::Identifier, TokenType::Eof]);
    assert_eq!(kinds("// only a comment"), vec![TokenType::Eof]);
}

#[test]
fn numbers_keep_their_text() {
    let ts = scan("3.25 7.");
    assert_eq!(ts[0].token_type, TokenType::Number);
    assert!(matches!(&ts[0].literal, Some(LiteralValue::NumberValue(n)) if n == "3.25"));
    assert_eq!(ts[1].lexeme, "7");
    assert_eq!(ts[2].token_type, TokenType::Dot);
}

#[test]
fn strings_hold_their_text_and_count_lines() {
    let ts = scan("\"a\nb\" x");
    assert_eq!(ts[0].token_type, TokenType::Str);
    assert!(matches!(&ts[0].literal, Some(LiteralValue::StringValue(s)) if s == "a\nb"));
    assert_eq!(ts[0].line, 2);
    assert_eq!(ts[1].line, 2);
}

#[test]
fn offsets_count_bytes() {
    let ts = scan("é x");
    assert_eq!(ts[0].offset, 0);
    assert_eq!(ts[0].span(), Span { offset: 0, len: 2 });
    assert_eq!(ts[1].offset, 3);
    assert_eq!(ts[2].token_type, TokenType::Eof);
    assert_eq!(ts[2].offset, 4);
}

#[test]
fn every_lex_error_is_reported() {
    let errs = lex_errors("a & b $ \"open");
    assert_eq!(errs.len(), 3);
    assert!(matches!(errs[0], LexError::SingleAmpersand { span: Span { offset: 2, len: 1 } }));
    assert!(matches!(errs[1], LexError::UnexpectedChar { ch: '$', span: Span { offset: 6, len: 1 } }));
    assert!(matches!(errs[2], LexError::UnterminatedString { span: Span { offset: 8, len: 5 } }));
}

#[test]
fn decorator_errors() {
    let errs = lex_errors("@");
    assert!(matches!(errs[0], LexError::ExpectedIdentAfterAt { span: Span { offset: 0, len: 1 } }));
}

#[test]
fn parser_reports_each_statement_and_recovers() {
    let errs = parse_errors("let = 1\nconst z 5\nlet y = 2\nx");
    assert_eq!(errs.len(), 3);
    assert!(matches!(
        errs[0],
        ParseError::ExpectedToken { expected: TokenType::Identifier, found: TokenType::Equal, .. }
    ));
    assert!(matches!(errs[1], ParseError::ConstRequiresInitializer { .. }));
    assert!(matches!(errs[2], ParseError::ExpressionHasNoEffect { .. }));
}

#[test]
fn parser_error_kinds() {
    assert!(matches!(parse_errors("x = y = 3")[0], ParseError::ChainedAssignment { .. }));
    assert!(matches!(parse_errors("1 = 2")[0], ParseError::InvalidAssignTarget { .. }));
    assert!(matches!(parse_errors("if { x = 1 }")[0], ParseError::IfMissingCondition { .. }));
    assert!(matches!(parse_errors("while { x = 1 }")[0], ParseError::WhileMissingCondition { .. }));
    assert!(matches!(parse_errors("for in x { }")[0], ParseError::ForMissingVars { .. }));
    assert!(matches!(parse_errors("let t = { a = 1 b = 2 }")[0], ParseError::TableExpectedComma { .. }));
    assert!(matches!(parse_errors("let v = if c { 1 }")[0], ParseError::IfExprRequiresElse { .. }));
    assert!(matches!(parse_errors("let v = )")[0], ParseError::ExpectedExpression { .. }));
}

#[test]
fn parsed_statements_have_the_expected_shape() {
    let stmts = Parser::new(scan("for i, v in t { break }\nreturn")).parse().expect("parse failed");
    assert_eq!(stmts.len(), 2);
    match &stmts[0] {
        Statement::For { ident, step, .. } => {
            assert_eq!(ident.len(), 2);
            assert_eq!(ident[1].lexeme, "v");
            assert!(step.is_none());
        }
        _ => panic!("expected a for loop"),
    }
    assert!(matches!(stmts[1], Statement::Return(None)));
}

#[test]
fn left_associative_chains() {
    let e = Parser::new(scan("a - b - c")).expression().expect("parse failed");
    assert_eq!(e.to_string(), "(- (- (var a) (var b)) (var c))");
    let e = Parser::new(scan("-!x")).expression().expect("parse failed");
    assert_eq!(e.to_string(), "(- (! (var x)))");
}

#[test]
fn table_prefix_form() {
    let e = Parser::new(scan("{ a = 1, [k] = 2, 3 }")).expression().expect("parse failed");
    assert!(matches!(e, Expr::Table { multiline: false, .. }));
    assert_eq!(e.to_string(), "(table (= a 1) (= [(var k)] 2) 3)");
}

#[test]
fn compile_lowers_a_program() {
    assert_eq!(
        compile("let t = {\n a = 1,\n b = { 2 },\n}\nfor i in 1..=3 { break }"),
        "local t = {\n\ta = 1,\n\tb = {2},\n}\nfor i = 1, 3 do\n\tbreak\nend\n"
    );
}

#[test]
fn compile_nested_loop_indents_twice() {
    assert_eq!(
        compile("if a { loop { return } }"),
        "if a then\n\t\ttask.spawn(function()\n\t\twhile true do\n\t\t\treturn\n\t\tend\n\tend)\nend\n"
    );
}

#[test]
fn compile_reports_parse_messages() {
    assert_eq!(
        compile_tokens(scan("const x 0\nlet y = )")),
        Some(Err("constant variable requires an initializer\nexpected an expression".to_string()))
    );
}

#[test]
fn compile_needs_an_eof_token() {
    let mut tokens = scan("x = 1");
    tokens.pop();
    assert!(!has_eof(&tokens));
    assert_eq!(compile_tokens(tokens), None);
}

#[test]
fn compile_stops_at_a_literal_without_value() {
    let mut tokens = scan("x = 1");
    tokens[2].literal = None;
    assert_eq!(compile_tokens(tokens), None);
}

#[test]
fn decorator_literal_cannot_be_lowered() {
    let name = Token {
        lexeme: "x".to_string(),
        literal: None,
        token_type: TokenType::Identifier,
        offset: 0,
        line: 1,
    };
    let stmts = vec![Statement::Variable {
        name,
        init: Some(Expr::Literal(LiteralValue::DecoratorValue("d".to_string()))),
        kind: paw_lang::codegen::statements::VarKind::Let,
    }];
    assert!(!can_emit(&stmts, 0));
    let ok = vec![Statement::Break];
    assert!(can_emit(&ok, 0));
    let mut cg = Codegen::new(Emitter::new());
    cg.emit_program(&ok);
    assert_eq!(cg.finish(), "break\n");
}

#[test]
fn token_and_literal_printing() {
    let ts = scan("@dec \"s\" nil");
    assert_eq!(ts[0].literal.as_ref().unwrap().to_string(), "@dec");
    assert_eq!(ts[1].to_string(), "Str \"s\"");
    assert_eq!(TokenType::LeftParen.to_string(), "LeftParen");
    assert_eq!(TokenType::Eof.name(), "Eof");
    let v = LiteralValue::from_token(ts[2].clone());
    assert!(matches!(v, LiteralValue::Nil));
}

#[test]
fn tokens_are_their_source_text() {
    let src = "let é = { [\"k\"] = 1.5 } // c\nx = é";
    let tokens = scan(src);
    let mut last_end = 0;
    for t in &tokens {
        let start = t.offset as usize;
        let end = start + t.lexeme.len();
        assert!(last_end <= start);
        assert_eq!(&src[start..end], t.lexeme);
        last_end = end;
    }
    let eof = tokens.last().unwrap();
    assert_eq!(eof.token_type, TokenType::Eof);
    assert_eq!(eof.offset as usize, src.len());
}

#[test]
fn kind_spellings_are_read_back() {
    assert_eq!(TokenType::from_str("leftparen"), Some(TokenType::LeftParen));
    assert_eq!(TokenType::from_str("eof"), Some(TokenType::Eof));
    assert_eq!(TokenType::from_str("kwself"), None);
    assert_eq!(kinds("nil true false"), vec![TokenType::Nil, TokenType::True, TokenType::False, TokenType::Eof]);
}

#[test]
fn lowering_in_pieces_matches_lowering_at_once() {
    let a = Parser::new(scan("let x = 1")).parse().expect("parse failed");
    let b = Parser::new(scan("while x { x = x - 1 }")).parse().expect("parse failed");
    let both = Parser::new(scan("let x = 1\nwhile x { x = x - 1 }")).parse().expect("parse failed");
    let mut cg = Codegen::new(Emitter::new());
    cg.emit_program(&a);
    cg.emit_program(&b);
    let mut whole = Codegen::new(Emitter::new());
    whole.emit_program(&both);
    assert_eq!(cg.finish(), whole.finish());
}

#[test]
fn statement_prefix_form() {
    let stmts = Parser::new(scan(
        "let a = 1\nconst b\n",
    ))
    .try_parse();
    assert!(matches!(stmts, Some(Err(_))));
    let stmts = Parser::new(scan(
        "let a = 1\nif a { x = 2 } else { return }\nloop { break }\nfor i in 0..n { continue }",
    ))
    .parse()
    .expect("parse failed");
    let printed: Vec<String> = stmts.iter().map(|s| s.to_string()).collect();
    assert_eq!(
        printed,
        vec![
            "(let a 1)",
            "(if (var a) (block (stmt (= x 2))) (block (return)))",
            "(loop (block (break)))",
            "(for i (.. 0 (var n)) (block (continue)))",
        ]
    );
    assert_eq!(paw_lang::codegen::statements::VarKind::Const.to_string(), "const");
}

#[test]
fn operators_group_by_precedence() {
    let e = Parser::new(scan("1 - 2 * 3 - 4")).expression().expect("parse failed");
    assert_eq!(e.to_string(), "(- (- 1 (* 2 3)) 4)");
    let e = Parser::new(scan("a || b && c == d < e + f * g")).expression().expect("parse failed");
    assert_eq!(
        e.to_string(),
        "(|| (var a) (&& (var b) (== (var c) (< (var d) (+ (var e) (* (var f) (var g)))))))"
    );
    let e = Parser::new(scan("(a || b) && c")).expression().expect("parse failed");
    assert_eq!(e.to_string(), "(&& (group (|| (var a) (var b))) (var c))");
}

#[test]
fn try_expression_reports_missing_literals() {
    let mut tokens = scan("1 + 2");
    tokens[2].literal = None;
    assert!(Parser::new(tokens).try_expression().is_none());
    let e = Parser::new(scan("1 + 2")).try_expression();
    assert!(matches!(e, Some(Ok(ref x)) if x.to_string() == "(+ 1 2)"));
    assert!(matches!(Parser::new(scan(")")).try_expression(), Some(Err(ParseError::ExpectedExpression { .. }))));
}

#[test]
fn lower_tokens_gives_code_or_diagnostics() {
    assert_eq!(paw_lang::lower_tokens(scan("x = 1")).unwrap().unwrap(), "x = 1\n");
    let errs = paw_lang::lower_tokens(scan("const x 0\nlet y = )")).unwrap().unwrap_err();
    assert_eq!(errs.errors.len(), 2);
    assert!(matches!(errs.errors[1], ParseError::ExpectedExpression { .. }));
}

#[test]
fn lowered_lines_keep_the_level() {
    let stmts = Parser::new(scan(
        "if a { loop { x = { \n b = 1 } } } else if c { for i in 0..n { y = 2 } } else { return }",
    ))
    .parse()
    .expect("parse failed");
    let mut e = Emitter::new();
    e.indent();
    e.indent();
    let mut cg = Codegen::new(e);
    cg.emit_program(&stmts);
    let out = cg.finish();
    assert!(out.ends_with('\n'));
    for line in out.lines() {
        assert!(line.starts_with("\t\t"), "line {line:?}");
    }
    let blank = vec![Statement::Block(vec![Statement::Block(vec![])])];
    let mut cg = Codegen::new(Emitter::new());
    cg.emit_program(&blank);
    assert_eq!(cg.finish(), "");
}
