use paw_lang::codegen::emitter::Emitter;
use paw_lang::codegen::{can_emit, Codegen};
use paw_lang::lexer::parser::Parser;
use paw_lang::lexer::scanner::Scanner;
use paw_lang::lexer::{LiteralValue, Token, TokenType};

/// Number literals keep their source text; their value is printed as an
/// `f64` prints.
fn render_numbers(tokens: Vec<Token>) -> Vec<Token> {
    tokens
        .into_iter()
        .map(|mut t| {
            if t.token_type == TokenType::Number {
                if let Some(LiteralValue::NumberValue(text)) = &t.literal {
                    let value: f64 = text.parse().expect("number literal");
                    t.literal = Some(LiteralValue::NumberValue(value.to_string()));
                }
            }
            t
        })
        .collect()
}

fn compile(src: &str) -> String {
    let tokens = Scanner::new(src).scan_tokens().expect("scan failed");
    let tokens = render_numbers(tokens);
    let stmts = Parser::new(tokens).parse().expect("parse failed");
    assert!(can_emit(&stmts, 0), "cannot be lowered");

    let mut cg = Codegen::new(Emitter::new());
    cg.emit_program(&stmts);
    cg.finish()
}

#[test]
fn mod_literal_num() {
    assert_eq!(compile("let x = 42"), "local x = 42\n");
}

#[test]
fn mod_literal_string() {
    assert_eq!(compile("let x = \"hello\""), "local x = \"hello\"\n");
}

#[test]
fn mod_binary_add() {
    assert_eq!(compile("let x = 1 + 2"), "local x = 1 + 2\n");
}

#[test]
fn mod_binary_neq() {
    assert_eq!(compile("let x = 1 != 2"), "local x = 1 ~= 2\n");
}

#[test]
fn mod_unary_not() {
    assert_eq!(compile("let x = !true"), "local x = not true\n");
}

#[test]
fn mod_unary_neg() {
    assert_eq!(compile("let x = -5"), "local x = -5\n");
}

#[test]
fn mod_grouping() {
    assert_eq!(compile("let x = (1 + 2)"), "local x = (1 + 2)\n");
}

#[test]
fn mod_nested_binary() {
    assert_eq!(compile("let x = 1 + 2 * 3"), "local x = 1 + 2 * 3\n");
}

#[test]
#[should_panic]
fn mod_bare_expr_panics() {
    compile("42");
}

#[test]
fn mod_let_decl() {
    assert_eq!(compile("let x = 5"), "local x = 5\n");
}

#[test]
fn mod_let_no_init_fallback() {
    assert_eq!(compile("let x"), "local x\n");
}

#[test]
fn mod_const_decl() {
    assert_eq!(compile("const x = 5"), "const x = 5\n");
}

#[test]
fn mod_variable_ref() {
    assert_eq!(compile("let y = x"), "local y = x\n");
}

#[test]
fn mod_assign_literal() {
    assert_eq!(compile("x = 5"), "x = 5\n");
}

#[test]
fn mod_assign_expr() {
    assert_eq!(compile("x = 1 + 2"), "x = 1 + 2\n");
}

#[test]
fn mod_let_then_assign() {
    assert_eq!(
        compile("let x = 1\nx = 2"),
        "local x = 1\nx = 2\n"
    );
}

#[test]
fn mod_logical_and_emits_word() {
    assert_eq!(compile("let x = true && false"), "local x = true and false\n");
}

#[test]
fn mod_logical_or_emits_word() {
    assert_eq!(compile("let x = true || false"), "local x = true or false\n");
}

#[test]
fn mod_logical_mixed() {
    assert_eq!(
        compile("let x = true || false && true"),
        "local x = true or false and true\n"
    );
}

#[test]
fn mod_if_no_else() {
    assert_eq!(
        compile("if true { x = 1 }"),
        "if true then\n\tx = 1\nend\n"
    );
}

#[test]
fn mod_if_with_else() {
    assert_eq!(
        compile("if true { x = 1 } else { x = 2 }"),
        "if true then\n\tx = 1\nelse\n\tx = 2\nend\n"
    );
}

#[test]
fn if_condition_expr() {
    assert_eq!(
        compile("if x > 0 { y = 1 }"),
        "if x > 0 then\n\ty = 1\nend\n"
    );
}

#[test]
fn if_nested() {
    assert_eq!(
        compile("if true { if false { x = 1 } }"),
        "if true then\n\tif false then\n\t\tx = 1\n\tend\nend\n"
    );
}

#[test]
fn mod_if_block_multiple_stmts() {
    assert_eq!(
        compile("if true { let x = 1\nx = 2 }"),
        "if true then\n\tlocal x = 1\n\tx = 2\nend\n"
    );
}

#[test]
fn else_if_emits_elseif() {
    assert_eq!(
        compile("if x > 5 { y = 1 } else if x > 0 { y = 2 }"),
        "if x > 5 then\n\ty = 1\nelseif x > 0 then\n\ty = 2\nend\n"
    );
}

#[test]
fn if_expr_in_let() {
    assert_eq!(
        compile("let label = if score > 50 { \"Win\" } else { \"Loss\" }"),
        "local label = if score > 50 then \"Win\" else \"Loss\"\n"
    );
}

#[test]
fn if_expr_nested() {
    assert_eq!(
        compile("let x = if a { if b { 1 } else { 2 } } else { 3 }"),
        "local x = if a then if b then 1 else 2 else 3\n"
    );
}

#[test]
#[should_panic]
fn if_expr_no_else_panics() {
    compile("let x = if true { 1 }");
}

#[test]
fn else_if_chain_emits_elseif() {
    assert_eq!(
        compile("if x > 5 { y = 1 } else if x > 0 { y = 2 } else { y = 3 }"),
        "if x > 5 then\n\ty = 1\nelseif x > 0 then\n\ty = 2\nelse\n\ty = 3\nend\n"
    );
}

#[test]
fn while_basic() {
    assert_eq!(
        compile("while x < 10 { x = x + 1 }"),
        "while x < 10 do\n\tx = x + 1\nend\n"
    );
}

#[test]
#[should_panic]
fn while_missing_condition_panics() {
    compile("while { x = 1 }");
}

#[test]
#[should_panic]
fn while_missing_body_panics() {
    compile("while x > 0");
}

#[test]
fn loop_basic() {
    assert_eq!(
        compile("loop { x = x + 1 }"),
        "task.spawn(function()\n\twhile true do\n\t\tx = x + 1\n\tend\nend)\n"
    );
}

#[test]
fn table_empty() {
    assert_eq!(compile("let t = {}"), "local t = {}\n");
}

#[test]
fn table_keyed() {
    assert_eq!(
        compile("let t = { x = 1, y = 2 }"),
        "local t = {x = 1, y = 2}\n"
    );
}

#[test]
fn table_positional() {
    assert_eq!(
        compile("let t = { 1, 2, 3 }"),
        "local t = {1, 2, 3}\n"
    );
}

#[test]
fn table_nested() {
    assert_eq!(
        compile("let t = { pos = { x = 1, y = 2 } }"),
        "local t = {pos = {x = 1, y = 2}}\n"
    );
}

#[test]
fn table_in_return() {
    assert_eq!(
        compile("return { ok = true }"),
        "return {ok = true}\n"
    );
}

#[test]
fn table_computed_string_key() {
    assert_eq!(
        compile("let t = { [\"name\"] = 3 }"),
        "local t = {[\"name\"] = 3}\n"
    );
}

#[test]
fn table_computed_expr_key() {
    assert_eq!(
        compile("let t = { [2 == 2] = 1 }"),
        "local t = {[2 == 2] = 1}\n"
    );
}

#[test]
#[should_panic]
fn table_computed_unclosed_bracket_panics() {
    compile("let t = { [\"x\" = 1 }");
}

#[test]
fn table_trailing_comma() {
    assert_eq!(
        compile("let t = { x = 1, y = 2, }"),
        "local t = {x = 1, y = 2}\n"
    );
}

#[test]
#[should_panic]
fn table_missing_comma_panics() {
    compile("let t = { x = 1 y = 2 }");
}

#[test]
#[should_panic]
fn table_unclosed_panics() {
    compile("let t = { x = 1");
}

#[test]
fn if_do_single_stmt() {
    assert_eq!(
        compile("if x > 0 do return x"),
        "if x > 0 then\n\treturn x\nend\n"
    );
}

#[test]
fn continue_in_while() {
    assert_eq!(
        compile("while true { continue }"),
        "while true do\n\tcontinue\nend\n"
    );
}

#[test]
fn for_range() {
    assert_eq!(
        compile("for i in 0..10 { x = i }"),
        "for i = 0, 10 - 1 do\n\tx = i\nend\n"
    );
}

#[test]
fn for_collection_one_var() {
    assert_eq!(
        compile("for item in inventory { x = item }"),
        "for item in inventory do\n\tx = item\nend\n"
    );
}

#[test]
fn for_collection_two_vars() {
    assert_eq!(
        compile("for i, item in inventory { x = item }"),
        "for i, item in inventory do\n\tx = item\nend\n"
    );
}
