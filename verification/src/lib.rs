//! A small language that compiles to Luau: a scanner, a recursive-descent
//! parser with error recovery, and a code generator, each with contracts that
//! Verus proves.
pub mod text;

pub mod error;
pub mod lexer;
pub mod codegen;
pub mod lowerable;

use vstd::prelude::*;

use crate::codegen::emitter::Emitter;
use crate::codegen::statements::{stmts_view, Statement};
use crate::codegen::{can_emit, stmts_code, stmts_emittable, Codegen};
use crate::error::{parse_messages, parse_messages_text, CompileErrors, ParseError};
use crate::lexer::parser::{eof_ahead, has_eof, parse_outcome, Parser};
use crate::lexer::Token;
use crate::lowerable::law_parsed_programs_lower;

verus! {

/// What lowering a token list gives: `None` where it cannot be lowered (no
/// `Eof` token, a literal token without its value, or code that cannot be
/// lowered); otherwise the Luau code, or every diagnostic of the parser.
pub open spec fn lower_outcome(tokens: Seq<Token>) -> Option<Result<Seq<char>, Seq<ParseError>>> {
    if !eof_ahead(tokens, 0) {
        None
    } else {
        match parse_outcome(tokens, 0) {
            None => None,
            Some(Err(errors)) => Some(Err(errors)),
            Some(Ok(stmts)) => if stmts_emittable(stmts, 0) {
                Some(Ok(stmts_code(stmts, 0)))
            } else {
                None
            },
        }
    }
}

/// What a call of [`lower_tokens`] gave, as mathematical values.
pub open spec fn lowered_view(r: Option<Result<String, CompileErrors<ParseError>>>) -> Option<
    Result<Seq<char>, Seq<ParseError>>,
> {
    match r {
        None => None,
        Some(Ok(code)) => Some(Ok(code@)),
        Some(Err(e)) => Some(Err(e.errors@)),
    }
}

/// Parses the tokens and lowers the program to Luau; a program the parser
/// refuses gives every diagnostic.
pub fn lower_tokens(tokens: Vec<Token>) -> (r: Option<Result<String, CompileErrors<ParseError>>>)
    ensures
        lowered_view(r) == lower_outcome(tokens@),
{
    if !has_eof(&tokens) {
        return None;
    }
    let mut parser = Parser::new(tokens);
    match parser.try_parse() {
        None => None,
        Some(Err(errors)) => Some(Err(errors)),
        Some(Ok(stmts)) => {
            if !can_emit(stmts.as_slice(), 0) {
                return None;
            }
            Some(Ok(lower(&stmts)))
        },
    }
}

/// The Luau code of statements that can be lowered at level 0.
fn lower(stmts: &Vec<Statement>) -> (r: String)
    requires
        stmts_emittable(stmts_view(stmts@), 0),
    ensures
        r@ == stmts_code(stmts_view(stmts@), 0),
{
    let mut cg = Codegen::new(Emitter::new());
    cg.emit_program(stmts.as_slice());
    let code = cg.finish();
    assert(code@ =~= stmts_code(stmts_view(stmts@), 0));
    code
}

/// What compiling a token list gives: `None` where it cannot be compiled
/// (no `Eof` token, a literal token without its value, or code that cannot
/// be lowered); otherwise the Luau code, or the parser's messages one per line.
pub open spec fn compile_outcome(tokens: Seq<Token>) -> Option<Result<Seq<char>, Seq<char>>> {
    if !eof_ahead(tokens, 0) {
        None
    } else {
        match parse_outcome(tokens, 0) {
            None => None,
            Some(Err(errors)) => Some(Err(parse_messages_text(errors))),
            Some(Ok(stmts)) => if stmts_emittable(stmts, 0) {
                Some(Ok(stmts_code(stmts, 0)))
            } else {
                None
            },
        }
    }
}

/// Compiling gives no result exactly where the tokens have no `Eof` or a
/// literal token lacks its value, for token lists that an `usize` can count
/// twice over: every program the parser accepts is lowered.
pub proof fn law_compile_outcome(tokens: Seq<Token>)
    requires
        2 * tokens.len() <= usize::MAX,
    ensures
        compile_outcome(tokens) is None <==> (!eof_ahead(tokens, 0) || parse_outcome(tokens, 0) is None),
{
    law_parsed_programs_lower(tokens);
}

/// What a call of [`compile_tokens`] gave, as mathematical values.
pub open spec fn compiled_view(r: Option<Result<String, String>>) -> Option<Result<Seq<char>, Seq<char>>> {
    match r {
        None => None,
        Some(Ok(code)) => Some(Ok(code@)),
        Some(Err(msg)) => Some(Err(msg@)),
    }
}

/// Parses the tokens and lowers the program to Luau. A program the parser
/// refuses gives the message of each diagnostic, one per line.
pub fn compile_tokens(tokens: Vec<Token>) -> (r: Option<Result<String, String>>)
    ensures
        compiled_view(r) == compile_outcome(tokens@),
{
    match lower_tokens(tokens) {
        None => None,
        Some(Err(errors)) => Some(Err(parse_messages(&errors))),
        Some(Ok(code)) => Some(Ok(code)),
    }
}

} // verus!
