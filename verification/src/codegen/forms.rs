//! How statements are lowered, stated piece by piece.
use vstd::prelude::*;

use crate::codegen::emitter::tabs;
use crate::codegen::statements::{StmtV, VarKind};
use crate::codegen::{else_code, expr_code, stmt_code};
use crate::lexer::expr::ExprV;
use crate::lexer::Token;
use crate::lexer::TokenType;

verus! {

/// A declaration is lowered as `local name = value` (`const` for a constant),
/// or `local name` where it has no value, on a line of its own at level `k`.
pub proof fn law_declaration_code(name: Token, init: Option<ExprV>, kind: VarKind, k: nat)
    ensures
        ({
            let s = StmtV::Variable { name, init, kind };
            &&& (kind == VarKind::Let && init is Some) ==> stmt_code(s, k) == tabs(k) + "local "@
                + name.lexeme@ + " = "@ + expr_code(init->0, k) + seq!['\n']
            &&& (kind == VarKind::Const && init is Some) ==> stmt_code(s, k) == tabs(k) + "const "@
                + name.lexeme@ + " = "@ + expr_code(init->0, k) + seq!['\n']
            &&& (kind == VarKind::Let && init is None) ==> stmt_code(s, k) == tabs(k) + "local "@
                + name.lexeme@ + seq!['\n']
        }),
{
    let s = StmtV::Variable { name, init, kind };
    let head = match kind {
        VarKind::Let => "local "@,
        VarKind::Const => "const "@,
    };
    match init {
        Some(e) => {
            assert(stmt_code(s, k) =~= tabs(k) + head + name.lexeme@ + " = "@ + expr_code(e, k)
                + seq!['\n']);
        },
        None => {
            assert(stmt_code(s, k) =~= tabs(k) + head + name.lexeme@ + seq!['\n']);
        },
    }
}

/// An `if` is lowered as `if cond then`, its body one level in, then its
/// `else` part, then `end`: with no `else` nothing stands between the body
/// and `end`; an `else if` becomes an `elseif cond then` line and its body;
/// any other `else` becomes an `else` line and its body.
pub proof fn law_if_code(predicate: ExprV, then: Box<StmtV>, else_block: Option<Box<StmtV>>, k: nat)
    ensures
        ({
            let s = StmtV::If { predicate, then, else_block };
            let head = tabs(k) + "if "@ + expr_code(predicate, k) + " then"@ + seq!['\n']
                + stmt_code(*then, k + 1);
            let tail = tabs(k) + "end"@ + seq!['\n'];
            &&& else_block is None ==> stmt_code(s, k) == head + tail
            &&& (else_block is Some && *else_block->0 is If) ==> stmt_code(s, k) == head + tabs(k)
                + "elseif "@ + expr_code(else_block->0->predicate, k) + " then"@ + seq!['\n']
                + stmt_code(*else_block->0->then, k + 1) + else_code(else_block->0->else_block, k)
                + tail
            &&& (else_block is Some && !(*else_block->0 is If)) ==> stmt_code(s, k) == head
                + tabs(k) + "else"@ + seq!['\n'] + stmt_code(*else_block->0, k + 1) + tail
        }),
{
    let s = StmtV::If { predicate, then, else_block };
    let head = tabs(k) + "if "@ + expr_code(predicate, k) + " then"@ + seq!['\n'] + stmt_code(
        *then,
        k + 1,
    );
    let tail = tabs(k) + "end"@ + seq!['\n'];
    assert(stmt_code(s, k) =~= head + else_code(else_block, k) + tail);
    match else_block {
        None => {
            assert(stmt_code(s, k) =~= head + tail);
        },
        Some(other) => {
            match *other {
                StmtV::If { predicate: p2, then: t2, else_block: e2 } => {
                    assert(stmt_code(s, k) =~= head + tabs(k) + "elseif "@ + expr_code(p2, k)
                        + " then"@ + seq!['\n'] + stmt_code(*t2, k + 1) + else_code(e2, k) + tail);
                },
                _ => {
                    assert(stmt_code(s, k) =~= head + tabs(k) + "else"@ + seq!['\n'] + stmt_code(
                        *other,
                        k + 1,
                    ) + tail);
                },
            }
        },
    }
}

/// A `while` is lowered as `while cond do`, its body one level in, `end`; a
/// `loop` as a spawned task running `while true do` over its body, two levels
/// in.
pub proof fn law_loop_code(condition: ExprV, body: Box<StmtV>, k: nat)
    ensures
        stmt_code(StmtV::While { condition, body }, k) == tabs(k) + "while "@ + expr_code(
            condition,
            k,
        ) + " do"@ + seq!['\n'] + stmt_code(*body, k + 1) + tabs(k) + "end"@ + seq!['\n'],
        stmt_code(StmtV::Loop(body), k) == tabs(k) + tabs(k) + "task.spawn(function()"@ + seq!['\n']
            + tabs(k + 1) + "while true do"@ + seq!['\n'] + stmt_code(*body, k + 2) + tabs(k + 1)
            + "end"@ + seq!['\n'] + tabs(k) + "end)"@ + seq!['\n'],
{
}

/// A `for` over a range `a..b` is lowered as a numeric loop from `a` to
/// `b - 1`, one over `a..=b` as a loop from `a` to `b`; with a step, it
/// follows after a comma.
pub proof fn law_for_range_code(
    ident: Seq<Token>,
    left: Box<ExprV>,
    operator: Token,
    right: Box<ExprV>,
    step: Option<ExprV>,
    body: Box<StmtV>,
    k: nat,
)
    requires
        operator.token_type == TokenType::DotDot || operator.token_type == TokenType::DotDotEqual,
    ensures
        ({
            let s = StmtV::For { ident, iter: ExprV::Binary { left, operator, right }, step, body };
            let bounds = "for "@ + ident[0].lexeme@ + " = "@ + expr_code(*left, k) + ", "@
                + expr_code(*right, k);
            let stepped = match step {
                Some(st) => ", "@ + expr_code(st, k),
                None => Seq::empty(),
            };
            let rest = stepped + " do"@ + seq!['\n'] + stmt_code(*body, k + 1) + tabs(k) + "end"@
                + seq!['\n'];
            &&& operator.token_type == TokenType::DotDot ==> stmt_code(s, k) == tabs(k) + bounds
                + " - 1"@ + rest
            &&& operator.token_type == TokenType::DotDotEqual ==> stmt_code(s, k) == tabs(k)
                + bounds + rest
        }),
{
    let s = StmtV::For { ident, iter: ExprV::Binary { left, operator, right }, step, body };
    let bounds = "for "@ + ident[0].lexeme@ + " = "@ + expr_code(*left, k) + ", "@ + expr_code(
        *right,
        k,
    );
    let stepped = match step {
        Some(st) => ", "@ + expr_code(st, k),
        None => Seq::empty(),
    };
    let rest = stepped + " do"@ + seq!['\n'] + stmt_code(*body, k + 1) + tabs(k) + "end"@ + seq![
        '\n',
    ];
    if operator.token_type == TokenType::DotDot {
        assert(stmt_code(s, k) =~= tabs(k) + bounds + " - 1"@ + rest);
    } else {
        assert(stmt_code(s, k) =~= tabs(k) + bounds + Seq::empty() + rest);
        assert(stmt_code(s, k) =~= tabs(k) + bounds + rest);
    }
}

/// `return` is lowered with its value after one space, or alone; `continue`
/// and `break` as themselves, each on a line of its own.
pub proof fn law_jump_code(value: Option<ExprV>, k: nat)
    ensures
        value is Some ==> stmt_code(StmtV::Return(value), k) == tabs(k) + "return"@ + seq![' ']
            + expr_code(value->0, k) + seq!['\n'],
        value is None ==> stmt_code(StmtV::Return(value), k) == tabs(k) + "return"@ + seq!['\n'],
        stmt_code(StmtV::Continue, k) == tabs(k) + "continue"@ + seq!['\n'],
        stmt_code(StmtV::Break, k) == tabs(k) + "break"@ + seq!['\n'],
{
    match value {
        Some(e) => {
            assert(stmt_code(StmtV::Return(value), k) =~= tabs(k) + "return"@ + seq![' '] + expr_code(
                e,
                k,
            ) + seq!['\n']);
        },
        None => {
            assert(stmt_code(StmtV::Return(value), k) =~= tabs(k) + "return"@ + seq!['\n']);
        },
    }
}

} // verus!
