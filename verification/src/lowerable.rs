//! Every program the parser accepts can be lowered: its trees hold no
//! decorator literal, every range loop names a variable, and a tree read
//! from `n` tokens nests at most `2 * n` indentation levels deep.
use vstd::prelude::*;

use crate::codegen::statements::{StmtV, VarKind};
use crate::codegen::{
    else_emittable, expr_emittable, field_emittable, fields_emittable, stmt_emittable,
    stmts_emittable,
};
use crate::error::ParseError;
use crate::lexer::expr::{ExprV, FieldV, KeyV};
use crate::lexer::parser::{
    at_end, binary_rank, kind_at, level_ops, moved, parse_outcome, sp_assignment, sp_binary,
    sp_binary_rest, sp_block, sp_block_rest, sp_computed_field, sp_consume, sp_declaration,
    sp_else_branch, sp_expression, sp_expression_statement, sp_for_body, sp_for_iter, sp_for_names,
    sp_for_statement, sp_if_branches, sp_if_else, sp_if_expr, sp_if_statement, sp_if_then,
    sp_loop_statement, sp_primary, sp_program, sp_return_statement, sp_statement, sp_synchronize,
    sp_table_field, sp_table_rest, sp_then_branch, sp_unary, sp_var_declaration,
    sp_while_statement, ParseFailure,
};
use crate::lexer::{literal_of, Token, TokenType};

verus! {

/// `e` can be lowered at every level that leaves `budget` levels to spare.
pub open spec fn expr_fits(e: ExprV, budget: int) -> bool {
    forall|k: nat| k + budget <= usize::MAX ==> #[trigger] expr_emittable(e, k)
}

pub open spec fn field_fits(f: FieldV, budget: int) -> bool {
    forall|k: nat| k + budget <= usize::MAX ==> #[trigger] field_emittable(f, k)
}

pub open spec fn fields_fit(fs: Seq<FieldV>, budget: int) -> bool {
    forall|k: nat| k + budget <= usize::MAX ==> #[trigger] fields_emittable(fs, k)
}

/// `s` can be lowered at every level that leaves `budget` levels to spare.
pub open spec fn stmt_fits(s: StmtV, budget: int) -> bool {
    forall|k: nat| k + budget <= usize::MAX ==> #[trigger] stmt_emittable(s, k)
}

pub open spec fn stmts_fit(ss: Seq<StmtV>, budget: int) -> bool {
    forall|k: nat| k + budget <= usize::MAX ==> #[trigger] stmts_emittable(ss, k)
}

proof fn lemma_fields_push(fs: Seq<FieldV>, f: FieldV, budget: int)
    requires
        fields_fit(fs, budget),
        field_fits(f, budget),
    ensures
        fields_fit(fs.push(f), budget),
{
    assert forall|k: nat| k + budget <= usize::MAX implies #[trigger] fields_emittable(
        fs.push(f),
        k,
    ) by {
        assert(fs.push(f).drop_last() =~= fs);
        assert(fields_emittable(fs, k));
        assert(field_emittable(f, k));
    }
}

proof fn lemma_stmts_push(ss: Seq<StmtV>, s: StmtV, budget: int)
    requires
        stmts_fit(ss, budget),
        stmt_fits(s, budget),
    ensures
        stmts_fit(ss.push(s), budget),
{
    assert forall|k: nat| k + budget <= usize::MAX implies #[trigger] stmts_emittable(
        ss.push(s),
        k,
    ) by {
        assert(ss.push(s).drop_last() =~= ss);
        assert(stmts_emittable(ss, k));
        assert(stmt_emittable(s, k));
    }
}

proof fn lemma_empty_fit(budget: int)
    ensures
        fields_fit(Seq::empty(), budget),
        stmts_fit(Seq::empty(), budget),
{
    assert forall|k: nat| k + budget <= usize::MAX implies #[trigger] fields_emittable(
        Seq::<FieldV>::empty(),
        k,
    ) by {}
    assert forall|k: nat| k + budget <= usize::MAX implies #[trigger] stmts_emittable(
        Seq::<StmtV>::empty(),
        k,
    ) by {}
}

/// An expression read from the tokens `p..q` fits within `2 * (q - p)` levels.
pub proof fn lemma_primary(ts: Seq<Token>, p: int)
    requires
        0 <= p,
    ensures
        sp_primary(ts, p) matches (Ok(e), q) ==> p <= q && expr_fits(e, 2 * (q - p)),
    decreases ts.len() - p, 10nat,
{
    match kind_at(ts, p) {
        TokenType::If => {
            lemma_if_expr(ts, p + 1);
        },
        TokenType::LeftBrace => {
            lemma_empty_fit(0);
            lemma_table_rest(ts, p + 1, Seq::empty(), ts[p], p + 1);
        },
        TokenType::LeftParen => {
            lemma_expression(ts, p + 1);
            if let (Ok(e), q) = sp_expression(ts, p + 1) {
                if let (Ok(_), r) = sp_consume(ts, q, TokenType::RightParen, None) {
                    assert forall|k: nat| k + 2 * (r - p) <= usize::MAX implies #[trigger] expr_emittable(
                        ExprV::Grouping(Box::new(e)),
                        k,
                    ) by {
                        assert(expr_emittable(e, k));
                    }
                }
            }
        },
        TokenType::Str | TokenType::Number | TokenType::True | TokenType::False | TokenType::Nil => {
            if let Some(v) = literal_of(ts[p]) {
                assert(!(v is DecoratorValue));
                assert forall|k: nat| k + 2 * (p + 1 - p) <= usize::MAX implies #[trigger] expr_emittable(
                    ExprV::Literal(v),
                    k,
                ) by {}
            }
        },
        TokenType::Identifier => {
            assert forall|k: nat| k + 2 * (p + 1 - p) <= usize::MAX implies #[trigger] expr_emittable(
                ExprV::Variable(ts[p]),
                k,
            ) by {}
        },
        _ => {},
    }
}

pub proof fn lemma_unary(ts: Seq<Token>, p: int)
    requires
        0 <= p,
    ensures
        sp_unary(ts, p) matches (Ok(e), q) ==> p <= q && expr_fits(e, 2 * (q - p)),
    decreases ts.len() - p, 11nat,
{
    if kind_at(ts, p) == TokenType::Bang || kind_at(ts, p) == TokenType::Minus {
        lemma_unary(ts, p + 1);
        if let (Ok(right), q) = sp_unary(ts, p + 1) {
            assert forall|k: nat| k + 2 * (q - p) <= usize::MAX implies #[trigger] expr_emittable(
                ExprV::Unary { operator: ts[p], right: Box::new(right) },
                k,
            ) by {
                assert(expr_emittable(right, k));
            }
        }
    } else {
        lemma_primary(ts, p);
    }
}

/// An operand of the binary level `k`.
proof fn lemma_operand(ts: Seq<Token>, p: int, k: nat)
    requires
        0 <= p,
    ensures
        (if k >= 5 { sp_unary(ts, p) } else { sp_binary(ts, p, k + 1) }) matches (Ok(e), q) ==> p
            <= q && expr_fits(e, 2 * (q - p)),
    decreases ts.len() - p, binary_rank(k), 1nat,
{
    if k >= 5 {
        lemma_unary(ts, p);
    } else {
        lemma_binary(ts, p, k + 1);
    }
}

pub proof fn lemma_binary(ts: Seq<Token>, p: int, k: nat)
    requires
        0 <= p,
    ensures
        sp_binary(ts, p, k) matches (Ok(e), q) ==> p <= q && expr_fits(e, 2 * (q - p)),
    decreases ts.len() - p, binary_rank(k), 2nat,
{
    lemma_operand(ts, p, k);
    if let (Ok(left), q) = (if k >= 5 { sp_unary(ts, p) } else { sp_binary(ts, p, k + 1) }) {
        if p <= q <= ts.len() {
            lemma_binary_rest(ts, q, k, left, p);
        }
    }
}

pub proof fn lemma_binary_rest(ts: Seq<Token>, p: int, k: nat, left: ExprV, p0: int)
    requires
        0 <= p0 <= p,
        expr_fits(left, 2 * (p - p0)),
    ensures
        sp_binary_rest(ts, p, k, left) matches (Ok(e), q) ==> p <= q && expr_fits(e, 2 * (q - p0)),
    decreases ts.len() - p, 0nat, 0nat,
{
    if level_ops(k).contains(kind_at(ts, p)) {
        lemma_operand(ts, p + 1, k);
        if let (Ok(right), q) = (if k >= 5 { sp_unary(ts, p + 1) } else { sp_binary(ts, p + 1, k + 1) }) {
            if moved(ts, p, q) {
                let e = ExprV::Binary { left: Box::new(left), operator: ts[p], right: Box::new(right) };
                assert forall|j: nat| j + 2 * (q - p0) <= usize::MAX implies #[trigger] expr_emittable(
                    e,
                    j,
                ) by {
                    assert(expr_emittable(left, j));
                    assert(expr_emittable(right, j));
                }
                lemma_binary_rest(ts, q, k, e, p0);
            }
        }
    }
}

pub proof fn lemma_assignment(ts: Seq<Token>, p: int)
    requires
        0 <= p,
    ensures
        sp_assignment(ts, p) matches (Ok(e), q) ==> p <= q && expr_fits(e, 2 * (q - p)),
    decreases ts.len() - p, 24nat,
{
    lemma_binary(ts, p, 0);
    if let (Ok(target), q) = sp_binary(ts, p, 0) {
        if kind_at(ts, q) == TokenType::Equal && p <= q {
            lemma_binary(ts, q + 1, 0);
            if let (Ok(value), r) = sp_binary(ts, q + 1, 0) {
                if let ExprV::Variable(name) = target {
                    assert forall|j: nat| j + 2 * (r - p) <= usize::MAX implies #[trigger] expr_emittable(
                        ExprV::Assign { name, value: Box::new(value) },
                        j,
                    ) by {
                        assert(expr_emittable(value, j));
                    }
                }
            }
        }
    }
}

pub proof fn lemma_expression(ts: Seq<Token>, p: int)
    requires
        0 <= p,
    ensures
        sp_expression(ts, p) matches (Ok(e), q) ==> p <= q && expr_fits(e, 2 * (q - p)),
    decreases ts.len() - p, 25nat,
{
    lemma_assignment(ts, p);
}

pub proof fn lemma_if_expr(ts: Seq<Token>, p: int)
    requires
        0 <= p,
    ensures
        sp_if_expr(ts, p) matches (Ok(e), q) ==> p <= q && expr_fits(e, 2 * (q - p)),
    decreases ts.len() - p, 29nat,
{
    lemma_expression(ts, p);
    if let (Ok(predicate), q) = sp_expression(ts, p) {
        if moved(ts, p, q) {
            if let (Ok(_), _) = sp_consume(ts, q, TokenType::LeftBrace, Some("add '{' after the condition")) {
                lemma_if_then(ts, q + 1, predicate, p);
            }
        }
    }
}

pub proof fn lemma_if_then(ts: Seq<Token>, p: int, predicate: ExprV, p0: int)
    requires
        0 <= p0 <= p,
        expr_fits(predicate, 2 * (p - p0)),
    ensures
        sp_if_then(ts, p, predicate) matches (Ok(e), q) ==> p <= q && expr_fits(e, 2 * (q - p0)),
    decreases ts.len() - p, 29nat,
{
    lemma_expression(ts, p);
    if let (Ok(then_expr), r) = sp_expression(ts, p) {
        if moved(ts, p, r) {
            if let (Ok(_), _) = sp_consume(ts, r, TokenType::RightBrace, None) {
                lemma_if_else(ts, r + 1, predicate, then_expr, p0);
            }
        }
    }
}

pub proof fn lemma_if_else(ts: Seq<Token>, p: int, predicate: ExprV, then_expr: ExprV, p0: int)
    requires
        0 <= p0 <= p,
        expr_fits(predicate, 2 * (p - p0)),
        expr_fits(then_expr, 2 * (p - p0)),
    ensures
        sp_if_else(ts, p, predicate, then_expr) matches (Ok(e), q) ==> p <= q && expr_fits(
            e,
            2 * (q - p0),
        ),
    decreases ts.len() - p, 29nat,
{
    if kind_at(ts, p) == TokenType::Else {
        if let (Ok(_), _) = sp_consume(ts, p + 1, TokenType::LeftBrace, Some("add '{' after the else keyword")) {
            lemma_expression(ts, p + 2);
            if let (Ok(else_expr), u) = sp_expression(ts, p + 2) {
                if let (Ok(_), w) = sp_consume(ts, u, TokenType::RightBrace, None) {
                    assert forall|j: nat| j + 2 * (w - p0) <= usize::MAX implies #[trigger] expr_emittable(
                        ExprV::IfExpr {
                            predicate: Box::new(predicate),
                            then_expr: Box::new(then_expr),
                            else_expr: Box::new(else_expr),
                        },
                        j,
                    ) by {
                        assert(expr_emittable(predicate, j));
                        assert(expr_emittable(then_expr, j));
                        assert(expr_emittable(else_expr, j));
                    }
                }
            }
        }
    }
}

/// A table's fields, read after its `{` at `p0 - 1`, fit within the levels
/// of the tokens read, with one more for the table itself.
pub proof fn lemma_table_rest(ts: Seq<Token>, p: int, fields: Seq<FieldV>, open: Token, p0: int)
    requires
        1 <= p0 <= p,
        fields_fit(fields, 2 * (p - p0)),
    ensures
        sp_table_rest(ts, p, fields, open) matches (Ok(e), q) ==> p <= q && expr_fits(
            e,
            2 * (q - p0) + 2,
        ),
    decreases ts.len() - p, 27nat,
{
    if kind_at(ts, p) == TokenType::Eof || kind_at(ts, p) == TokenType::RightBrace {
        if let (Ok(close), q) = sp_consume(ts, p, TokenType::RightBrace, Some("add a closing '}' to end the table")) {
            let e = ExprV::Table { fields, multiline: close.line != open.line };
            assert forall|j: nat| j + (2 * (q - p0) + 2) <= usize::MAX implies #[trigger] expr_emittable(
                e,
                j,
            ) by {
                assert(fields_emittable(fields, j));
                assert(fields_emittable(fields, j + 1));
            }
        }
    } else {
        lemma_table_field(ts, p);
        if let (Ok(field), q) = sp_table_field(ts, p) {
            if moved(ts, p, q) {
                lemma_fields_push(fields, field, 2 * (q - p0));
                if kind_at(ts, q) == TokenType::Comma {
                    lemma_table_rest(ts, q + 1, fields.push(field), open, p0);
                } else if kind_at(ts, q) == TokenType::RightBrace {
                    lemma_table_rest(ts, q, fields.push(field), open, p0);
                }
            }
        }
    }
}

pub proof fn lemma_table_field(ts: Seq<Token>, p: int)
    requires
        0 <= p,
    ensures
        sp_table_field(ts, p) matches (Ok(f), q) ==> p <= q && field_fits(f, 2 * (q - p)),
    decreases ts.len() - p, 26nat,
{
    if kind_at(ts, p) == TokenType::Identifier && kind_at(ts, p + 1) == TokenType::Equal {
        lemma_expression(ts, p + 2);
        if let (Ok(value), q) = sp_expression(ts, p + 2) {
            assert forall|j: nat| j + 2 * (q - p) <= usize::MAX implies #[trigger] field_emittable(
                FieldV { key: KeyV::Ident(ts[p]), value },
                j,
            ) by {
                assert(expr_emittable(value, j));
            }
        }
    } else if kind_at(ts, p) == TokenType::LeftBracket {
        lemma_computed_field(ts, p + 1);
    } else {
        lemma_expression(ts, p);
        if let (Ok(value), q) = sp_expression(ts, p) {
            assert forall|j: nat| j + 2 * (q - p) <= usize::MAX implies #[trigger] field_emittable(
                FieldV { key: KeyV::Positional, value },
                j,
            ) by {
                assert(expr_emittable(value, j));
            }
        }
    }
}

pub proof fn lemma_computed_field(ts: Seq<Token>, p: int)
    requires
        0 <= p,
    ensures
        sp_computed_field(ts, p) matches (Ok(f), q) ==> p <= q && field_fits(f, 2 * (q - p)),
    decreases ts.len() - p, 26nat,
{
    lemma_expression(ts, p);
    let (rk, q) = sp_expression(ts, p);
    if rk is Ok && moved(ts, p, q) && kind_at(ts, q) == TokenType::RightBracket && kind_at(ts, q + 1)
        == TokenType::Equal {
        let key = rk->Ok_0;
        lemma_expression(ts, q + 2);
        let (rv, r) = sp_expression(ts, q + 2);
        if rv is Ok {
            let value = rv->Ok_0;
            let f = FieldV { key: KeyV::Computed(key), value };
            assert(sp_computed_field(ts, p) == (Ok::<FieldV, ParseFailure>(f), r));
            assert forall|j: nat| j + 2 * (r - p) <= usize::MAX implies #[trigger] field_emittable(
                f,
                j,
            ) by {
                assert(expr_emittable(key, j));
                assert(expr_emittable(value, j));
            }
        }
    }
}

/// A statement read from the tokens `p..q` fits within `2 * (q - p)` levels.
pub proof fn lemma_declaration(ts: Seq<Token>, p: int)
    requires
        0 <= p,
    ensures
        sp_declaration(ts, p) matches (Ok(s), q) ==> p <= q && stmt_fits(s, 2 * (q - p)),
    decreases ts.len() - p, 31nat,
{
    if kind_at(ts, p) == TokenType::Let {
        lemma_var_declaration(ts, p + 1, VarKind::Let);
    } else if kind_at(ts, p) == TokenType::Const {
        lemma_var_declaration(ts, p + 1, VarKind::Const);
    } else {
        lemma_statement(ts, p);
    }
}

pub proof fn lemma_var_declaration(ts: Seq<Token>, p: int, kind: VarKind)
    requires
        0 <= p,
    ensures
        sp_var_declaration(ts, p, kind) matches (Ok(s), q) ==> p <= q && stmt_fits(s, 2 * (q - p)),
    decreases ts.len() - p, 31nat,
{
    if kind_at(ts, p) == TokenType::Identifier {
        let name = ts[p];
        if kind_at(ts, p + 1) == TokenType::Equal {
            lemma_expression(ts, p + 2);
            if let (Ok(e), r) = sp_expression(ts, p + 2) {
                assert forall|j: nat| j + 2 * (r - p) <= usize::MAX implies #[trigger] stmt_emittable(
                    StmtV::Variable { name, init: Some(e), kind },
                    j,
                ) by {
                    assert(expr_emittable(e, j));
                }
            }
        } else {
            assert forall|j: nat| j + 2 * (p + 1 - p) <= usize::MAX implies #[trigger] stmt_emittable(
                StmtV::Variable { name, init: None, kind },
                j,
            ) by {}
        }
    }
}

pub proof fn lemma_statement(ts: Seq<Token>, p: int)
    requires
        0 <= p,
    ensures
        sp_statement(ts, p) matches (Ok(s), q) ==> p <= q && stmt_fits(s, 2 * (q - p)),
    decreases ts.len() - p, 30nat,
{
    match kind_at(ts, p) {
        TokenType::If => lemma_if_statement(ts, p + 1),
        TokenType::While => lemma_while_statement(ts, p + 1),
        TokenType::Loop => lemma_loop_statement(ts, p + 1),
        TokenType::Return => lemma_return_statement(ts, p + 1),
        TokenType::For => lemma_for_statement(ts, p + 1),
        TokenType::Continue => {
            assert forall|j: nat| j + 2 * (p + 1 - p) <= usize::MAX implies #[trigger] stmt_emittable(
                StmtV::Continue,
                j,
            ) by {}
        },
        TokenType::Break => {
            assert forall|j: nat| j + 2 * (p + 1 - p) <= usize::MAX implies #[trigger] stmt_emittable(
                StmtV::Break,
                j,
            ) by {}
        },
        _ => lemma_expression_statement(ts, p),
    }
}

pub proof fn lemma_block(ts: Seq<Token>, p: int)
    requires
        0 <= p,
    ensures
        sp_block(ts, p) matches (Ok(s), q) ==> p <= q && s is Block && stmt_fits(s, 2 * (q - p)),
    decreases ts.len() - p, 28nat,
{
    if kind_at(ts, p) == TokenType::LeftBrace {
        lemma_empty_fit(0);
        lemma_block_rest(ts, p + 1, Seq::empty(), p + 1);
    }
}

pub proof fn lemma_block_rest(ts: Seq<Token>, p: int, stmts: Seq<StmtV>, p0: int)
    requires
        0 <= p0 <= p,
        stmts_fit(stmts, 2 * (p - p0)),
    ensures
        sp_block_rest(ts, p, stmts) matches (Ok(s), q) ==> p <= q && s is Block && stmt_fits(
            s,
            2 * (q - p0),
        ),
    decreases ts.len() - p, 32nat,
{
    if at_end(ts, p) || kind_at(ts, p) == TokenType::RightBrace {
        if kind_at(ts, p) == TokenType::RightBrace {
            assert forall|j: nat| j + 2 * (p + 1 - p0) <= usize::MAX implies #[trigger] stmt_emittable(
                StmtV::Block(stmts),
                j,
            ) by {
                assert(stmts_emittable(stmts, j));
            }
        }
    } else {
        lemma_declaration(ts, p);
        if let (Ok(st), q) = sp_declaration(ts, p) {
            if moved(ts, p, q) {
                lemma_stmts_push(stmts, st, 2 * (q - p0));
                lemma_block_rest(ts, q, stmts.push(st), p0);
            }
        }
    }
}

pub proof fn lemma_then_branch(ts: Seq<Token>, p: int)
    requires
        0 <= p,
    ensures
        sp_then_branch(ts, p) matches (Ok(s), q) ==> p <= q && stmt_fits(s, 2 * (q - p)),
    decreases ts.len() - p, 29nat,
{
    if kind_at(ts, p) == TokenType::Do {
        lemma_declaration(ts, p + 1);
    } else {
        lemma_block(ts, p);
    }
}

/// An `if` statement read after its `if` at `p - 1`.
pub proof fn lemma_if_statement(ts: Seq<Token>, p: int)
    requires
        0 <= p,
    ensures
        sp_if_statement(ts, p) matches (Ok(s), q) ==> p <= q && s is If && stmt_fits(
            s,
            2 * (q - p) + 2,
        ),
    decreases ts.len() - p, 29nat,
{
    if !(kind_at(ts, p) == TokenType::LeftBrace || at_end(ts, p)) {
        lemma_expression(ts, p);
        if let (Ok(predicate), q) = sp_expression(ts, p) {
            if moved(ts, p, q) {
                lemma_if_branches(ts, q, predicate, p);
            }
        }
    }
}

pub proof fn lemma_if_branches(ts: Seq<Token>, p: int, predicate: ExprV, p0: int)
    requires
        0 <= p0 <= p,
        expr_fits(predicate, 2 * (p - p0)),
    ensures
        sp_if_branches(ts, p, predicate) matches (Ok(s), q) ==> p <= q && s is If && stmt_fits(
            s,
            2 * (q - p0) + 2,
        ),
    decreases ts.len() - p, 30nat,
{
    lemma_then_branch(ts, p);
    if let (Ok(then), r) = sp_then_branch(ts, p) {
        if moved(ts, p, r) {
            if kind_at(ts, r) == TokenType::Else {
                lemma_else_branch(ts, r + 1);
                if let (Ok(e), u) = sp_else_branch(ts, r + 1) {
                    let s = StmtV::If {
                        predicate,
                        then: Box::new(then),
                        else_block: Some(Box::new(e)),
                    };
                    assert forall|j: nat| j + (2 * (u - p0) + 2) <= usize::MAX implies #[trigger] stmt_emittable(
                        s,
                        j,
                    ) by {
                        assert(expr_emittable(predicate, j));
                        assert(stmt_emittable(then, j + 1));
                        assert(else_emittable(Some(Box::new(e)), j));
                    }
                }
            } else {
                let s = StmtV::If { predicate, then: Box::new(then), else_block: None };
                assert forall|j: nat| j + (2 * (r - p0) + 2) <= usize::MAX implies #[trigger] stmt_emittable(
                    s,
                    j,
                ) by {
                    assert(expr_emittable(predicate, j));
                    assert(stmt_emittable(then, j + 1));
                    assert(else_emittable(None, j));
                }
            }
        }
    }
}

/// What follows `else` (read from `p`) can be lowered as an `else` branch.
pub proof fn lemma_else_branch(ts: Seq<Token>, p: int)
    requires
        0 <= p,
    ensures
        sp_else_branch(ts, p) matches (Ok(s), q) ==> p <= q && forall|j: nat|
            j + 2 * (q - p) + 2 <= usize::MAX ==> #[trigger] else_emittable(Some(Box::new(s)), j),
    decreases ts.len() - p, 29nat,
{
    if kind_at(ts, p) == TokenType::If {
        lemma_if_statement(ts, p + 1);
        if let (Ok(s), q) = sp_if_statement(ts, p + 1) {
            assert forall|j: nat| j + 2 * (q - p) + 2 <= usize::MAX implies #[trigger] else_emittable(
                Some(Box::new(s)),
                j,
            ) by {
                assert(stmt_emittable(s, j));
            }
        }
    } else {
        lemma_block(ts, p);
        if let (Ok(s), q) = sp_block(ts, p) {
            assert forall|j: nat| j + 2 * (q - p) + 2 <= usize::MAX implies #[trigger] else_emittable(
                Some(Box::new(s)),
                j,
            ) by {
                assert(stmt_emittable(s, j + 1));
            }
        }
    }
}

pub proof fn lemma_while_statement(ts: Seq<Token>, p: int)
    requires
        0 <= p,
    ensures
        sp_while_statement(ts, p) matches (Ok(s), q) ==> p <= q && stmt_fits(s, 2 * (q - p) + 2),
    decreases ts.len() - p, 29nat,
{
    if !(kind_at(ts, p) == TokenType::LeftBrace || at_end(ts, p)) {
        lemma_expression(ts, p);
        if let (Ok(condition), q) = sp_expression(ts, p) {
            if moved(ts, p, q) {
                lemma_block(ts, q);
                if let (Ok(body), r) = sp_block(ts, q) {
                    assert forall|j: nat| j + (2 * (r - p) + 2) <= usize::MAX implies #[trigger] stmt_emittable(
                        StmtV::While { condition, body: Box::new(body) },
                        j,
                    ) by {
                        assert(expr_emittable(condition, j));
                        assert(stmt_emittable(body, j + 1));
                    }
                }
            }
        }
    }
}

pub proof fn lemma_loop_statement(ts: Seq<Token>, p: int)
    requires
        0 <= p,
    ensures
        sp_loop_statement(ts, p) matches (Ok(s), q) ==> p <= q && stmt_fits(s, 2 * (q - p) + 2),
    decreases ts.len() - p, 29nat,
{
    lemma_block(ts, p);
    if let (Ok(body), q) = sp_block(ts, p) {
        assert forall|j: nat| j + (2 * (q - p) + 2) <= usize::MAX implies #[trigger] stmt_emittable(
            StmtV::Loop(Box::new(body)),
            j,
        ) by {
            assert(stmt_emittable(body, j + 2));
        }
    }
}

pub proof fn lemma_return_statement(ts: Seq<Token>, p: int)
    requires
        0 <= p,
    ensures
        sp_return_statement(ts, p) matches (Ok(s), q) ==> p <= q && stmt_fits(s, 2 * (q - p) + 2),
    decreases ts.len() - p, 29nat,
{
    if at_end(ts, p) || kind_at(ts, p) == TokenType::RightBrace {
        assert forall|j: nat| j + (2 * (p - p) + 2) <= usize::MAX implies #[trigger] stmt_emittable(
            StmtV::Return(None),
            j,
        ) by {}
    } else {
        lemma_expression(ts, p);
        if let (Ok(e), q) = sp_expression(ts, p) {
            assert forall|j: nat| j + (2 * (q - p) + 2) <= usize::MAX implies #[trigger] stmt_emittable(
                StmtV::Return(Some(e)),
                j,
            ) by {
                assert(expr_emittable(e, j));
            }
        }
    }
}

pub proof fn lemma_for_statement(ts: Seq<Token>, p: int)
    requires
        0 <= p,
    ensures
        sp_for_statement(ts, p) matches (Ok(s), q) ==> p <= q && stmt_fits(s, 2 * (q - p) + 2),
    decreases ts.len() - p, 29nat,
{
    if kind_at(ts, p) == TokenType::Identifier {
        lemma_for_names(ts, p + 1, seq![ts[p]], p);
    }
}

pub proof fn lemma_for_names(ts: Seq<Token>, p: int, names: Seq<Token>, p0: int)
    requires
        0 <= p0 <= p,
        names.len() > 0,
    ensures
        sp_for_names(ts, p, names) matches (Ok(s), q) ==> p <= q && stmt_fits(s, 2 * (q - p0) + 2),
    decreases ts.len() - p, 29nat,
{
    if kind_at(ts, p) == TokenType::Comma {
        if kind_at(ts, p + 1) == TokenType::Identifier {
            lemma_for_names(ts, p + 2, names.push(ts[p + 1]), p0);
        }
    } else if kind_at(ts, p) == TokenType::In {
        lemma_for_iter(ts, p + 1, names, p0);
    }
}

pub proof fn lemma_for_iter(ts: Seq<Token>, p: int, names: Seq<Token>, p0: int)
    requires
        0 <= p0 <= p,
        names.len() > 0,
    ensures
        sp_for_iter(ts, p, names) matches (Ok(s), q) ==> p <= q && stmt_fits(s, 2 * (q - p0) + 2),
    decreases ts.len() - p, 29nat,
{
    lemma_expression(ts, p);
    if let (Ok(iter), q) = sp_expression(ts, p) {
        if moved(ts, p, q) {
            if kind_at(ts, q) == TokenType::DotDot || kind_at(ts, q) == TokenType::DotDotEqual {
                lemma_expression(ts, q + 1);
                if let (Ok(right), r) = sp_expression(ts, q + 1) {
                    if moved(ts, q, r) {
                        let range = ExprV::Binary {
                            left: Box::new(iter),
                            operator: ts[q],
                            right: Box::new(right),
                        };
                        assert forall|j: nat| j + 2 * (r - p0) <= usize::MAX implies #[trigger] expr_emittable(
                            range,
                            j,
                        ) by {
                            assert(expr_emittable(iter, j));
                            assert(expr_emittable(right, j));
                        }
                        lemma_for_body(ts, r, names, range, p0);
                    }
                }
            } else {
                lemma_for_body(ts, q, names, iter, p0);
            }
        }
    }
}

pub proof fn lemma_for_body(ts: Seq<Token>, p: int, names: Seq<Token>, iter: ExprV, p0: int)
    requires
        0 <= p0 <= p,
        names.len() > 0,
        expr_fits(iter, 2 * (p - p0)),
    ensures
        sp_for_body(ts, p, names, iter) matches (Ok(s), q) ==> p <= q && stmt_fits(
            s,
            2 * (q - p0) + 2,
        ),
    decreases ts.len() - p, 29nat,
{
    lemma_block(ts, p);
    if let (Ok(body), q) = sp_block(ts, p) {
        let s = StmtV::For { ident: names, iter, step: None, body: Box::new(body) };
        assert forall|j: nat| j + (2 * (q - p0) + 2) <= usize::MAX implies #[trigger] stmt_emittable(
            s,
            j,
        ) by {
            assert(expr_emittable(iter, j));
            assert(stmt_emittable(body, j + 1));
        }
    }
}

pub proof fn lemma_expression_statement(ts: Seq<Token>, p: int)
    requires
        0 <= p,
    ensures
        sp_expression_statement(ts, p) matches (Ok(s), q) ==> p <= q && stmt_fits(s, 2 * (q - p)),
    decreases ts.len() - p, 28nat,
{
    lemma_expression(ts, p);
    if let (Ok(e), q) = sp_expression(ts, p) {
        assert forall|j: nat| j + 2 * (q - p) <= usize::MAX implies #[trigger] stmt_emittable(
            StmtV::Expression(e),
            j,
        ) by {
            assert(expr_emittable(e, j));
        }
    }
}

/// The statements of a program read up to `p` fit within twice the number
/// of tokens.
pub proof fn lemma_program(ts: Seq<Token>, p: int, stmts: Seq<StmtV>, errors: Seq<ParseError>)
    requires
        0 <= p <= ts.len(),
        stmts_fit(stmts, 2 * p),
    ensures
        sp_program(ts, p, stmts, errors) matches Ok((ss, _)) ==> stmts_fit(ss, 2 * (ts.len() as int)),
    decreases ts.len() - p, 33nat,
{
    if !at_end(ts, p) {
        lemma_declaration(ts, p);
        match sp_declaration(ts, p) {
            (Ok(st), q) => {
                if moved(ts, p, q) {
                    lemma_stmts_push(stmts, st, 2 * q);
                    lemma_program(ts, q, stmts.push(st), errors);
                }
            },
            (Err(ParseFailure::Error(e)), q) => {
                let next = sp_synchronize(ts, q);
                if p <= q && moved(ts, p, next) {
                    lemma_program(ts, next, stmts, errors.push(e));
                }
            },
            (Err(ParseFailure::MissingLiteral(_)), _) => {},
        }
    }
}

/// A program the parser accepts can be lowered: its trees hold no decorator
/// literal, each range loop names a variable, and they nest no deeper than
/// twice the number of tokens, which an `usize` can count here.
pub proof fn law_parsed_programs_lower(ts: Seq<Token>)
    requires
        2 * ts.len() <= usize::MAX,
    ensures
        parse_outcome(ts, 0) matches Some(Ok(ss)) ==> stmts_emittable(ss, 0),
{
    lemma_empty_fit(0);
    lemma_program(ts, 0, Seq::empty(), Seq::empty());
    if let Some(Ok(ss)) = parse_outcome(ts, 0) {
        assert(stmts_emittable(ss, 0));
    }
}

} // verus!
