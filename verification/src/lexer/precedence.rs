//! Binary operators group by precedence and associate to the left: in every
//! expression the parser reads, the left operand of an operator holds no
//! operator that binds more loosely, and its right operand only operators
//! that bind more tightly, outside parentheses.
use vstd::prelude::*;

use crate::lexer::expr::{ExprV, FieldV, KeyV};
use crate::lexer::parser::{
    binary_rank, kind_at, level_ops, moved, sp_assignment, sp_binary, sp_binary_rest,
    sp_computed_field, sp_expression, sp_if_else, sp_if_expr, sp_if_then, sp_primary,
    sp_table_field, sp_table_rest, sp_unary, ParseFailure,
};
use crate::lexer::{Token, TokenType};

verus! {

/// How tightly an operator binds: `||` 0, `&&` 1, equality 2, comparison 3,
/// `+ -` 4, `* /` 5; anything else 6.
pub open spec fn binding_level(t: TokenType) -> nat {
    match t {
        TokenType::Or => 0,
        TokenType::And => 1,
        TokenType::BangEqual | TokenType::EqualEqual => 2,
        TokenType::Greater | TokenType::GreaterEqual | TokenType::Less | TokenType::LessEqual => 3,
        TokenType::Minus | TokenType::Plus => 4,
        TokenType::Slash | TokenType::Star => 5,
        _ => 6,
    }
}

/// `e` may stand where only operators binding at level `k` or tighter may
/// appear outside parentheses: each binary operator binds at `k` or tighter,
/// its left operand at its own level or tighter, its right operand strictly
/// tighter; an assignment stands only at the top.
pub open spec fn well_grouped(e: ExprV, k: nat) -> bool
    decreases e,
{
    match e {
        ExprV::Binary { left, operator, right } => {
            let j = binding_level(operator.token_type);
            &&& k <= j <= 5
            &&& well_grouped(*left, j)
            &&& well_grouped(*right, j + 1)
        },
        ExprV::Unary { right, .. } => well_grouped(*right, 6),
        ExprV::Grouping(inner) => well_grouped(*inner, 0),
        ExprV::Assign { value, .. } => k == 0 && well_grouped(*value, 0),
        ExprV::IfExpr { predicate, then_expr, else_expr } => well_grouped(*predicate, 0)
            && well_grouped(*then_expr, 0) && well_grouped(*else_expr, 0),
        ExprV::Table { fields, .. } => fields_grouped(fields),
        ExprV::Literal(_) => true,
        ExprV::Variable(_) => true,
    }
}

/// Every key and value of the fields is well grouped.
pub open spec fn fields_grouped(fs: Seq<FieldV>) -> bool
    decreases fs,
{
    if fs.len() == 0 {
        true
    } else {
        fields_grouped(fs.drop_last()) && field_grouped(fs.last())
    }
}

pub open spec fn field_grouped(f: FieldV) -> bool
    decreases f,
{
    &&& match f.key {
        KeyV::Computed(key) => well_grouped(key, 0),
        _ => true,
    }
    &&& well_grouped(f.value, 0)
}

/// The operators of the binary level `k` bind at level `k`.
proof fn lemma_level_ops(k: nat, t: TokenType)
    requires
        k <= 5,
        level_ops(k).contains(t),
    ensures
        binding_level(t) == k,
{
    let ops = level_ops(k);
    let i = choose|i: int| 0 <= i < ops.len() && ops[i] == t;
    assert(i == 0 || i == 1 || i == 2 || i == 3);
}

/// Where `k` may stand, any looser level may too.
proof fn lemma_grouped_mono(e: ExprV, k: nat, j: nat)
    requires
        well_grouped(e, k),
        j <= k,
    ensures
        well_grouped(e, j),
{
}

proof fn lemma_primary(ts: Seq<Token>, p: int)
    requires
        0 <= p,
    ensures
        sp_primary(ts, p) matches (Ok(e), _) ==> well_grouped(e, 6),
    decreases ts.len() - p, 10nat,
{
    match kind_at(ts, p) {
        TokenType::If => lemma_if_expr(ts, p + 1),
        TokenType::LeftBrace => lemma_table_rest(ts, p + 1, Seq::empty(), ts[p]),
        TokenType::LeftParen => {
            lemma_expression(ts, p + 1);
            if let (Ok(e), _) = sp_expression(ts, p + 1) {
                assert(well_grouped(ExprV::Grouping(Box::new(e)), 6));
            }
        },
        _ => {},
    }
}

proof fn lemma_unary(ts: Seq<Token>, p: int)
    requires
        0 <= p,
    ensures
        sp_unary(ts, p) matches (Ok(e), _) ==> well_grouped(e, 6),
    decreases ts.len() - p, 11nat,
{
    if kind_at(ts, p) == TokenType::Bang || kind_at(ts, p) == TokenType::Minus {
        lemma_unary(ts, p + 1);
    } else {
        lemma_primary(ts, p);
    }
}

proof fn lemma_operand(ts: Seq<Token>, p: int, k: nat)
    requires
        0 <= p,
        k <= 5,
    ensures
        (if k >= 5 { sp_unary(ts, p) } else { sp_binary(ts, p, k + 1) }) matches (Ok(e), _)
            ==> well_grouped(e, k + 1),
    decreases ts.len() - p, binary_rank(k), 1nat,
{
    if k >= 5 {
        lemma_unary(ts, p);
        if let (Ok(e), _) = sp_unary(ts, p) {
            lemma_grouped_mono(e, 6, k + 1);
        }
    } else {
        lemma_binary(ts, p, k + 1);
    }
}

proof fn lemma_binary(ts: Seq<Token>, p: int, k: nat)
    requires
        0 <= p,
        k <= 5,
    ensures
        sp_binary(ts, p, k) matches (Ok(e), _) ==> well_grouped(e, k),
    decreases ts.len() - p, binary_rank(k), 2nat,
{
    lemma_operand(ts, p, k);
    if let (Ok(left), q) = (if k >= 5 { sp_unary(ts, p) } else { sp_binary(ts, p, k + 1) }) {
        if p <= q <= ts.len() {
            lemma_grouped_mono(left, k + 1, k);
            lemma_binary_rest(ts, q, k, left);
        }
    }
}

proof fn lemma_binary_rest(ts: Seq<Token>, p: int, k: nat, left: ExprV)
    requires
        0 <= p,
        k <= 5,
        well_grouped(left, k),
    ensures
        sp_binary_rest(ts, p, k, left) matches (Ok(e), _) ==> well_grouped(e, k),
    decreases ts.len() - p, 0nat, 0nat,
{
    if level_ops(k).contains(kind_at(ts, p)) {
        lemma_operand(ts, p + 1, k);
        if let (Ok(right), q) = (if k >= 5 { sp_unary(ts, p + 1) } else { sp_binary(ts, p + 1, k + 1) }) {
            if moved(ts, p, q) {
                lemma_level_ops(k, ts[p].token_type);
                let e = ExprV::Binary { left: Box::new(left), operator: ts[p], right: Box::new(right) };
                assert(well_grouped(e, k));
                lemma_binary_rest(ts, q, k, e);
            }
        }
    }
}

proof fn lemma_assignment(ts: Seq<Token>, p: int)
    requires
        0 <= p,
    ensures
        sp_assignment(ts, p) matches (Ok(e), _) ==> well_grouped(e, 0),
    decreases ts.len() - p, 24nat,
{
    lemma_binary(ts, p, 0);
    if let (Ok(_), q) = sp_binary(ts, p, 0) {
        if kind_at(ts, q) == TokenType::Equal && p <= q {
            lemma_binary(ts, q + 1, 0);
        }
    }
}

proof fn lemma_expression(ts: Seq<Token>, p: int)
    requires
        0 <= p,
    ensures
        sp_expression(ts, p) matches (Ok(e), _) ==> well_grouped(e, 0),
    decreases ts.len() - p, 25nat,
{
    lemma_assignment(ts, p);
}

proof fn lemma_if_expr(ts: Seq<Token>, p: int)
    requires
        0 <= p,
    ensures
        sp_if_expr(ts, p) matches (Ok(e), _) ==> well_grouped(e, 6),
    decreases ts.len() - p, 29nat,
{
    lemma_expression(ts, p);
    if let (Ok(predicate), q) = sp_expression(ts, p) {
        if moved(ts, p, q) && kind_at(ts, q) == TokenType::LeftBrace {
            lemma_if_then(ts, q + 1, predicate);
        }
    }
}

proof fn lemma_if_then(ts: Seq<Token>, p: int, predicate: ExprV)
    requires
        0 <= p,
        well_grouped(predicate, 0),
    ensures
        sp_if_then(ts, p, predicate) matches (Ok(e), _) ==> well_grouped(e, 6),
    decreases ts.len() - p, 29nat,
{
    lemma_expression(ts, p);
    if let (Ok(then_expr), r) = sp_expression(ts, p) {
        if moved(ts, p, r) && kind_at(ts, r) == TokenType::RightBrace {
            lemma_if_else(ts, r + 1, predicate, then_expr);
        }
    }
}

proof fn lemma_if_else(ts: Seq<Token>, p: int, predicate: ExprV, then_expr: ExprV)
    requires
        0 <= p,
        well_grouped(predicate, 0),
        well_grouped(then_expr, 0),
    ensures
        sp_if_else(ts, p, predicate, then_expr) matches (Ok(e), _) ==> well_grouped(e, 6),
    decreases ts.len() - p, 29nat,
{
    if kind_at(ts, p) == TokenType::Else && kind_at(ts, p + 1) == TokenType::LeftBrace {
        lemma_expression(ts, p + 2);
    }
}

proof fn lemma_table_rest(ts: Seq<Token>, p: int, fields: Seq<FieldV>, open: Token)
    requires
        0 <= p,
        fields_grouped(fields),
    ensures
        sp_table_rest(ts, p, fields, open) matches (Ok(e), _) ==> well_grouped(e, 6),
    decreases ts.len() - p, 27nat,
{
    if !(kind_at(ts, p) == TokenType::Eof || kind_at(ts, p) == TokenType::RightBrace) {
        lemma_table_field(ts, p);
        if let (Ok(field), q) = sp_table_field(ts, p) {
            if moved(ts, p, q) {
                assert(fields.push(field).drop_last() =~= fields);
                assert(fields_grouped(fields.push(field)));
                if kind_at(ts, q) == TokenType::Comma {
                    lemma_table_rest(ts, q + 1, fields.push(field), open);
                } else if kind_at(ts, q) == TokenType::RightBrace {
                    lemma_table_rest(ts, q, fields.push(field), open);
                }
            }
        }
    }
}

proof fn lemma_table_field(ts: Seq<Token>, p: int)
    requires
        0 <= p,
    ensures
        sp_table_field(ts, p) matches (Ok(f), _) ==> field_grouped(f),
    decreases ts.len() - p, 26nat,
{
    if kind_at(ts, p) == TokenType::Identifier && kind_at(ts, p + 1) == TokenType::Equal {
        lemma_expression(ts, p + 2);
    } else if kind_at(ts, p) == TokenType::LeftBracket {
        lemma_computed_field(ts, p + 1);
    } else {
        lemma_expression(ts, p);
    }
}

proof fn lemma_computed_field(ts: Seq<Token>, p: int)
    requires
        0 <= p,
    ensures
        sp_computed_field(ts, p) matches (Ok(f), _) ==> field_grouped(f),
    decreases ts.len() - p, 26nat,
{
    lemma_expression(ts, p);
    let (rk, q) = sp_expression(ts, p);
    if rk is Ok && moved(ts, p, q) && kind_at(ts, q) == TokenType::RightBracket && kind_at(ts, q + 1)
        == TokenType::Equal {
        lemma_expression(ts, q + 2);
        let (rv, r) = sp_expression(ts, q + 2);
        if rv is Ok {
            let f = FieldV { key: KeyV::Computed(rk->Ok_0), value: rv->Ok_0 };
            assert(sp_computed_field(ts, p) == (Ok::<FieldV, ParseFailure>(f), r));
        }
    }
}

/// Binary operators group by precedence and associate to the left: in an
/// expression the parser reads, each operator's left operand holds no
/// operator binding more loosely and its right operand only operators binding
/// more tightly, outside parentheses; an assignment stands only at the top.
pub proof fn law_precedence(ts: Seq<Token>, p: int)
    requires
        0 <= p,
    ensures
        sp_expression(ts, p) matches (Ok(e), _) ==> well_grouped(e, 0),
{
    lemma_expression(ts, p);
}

/// Each operator that binds at a level up to 5 is an operator of that level.
proof fn lemma_level_ops_complete(t: TokenType)
    requires
        binding_level(t) <= 5,
    ensures
        level_ops(binding_level(t)).contains(t),
{
    let ops = level_ops(binding_level(t));
    match t {
        TokenType::Or | TokenType::And | TokenType::BangEqual | TokenType::Greater
        | TokenType::Minus | TokenType::Slash => {
            assert(ops[0] == t);
        },
        TokenType::EqualEqual | TokenType::GreaterEqual | TokenType::Plus | TokenType::Star => {
            assert(ops[1] == t);
        },
        TokenType::Less => {
            assert(ops[2] == t);
        },
        TokenType::LessEqual => {
            assert(ops[3] == t);
        },
        _ => {},
    }
}

/// A name followed by no operator of the levels `k` to 5 is read at level
/// `k` as just that name.
proof fn lemma_name_alone(ts: Seq<Token>, p: int, k: nat)
    requires
        0 <= p,
        k <= 5,
        kind_at(ts, p) == TokenType::Identifier,
        !(k <= binding_level(kind_at(ts, p + 1)) <= 5),
    ensures
        sp_binary(ts, p, k) == (Ok::<ExprV, ParseFailure>(ExprV::Variable(ts[p])), p + 1),
    decreases 5 - k,
{
    let v = ExprV::Variable(ts[p]);
    lemma_name_primary(ts, p);
    if k < 5 {
        lemma_name_alone(ts, p, k + 1);
    }
    if level_ops(k).contains(kind_at(ts, p + 1)) {
        lemma_level_ops(k, kind_at(ts, p + 1));
    }
    assert(sp_binary_rest(ts, p + 1, k, v) == (Ok::<ExprV, ParseFailure>(v), p + 1));
}

/// A name is read as a primary expression on its own.
proof fn lemma_name_primary(ts: Seq<Token>, p: int)
    requires
        0 <= p,
        kind_at(ts, p) == TokenType::Identifier,
    ensures
        p < ts.len(),
        sp_unary(ts, p) == (Ok::<ExprV, ParseFailure>(ExprV::Variable(ts[p])), p + 1),
{
    assert(sp_primary(ts, p) == (Ok::<ExprV, ParseFailure>(ExprV::Variable(ts[p])), p + 1));
}

/// `a op b`, read at a level `k` no tighter than that of `op`.
proof fn lemma_one_operator(ts: Seq<Token>, p: int, k: nat)
    requires
        0 <= p,
        kind_at(ts, p) == TokenType::Identifier,
        binding_level(kind_at(ts, p + 1)) <= 5,
        k <= binding_level(kind_at(ts, p + 1)),
        kind_at(ts, p + 2) == TokenType::Identifier,
        binding_level(kind_at(ts, p + 3)) == 6,
    ensures
        sp_binary(ts, p, k) == (
            Ok::<ExprV, ParseFailure>(
                ExprV::Binary {
                    left: Box::new(ExprV::Variable(ts[p])),
                    operator: ts[p + 1],
                    right: Box::new(ExprV::Variable(ts[p + 2])),
                },
            ),
            p + 3,
        ),
    decreases binding_level(kind_at(ts, p + 1)) - k,
{
    let j = binding_level(kind_at(ts, p + 1));
    let e = ExprV::Binary {
        left: Box::new(ExprV::Variable(ts[p])),
        operator: ts[p + 1],
        right: Box::new(ExprV::Variable(ts[p + 2])),
    };
    lemma_name_primary(ts, p);
    lemma_name_primary(ts, p + 2);
    let v = ExprV::Variable(ts[p]);
    if k == j {
        if k < 5 {
            lemma_name_alone(ts, p, k + 1);
            lemma_name_alone(ts, p + 2, k + 1);
        }
        lemma_level_ops_complete(kind_at(ts, p + 1));
        assert(ts[p + 1].token_type == kind_at(ts, p + 1));
        if level_ops(k).contains(kind_at(ts, p + 3)) {
            lemma_level_ops(k, kind_at(ts, p + 3));
        }
        assert(sp_binary_rest(ts, p + 3, k, e) == (Ok::<ExprV, ParseFailure>(e), p + 3));
        assert(sp_binary_rest(ts, p + 1, k, v) == (Ok::<ExprV, ParseFailure>(e), p + 3));
    } else {
        lemma_one_operator(ts, p, k + 1);
        if level_ops(k).contains(kind_at(ts, p + 3)) {
            lemma_level_ops(k, kind_at(ts, p + 3));
        }
        assert(sp_binary_rest(ts, p + 3, k, e) == (Ok::<ExprV, ParseFailure>(e), p + 3));
    }
}

/// Every binary operator (`|| && == != < <= > >= + - * /`) joins its two
/// operands: `a op b`, followed by nothing that continues the expression,
/// is read as the operator applied to the two names.
pub proof fn law_binary_operators(ts: Seq<Token>, p: int)
    requires
        0 <= p,
        kind_at(ts, p) == TokenType::Identifier,
        binding_level(kind_at(ts, p + 1)) <= 5,
        kind_at(ts, p + 2) == TokenType::Identifier,
        binding_level(kind_at(ts, p + 3)) == 6,
        kind_at(ts, p + 3) != TokenType::Equal,
    ensures
        sp_expression(ts, p) == (
            Ok::<ExprV, ParseFailure>(
                ExprV::Binary {
                    left: Box::new(ExprV::Variable(ts[p])),
                    operator: ts[p + 1],
                    right: Box::new(ExprV::Variable(ts[p + 2])),
                },
            ),
            p + 3,
        ),
{
    lemma_one_operator(ts, p, 0);
}

} // verus!
