//! The layout of generated code: lowering a statement at level `k` writes
//! whole lines, each starting with at least `k` tabs.
use vstd::prelude::*;

use crate::codegen::emitter::tabs;
use crate::codegen::statements::{StmtV, VarKind};
use crate::codegen::{
    else_code, ends_alphabetic, expr_code, field_code, fields_inline, fields_lines, for_head,
    is_range, key_code, names_code, op_text, stmt_code, stmts_code,
};
use crate::lexer::TokenType;
use crate::lexer::expr::{ExprV, FieldV, KeyV};
use crate::lexer::{LiteralValue, Token};

verus! {

/// `t` has no line break.
pub open spec fn no_break(t: Seq<char>) -> bool {
    forall|i: int| 0 <= i < t.len() ==> t[i] != '\n'
}

/// `t` starts with `k` tabs.
pub open spec fn starts_tabs(t: Seq<char>, k: nat) -> bool {
    k <= t.len() && forall|j: int| 0 <= j < k ==> t[j] == '\t'
}

/// Every line break of `t` ends `t` or is followed by `k` tabs.
pub open spec fn breaks_indented(t: Seq<char>, k: nat) -> bool {
    forall|i: int|
        0 <= i < t.len() && #[trigger] t[i] == '\n' ==> i + 1 == t.len() || starts_tabs(
            t.skip(i + 1),
            k,
        )
}

/// Text within a line: every line break in it is followed by `k` tabs, and
/// it does not end with one.
pub open spec fn inline_text(t: Seq<char>, k: nat) -> bool {
    &&& breaks_indented(t, k)
    &&& t.len() > 0 ==> t.last() != '\n'
}

/// Whole lines, each starting with at least `k` tabs: empty, or starting
/// with `k` tabs and ending with a line break, every other line break
/// followed by `k` tabs.
pub open spec fn lines_at(t: Seq<char>, k: nat) -> bool {
    t.len() == 0 || (starts_tabs(t, k) && t.last() == '\n' && breaks_indented(t, k))
}

pub proof fn lemma_no_break(t: Seq<char>, k: nat)
    requires
        no_break(t),
    ensures
        inline_text(t, k),
{
}

pub proof fn lemma_tabs_start(k: nat, t: Seq<char>)
    ensures
        starts_tabs(tabs(k) + t, k),
        no_break(tabs(k)),
{
    assert forall|j: int| 0 <= j < k implies (tabs(k) + t)[j] == '\t' by {
        assert((tabs(k) + t)[j] == tabs(k)[j]);
    }
}

/// Joining two texts keeps their breaks indented, where a break that ends
/// the first is followed by `k` tabs.
pub proof fn lemma_join(a: Seq<char>, b: Seq<char>, k: nat)
    requires
        breaks_indented(a, k),
        breaks_indented(b, k),
        a.len() > 0 && a.last() == '\n' && b.len() > 0 ==> starts_tabs(b, k),
    ensures
        breaks_indented(a + b, k),
{
    let t = a + b;
    assert forall|i: int| 0 <= i < t.len() && #[trigger] t[i] == '\n' implies i + 1 == t.len()
        || starts_tabs(t.skip(i + 1), k) by {
        if i < a.len() {
            assert(a[i] == '\n');
            if i + 1 < a.len() {
                assert(starts_tabs(a.skip(i + 1), k));
                assert(t.skip(i + 1) =~= a.skip(i + 1) + b);
                assert forall|j: int| 0 <= j < k implies #[trigger] t.skip(i + 1)[j] == '\t' by {
                    assert(t.skip(i + 1)[j] == a.skip(i + 1)[j]);
                }
            } else if b.len() > 0 {
                assert(a.last() == '\n');
                assert(t.skip(i + 1) =~= b);
            }
        } else {
            let i2 = i - a.len();
            assert(b[i2] == '\n');
            if i2 + 1 < b.len() {
                assert(starts_tabs(b.skip(i2 + 1), k));
                assert(t.skip(i + 1) =~= b.skip(i2 + 1));
            }
        }
    }
}

pub proof fn lemma_starts_join(a: Seq<char>, b: Seq<char>, k: nat)
    ensures
        starts_tabs(a, k) ==> starts_tabs(a + b, k),
        a.len() == 0 && starts_tabs(b, k) ==> starts_tabs(a + b, k),
{
    if starts_tabs(a, k) {
        assert forall|j: int| 0 <= j < k implies (a + b)[j] == '\t' by {
            assert((a + b)[j] == a[j]);
        }
    }
    if a.len() == 0 {
        assert(a + b =~= b);
    }
}

pub proof fn lemma_inline_join(a: Seq<char>, b: Seq<char>, k: nat)
    requires
        inline_text(a, k),
        inline_text(b, k),
    ensures
        inline_text(a + b, k),
{
    lemma_join(a, b, k);
    if b.len() == 0 {
        assert(a + b =~= a);
    } else {
        assert((a + b).last() == b.last());
    }
}

pub proof fn lemma_lines_join(a: Seq<char>, b: Seq<char>, k: nat)
    requires
        lines_at(a, k),
        lines_at(b, k),
    ensures
        lines_at(a + b, k),
{
    if a.len() == 0 {
        assert(a + b =~= b);
    } else if b.len() == 0 {
        assert(a + b =~= a);
    } else {
        lemma_join(a, b, k);
        lemma_starts_join(a, b, k);
        assert((a + b).last() == b.last());
    }
}

/// Lines at a deeper level are lines at a shallower one.
pub proof fn lemma_lines_deeper(t: Seq<char>, k: nat, j: nat)
    requires
        lines_at(t, k),
        j <= k,
    ensures
        lines_at(t, j),
{
}

pub proof fn lemma_inline_deeper(t: Seq<char>, k: nat, j: nat)
    requires
        inline_text(t, k),
        j <= k,
    ensures
        inline_text(t, j),
{
}

/// One line: `k` tabs, text within the line, a line break.
pub proof fn lemma_line(k: nat, c: Seq<char>)
    requires
        inline_text(c, k),
    ensures
        lines_at(tabs(k) + c + seq!['\n'], k),
{
    lemma_tabs_start(k, c);
    lemma_no_break(tabs(k), k);
    lemma_inline_join(tabs(k), c, k);
    let a = tabs(k) + c;
    assert(breaks_indented(seq!['\n'], k));
    lemma_join(a, seq!['\n'], k);
    lemma_starts_join(a, seq!['\n'], k);
    assert((a + seq!['\n']).last() == '\n');
}

/// A table laid out over several lines: its fields on lines at level `k + 1`
/// or deeper, then `k` tabs and the closing brace.
pub proof fn lemma_table_lines(b: Seq<char>, k: nat)
    requires
        lines_at(b, k),
    ensures
        inline_text(seq!['{', '\n'] + b + tabs(k) + seq!['}'], k),
{
    let a = seq!['{', '\n'];
    assert(a[1] == '\n');
    assert(breaks_indented(a, k));
    lemma_join(a, b, k);
    let ab = a + b;
    let c = tabs(k) + seq!['}'];
    lemma_tabs_start(k, seq!['}']);
    assert(no_break(c)) by {
        assert forall|i: int| 0 <= i < c.len() implies c[i] != '\n' by {
            if i < k {
                assert(c[i] == tabs(k)[i]);
            }
        }
    }
    if b.len() > 0 {
        assert(ab.last() == b.last());
    } else {
        assert(ab =~= a);
    }
    lemma_join(ab, c, k);
    assert((ab + c).last() == '}');
    assert(a + b + tabs(k) + seq!['}'] =~= ab + c);
}

/// No text of the expression (names, operators, literal values) holds a
/// line break.
pub open spec fn expr_plain(e: ExprV) -> bool
    decreases e,
{
    match e {
        ExprV::Literal(v) => match v {
            LiteralValue::NumberValue(n) => no_break(n@),
            LiteralValue::StringValue(t) => no_break(t@),
            _ => true,
        },
        ExprV::Grouping(inner) => expr_plain(*inner),
        ExprV::Table { fields, .. } => fields_plain(fields),
        ExprV::Binary { left, operator, right } => no_break(operator.lexeme@) && expr_plain(*left)
            && expr_plain(*right),
        ExprV::Unary { operator, right } => no_break(operator.lexeme@) && expr_plain(*right),
        ExprV::Variable(name) => no_break(name.lexeme@),
        ExprV::Assign { name, value } => no_break(name.lexeme@) && expr_plain(*value),
        ExprV::IfExpr { predicate, then_expr, else_expr } => expr_plain(*predicate) && expr_plain(
            *then_expr,
        ) && expr_plain(*else_expr),
    }
}

pub open spec fn fields_plain(fs: Seq<FieldV>) -> bool
    decreases fs,
{
    if fs.len() == 0 {
        true
    } else {
        fields_plain(fs.drop_last()) && field_plain(fs.last())
    }
}

pub open spec fn field_plain(f: FieldV) -> bool
    decreases f,
{
    &&& match f.key {
        KeyV::Ident(t) => no_break(t.lexeme@),
        KeyV::Computed(key) => expr_plain(key),
        KeyV::Positional => true,
    }
    &&& expr_plain(f.value)
}

/// The fixed texts the code generator writes hold no line break.
pub proof fn lemma_words()
    ensures
        no_break("("@),
        no_break(")"@),
        no_break("{}"@),
        no_break("{"@),
        no_break("}"@),
        no_break(" = "@),
        no_break("if "@),
        no_break(" then "@),
        no_break(" else "@),
        no_break("\""@),
        no_break(", "@),
        no_break(","@),
        no_break("["@),
        no_break("] = "@),
        no_break("true"@),
        no_break("false"@),
        no_break("nil"@),
        no_break("~="@),
        no_break("not"@),
        no_break("and"@),
        no_break("or"@),
        no_break(seq![' ']),
        no_break(Seq::<char>::empty()),
{
    reveal_strlit("(");
    reveal_strlit(")");
    reveal_strlit("{}");
    reveal_strlit("{");
    reveal_strlit("}");
    reveal_strlit(" = ");
    reveal_strlit("if ");
    reveal_strlit(" then ");
    reveal_strlit(" else ");
    reveal_strlit("\"");
    reveal_strlit(", ");
    reveal_strlit(",");
    reveal_strlit("[");
    reveal_strlit("] = ");
    reveal_strlit("true");
    reveal_strlit("false");
    reveal_strlit("nil");
    reveal_strlit("~=");
    reveal_strlit("not");
    reveal_strlit("and");
    reveal_strlit("or");
}

proof fn lemma_join3(a: Seq<char>, b: Seq<char>, c: Seq<char>, k: nat)
    requires
        inline_text(a, k),
        inline_text(b, k),
        inline_text(c, k),
    ensures
        inline_text(a + b + c, k),
{
    lemma_inline_join(a, b, k);
    lemma_inline_join(a + b, c, k);
}

/// The code of an expression with no line break in its texts stays within a
/// line, but for tables laid out over several lines, whose lines start with
/// at least `k` tabs.
pub proof fn lemma_expr_inline(e: ExprV, k: nat)
    requires
        expr_plain(e),
    ensures
        inline_text(expr_code(e, k), k),
    decreases e, 2nat,
{
    lemma_words();
    match e {
        ExprV::Literal(v) => {
            match v {
                LiteralValue::StringValue(t) => {
                    lemma_join3("\""@, t@, "\""@, k);
                },
                _ => {},
            }
        },
        ExprV::Grouping(inner) => {
            lemma_expr_inline(*inner, k);
            lemma_join3("("@, expr_code(*inner, k), ")"@, k);
        },
        ExprV::Table { fields, multiline } => {
            if fields.len() == 0 {
            } else if multiline {
                lemma_fields_lines(fields, k + 1);
                lemma_lines_deeper(fields_lines(fields, k + 1), k + 1, k);
                lemma_table_lines(fields_lines(fields, k + 1), k);
                reveal_strlit("{");
                reveal_strlit("}");
                assert("{"@ + seq!['\n'] + fields_lines(fields, k + 1) + tabs(k) + "}"@ =~= seq![
                    '{',
                    '\n',
                ] + fields_lines(fields, k + 1) + tabs(k) + seq!['}']);
            } else {
                lemma_fields_inline(fields, k);
                lemma_join3("{"@, fields_inline(fields, k), "}"@, k);
            }
        },
        ExprV::Binary { left, operator, right } => {
            lemma_expr_inline(*left, k);
            lemma_expr_inline(*right, k);
            lemma_op(operator);
            lemma_join3(expr_code(*left, k), seq![' '], op_text(operator), k);
            lemma_join3(expr_code(*left, k) + seq![' '] + op_text(operator), seq![' '], expr_code(*right, k), k);
        },
        ExprV::Unary { operator, right } => {
            lemma_expr_inline(*right, k);
            lemma_op(operator);
            let sp = if ends_alphabetic(op_text(operator)) {
                seq![' ']
            } else {
                Seq::empty()
            };
            lemma_join3(op_text(operator), sp, expr_code(*right, k), k);
        },
        ExprV::Variable(name) => {},
        ExprV::Assign { name, value } => {
            lemma_expr_inline(*value, k);
            lemma_join3(name.lexeme@, " = "@, expr_code(*value, k), k);
        },
        ExprV::IfExpr { predicate, then_expr, else_expr } => {
            lemma_expr_inline(*predicate, k);
            lemma_expr_inline(*then_expr, k);
            lemma_expr_inline(*else_expr, k);
            lemma_join3("if "@, expr_code(*predicate, k), " then "@, k);
            lemma_join3(
                "if "@ + expr_code(*predicate, k) + " then "@,
                expr_code(*then_expr, k),
                " else "@,
                k,
            );
            lemma_inline_join(
                "if "@ + expr_code(*predicate, k) + " then "@ + expr_code(*then_expr, k) + " else "@,
                expr_code(*else_expr, k),
                k,
            );
        },
    }
}

proof fn lemma_op(t: Token)
    requires
        no_break(t.lexeme@),
    ensures
        no_break(op_text(t)),
{
    lemma_words();
}

proof fn lemma_field_inline(f: FieldV, k: nat)
    requires
        field_plain(f),
    ensures
        inline_text(field_code(f, k), k),
    decreases f, 1nat,
{
    lemma_words();
    lemma_expr_inline(f.value, k);
    match f.key {
        KeyV::Ident(t) => {
            lemma_inline_join(t.lexeme@, " = "@, k);
        },
        KeyV::Computed(key) => {
            lemma_expr_inline(key, k);
            lemma_join3("["@, expr_code(key, k), "] = "@, k);
        },
        KeyV::Positional => {},
    }
    lemma_inline_join(key_code(f.key, k), expr_code(f.value, k), k);
}

proof fn lemma_fields_inline(fs: Seq<FieldV>, k: nat)
    requires
        fields_plain(fs),
    ensures
        inline_text(fields_inline(fs, k), k),
    decreases fs, 1nat,
{
    lemma_words();
    if fs.len() == 1 {
        lemma_field_inline(fs[0], k);
    } else if fs.len() > 1 {
        lemma_fields_inline(fs.drop_last(), k);
        lemma_field_inline(fs.last(), k);
        lemma_join3(fields_inline(fs.drop_last(), k), ", "@, field_code(fs.last(), k), k);
    }
}

proof fn lemma_fields_lines(fs: Seq<FieldV>, k: nat)
    requires
        fields_plain(fs),
    ensures
        lines_at(fields_lines(fs, k), k),
    decreases fs, 1nat,
{
    lemma_words();
    if fs.len() > 0 {
        lemma_fields_lines(fs.drop_last(), k);
        lemma_field_inline(fs.last(), k);
        lemma_inline_join(field_code(fs.last(), k), ","@, k);
        lemma_line(k, field_code(fs.last(), k) + ","@);
        assert(fields_lines(fs.drop_last(), k) + tabs(k) + field_code(fs.last(), k) + ","@ + seq!['\n']
            =~= fields_lines(fs.drop_last(), k) + (tabs(k) + (field_code(fs.last(), k) + ","@)
            + seq!['\n']));
        lemma_lines_join(
            fields_lines(fs.drop_last(), k),
            tabs(k) + (field_code(fs.last(), k) + ","@) + seq!['\n'],
            k,
        );
    }
}

/// No text of the statement holds a line break, and a range loop names a
/// variable.
pub open spec fn stmt_plain(s: StmtV) -> bool
    decreases s,
{
    match s {
        StmtV::Expression(e) => expr_plain(e),
        StmtV::Block(ss) => stmts_plain(ss),
        StmtV::Variable { name, init, .. } => no_break(name.lexeme@) && match init {
            Some(e) => expr_plain(e),
            None => true,
        },
        StmtV::If { predicate, then, else_block } => expr_plain(predicate) && stmt_plain(*then)
            && match else_block {
            Some(e) => stmt_plain(*e),
            None => true,
        },
        StmtV::Loop(body) => stmt_plain(*body),
        StmtV::While { condition, body } => expr_plain(condition) && stmt_plain(*body),
        StmtV::For { ident, iter, step, body } => {
            &&& forall|i: int| 0 <= i < ident.len() ==> no_break(#[trigger] ident[i].lexeme@)
            &&& is_range(iter) ==> ident.len() > 0
            &&& expr_plain(iter)
            &&& match step {
                Some(st) => expr_plain(st),
                None => true,
            }
            &&& stmt_plain(*body)
        },
        StmtV::Return(value) => match value {
            Some(e) => expr_plain(e),
            None => true,
        },
        StmtV::Continue => true,
        StmtV::Break => true,
    }
}

pub open spec fn stmts_plain(ss: Seq<StmtV>) -> bool
    decreases ss,
{
    if ss.len() == 0 {
        true
    } else {
        stmts_plain(ss.drop_last()) && stmt_plain(ss.last())
    }
}

/// A block of (nested) empty blocks, which is lowered to nothing.
pub open spec fn blank(s: StmtV) -> bool
    decreases s,
{
    match s {
        StmtV::Block(ss) => all_blank(ss),
        _ => false,
    }
}

pub open spec fn all_blank(ss: Seq<StmtV>) -> bool
    decreases ss,
{
    if ss.len() == 0 {
        true
    } else {
        all_blank(ss.drop_last()) && blank(ss.last())
    }
}

/// The fixed texts of statements hold no line break.
pub proof fn lemma_statement_words()
    ensures
        no_break("local "@),
        no_break("const "@),
        no_break("if "@),
        no_break(" then"@),
        no_break("end"@),
        no_break("return"@),
        no_break("task.spawn(function()"@),
        no_break("while true do"@),
        no_break("end)"@),
        no_break("while "@),
        no_break(" do"@),
        no_break("for "@),
        no_break(" = "@),
        no_break(", "@),
        no_break(" - 1"@),
        no_break(" in "@),
        no_break("continue"@),
        no_break("break"@),
        no_break("elseif "@),
        no_break("else"@),
        no_break(seq![' ']),
        no_break(Seq::<char>::empty()),
{
    reveal_strlit("local ");
    reveal_strlit("const ");
    reveal_strlit("if ");
    reveal_strlit(" then");
    reveal_strlit("end");
    reveal_strlit("return");
    reveal_strlit("task.spawn(function()");
    reveal_strlit("while true do");
    reveal_strlit("end)");
    reveal_strlit("while ");
    reveal_strlit(" do");
    reveal_strlit("for ");
    reveal_strlit(" = ");
    reveal_strlit(", ");
    reveal_strlit(" - 1");
    reveal_strlit(" in ");
    reveal_strlit("continue");
    reveal_strlit("break");
    reveal_strlit("elseif ");
    reveal_strlit("else");
}

proof fn lemma_names(ids: Seq<Token>, k: nat)
    requires
        forall|i: int| 0 <= i < ids.len() ==> no_break(#[trigger] ids[i].lexeme@),
    ensures
        inline_text(names_code(ids), k),
    decreases ids.len(),
{
    lemma_statement_words();
    if ids.len() == 1 {
        assert(no_break(ids[0].lexeme@));
    } else if ids.len() > 1 {
        lemma_names(ids.drop_last(), k);
        assert(no_break(ids[ids.len() - 1].lexeme@));
        lemma_join3(names_code(ids.drop_last()), ", "@, ids.last().lexeme@, k);
    }
}

/// Three lines in a row: an opening line, a body at a deeper level, a
/// closing line.
proof fn lemma_framed(head: Seq<char>, body: Seq<char>, tail: Seq<char>, k: nat, d: nat)
    requires
        inline_text(head, k),
        lines_at(body, k + d),
        inline_text(tail, k),
    ensures
        lines_at(tabs(k) + head + seq!['\n'] + body + (tabs(k) + tail + seq!['\n']), k),
{
    lemma_line(k, head);
    lemma_line(k, tail);
    lemma_lines_deeper(body, k + d, k);
    lemma_lines_join(tabs(k) + head + seq!['\n'], body, k);
    lemma_lines_join(tabs(k) + head + seq!['\n'] + body, tabs(k) + tail + seq!['\n'], k);
}

proof fn lemma_variable_lines(s: StmtV, k: nat)
    requires
        stmt_plain(s),
        s is Variable,
    ensures
        lines_at(stmt_code(s, k), k),
{
    lemma_words();
    lemma_statement_words();
    match s {
        StmtV::Variable { name, init, kind } => {
            let kw = match kind {
                VarKind::Let => "local "@,
                VarKind::Const => "const "@,
            };
            let rest = match init {
                Some(e) => " = "@ + expr_code(e, k),
                None => Seq::empty(),
            };
            if let Some(e) = init {
                lemma_expr_inline(e, k);
                lemma_inline_join(" = "@, expr_code(e, k), k);
            }
            lemma_join3(kw, name.lexeme@, rest, k);
            lemma_line(k, kw + name.lexeme@ + rest);
            assert(stmt_code(s, k) =~= tabs(k) + (kw + name.lexeme@ + rest) + seq!['\n']);
        },
        _ => {},
    }
}

proof fn lemma_if_lines(s: StmtV, k: nat)
    requires
        stmt_plain(s),
        s is If,
        match s {
            StmtV::If { then, else_block, .. } => lines_at(stmt_code(*then, k + 1), k + 1) && lines_at(
                else_code(else_block, k),
                k,
            ),
            _ => true,
        },
    ensures
        lines_at(stmt_code(s, k), k),
{
    lemma_words();
    lemma_statement_words();
    match s {
        StmtV::If { predicate, then, else_block } => {
            lemma_expr_inline(predicate, k);
            lemma_join3("if "@, expr_code(predicate, k), " then"@, k);
            let head = "if "@ + expr_code(predicate, k) + " then"@;
            let body = stmt_code(*then, k + 1) + else_code(else_block, k);
            lemma_lines_deeper(stmt_code(*then, k + 1), k + 1, k);
            lemma_lines_join(stmt_code(*then, k + 1), else_code(else_block, k), k);
            lemma_framed(head, body, "end"@, k, 0);
            assert(stmt_code(s, k) =~= tabs(k) + head + seq!['\n'] + body + (tabs(k) + "end"@ + seq!['\n']));
        },
        _ => {},
    }
}

proof fn lemma_return_lines(s: StmtV, k: nat)
    requires
        stmt_plain(s),
        s is Return,
    ensures
        lines_at(stmt_code(s, k), k),
{
    lemma_words();
    lemma_statement_words();
    match s {
        StmtV::Return(value) => {
            let rest = match value {
                Some(e) => seq![' '] + expr_code(e, k),
                None => Seq::empty(),
            };
            if let Some(e) = value {
                lemma_expr_inline(e, k);
                lemma_inline_join(seq![' '], expr_code(e, k), k);
            }
            lemma_inline_join("return"@, rest, k);
            lemma_line(k, "return"@ + rest);
            assert(stmt_code(s, k) =~= tabs(k) + ("return"@ + rest) + seq!['\n']);
        },
        _ => {},
    }
}

proof fn lemma_loop_lines(s: StmtV, k: nat)
    requires
        stmt_plain(s),
        s is Loop,
        match s {
            StmtV::Loop(body) => lines_at(stmt_code(*body, k + 2), k + 2),
            _ => true,
        },
    ensures
        lines_at(stmt_code(s, k), k),
{
    lemma_words();
    lemma_statement_words();
    match s {
        StmtV::Loop(body) => {
            lemma_tabs_start(k, "task.spawn(function()"@);
            lemma_no_break(tabs(k), k);
            lemma_inline_join(tabs(k), "task.spawn(function()"@, k);
            let inner = tabs(k + 1) + "while true do"@ + seq!['\n'] + stmt_code(*body, k + 2) + (tabs(
                k + 1,
            ) + "end"@ + seq!['\n']);
            lemma_framed("while true do"@, stmt_code(*body, k + 2), "end"@, k + 1, 1);
            lemma_lines_deeper(inner, k + 1, k);
            lemma_framed(tabs(k) + "task.spawn(function()"@, inner, "end)"@, k, 0);
            assert(stmt_code(s, k) =~= tabs(k) + (tabs(k) + "task.spawn(function()"@) + seq!['\n']
                + inner + (tabs(k) + "end)"@ + seq!['\n']));
        },
        _ => {},
    }
}

proof fn lemma_while_lines(s: StmtV, k: nat)
    requires
        stmt_plain(s),
        s is While,
        match s {
            StmtV::While { body, .. } => lines_at(stmt_code(*body, k + 1), k + 1),
            _ => true,
        },
    ensures
        lines_at(stmt_code(s, k), k),
{
    lemma_words();
    lemma_statement_words();
    match s {
        StmtV::While { condition, body } => {
            lemma_expr_inline(condition, k);
            lemma_join3("while "@, expr_code(condition, k), " do"@, k);
            let head = "while "@ + expr_code(condition, k) + " do"@;
            lemma_framed(head, stmt_code(*body, k + 1), "end"@, k, 1);
            assert(stmt_code(s, k) =~= tabs(k) + head + seq!['\n'] + stmt_code(*body, k + 1) + (tabs(
                k,
            ) + "end"@ + seq!['\n']));
        },
        _ => {},
    }
}

proof fn lemma_range_head(
    name: Token,
    left: ExprV,
    minus: Seq<char>,
    right: ExprV,
    step: Option<ExprV>,
    k: nat,
)
    requires
        no_break(name.lexeme@),
        no_break(minus),
        expr_plain(left),
        expr_plain(right),
        match step {
            Some(st) => expr_plain(st),
            None => true,
        },
    ensures
        inline_text(
            "for "@ + name.lexeme@ + " = "@ + expr_code(left, k) + ", "@ + expr_code(right, k) + minus
                + (match step {
                Some(st) => ", "@ + expr_code(st, k),
                None => Seq::empty(),
            }),
            k,
        ),
{
    lemma_statement_words();
    lemma_expr_inline(left, k);
    lemma_expr_inline(right, k);
    let st = match step {
        Some(e) => ", "@ + expr_code(e, k),
        None => Seq::empty(),
    };
    if let Some(e) = step {
        lemma_expr_inline(e, k);
        lemma_inline_join(", "@, expr_code(e, k), k);
    }
    let a = "for "@ + name.lexeme@ + " = "@;
    lemma_join3("for "@, name.lexeme@, " = "@, k);
    lemma_join3(a, expr_code(left, k), ", "@, k);
    lemma_join3(a + expr_code(left, k) + ", "@, expr_code(right, k), minus, k);
    lemma_inline_join(a + expr_code(left, k) + ", "@ + expr_code(right, k) + minus, st, k);
}

proof fn lemma_names_head(ident: Seq<Token>, iter: ExprV, k: nat)
    requires
        forall|i: int| 0 <= i < ident.len() ==> no_break(#[trigger] ident[i].lexeme@),
        expr_plain(iter),
    ensures
        inline_text("for "@ + names_code(ident) + " in "@ + expr_code(iter, k), k),
{
    lemma_statement_words();
    lemma_expr_inline(iter, k);
    lemma_names(ident, k);
    lemma_join3("for "@, names_code(ident), " in "@, k);
    lemma_inline_join("for "@ + names_code(ident) + " in "@, expr_code(iter, k), k);
}

proof fn lemma_for_head(ident: Seq<Token>, iter: ExprV, step: Option<ExprV>, k: nat)
    requires
        forall|i: int| 0 <= i < ident.len() ==> no_break(#[trigger] ident[i].lexeme@),
        is_range(iter) ==> ident.len() > 0,
        expr_plain(iter),
        match step {
            Some(st) => expr_plain(st),
            None => true,
        },
    ensures
        inline_text(for_head(ident, iter, step, k), k),
{
    lemma_statement_words();
    match iter {
        ExprV::Binary { left, operator, right } => {
            if is_range(iter) {
                assert(no_break(ident[0].lexeme@));
                let minus = if operator.token_type == TokenType::DotDot {
                    " - 1"@
                } else {
                    Seq::empty()
                };
                lemma_range_head(ident[0], *left, minus, *right, step, k);
            } else {
                lemma_names_head(ident, iter, k);
            }
        },
        _ => lemma_names_head(ident, iter, k),
    }
}

proof fn lemma_for_lines(s: StmtV, k: nat)
    requires
        stmt_plain(s),
        s is For,
        match s {
            StmtV::For { body, .. } => lines_at(stmt_code(*body, k + 1), k + 1),
            _ => true,
        },
    ensures
        lines_at(stmt_code(s, k), k),
{
    lemma_statement_words();
    match s {
        StmtV::For { ident, iter, step, body } => {
            lemma_for_head(ident, iter, step, k);
            let header = for_head(ident, iter, step, k);
            lemma_inline_join(header, " do"@, k);
            lemma_framed(header + " do"@, stmt_code(*body, k + 1), "end"@, k, 1);
            assert(stmt_code(s, k) =~= tabs(k) + (header + " do"@) + seq!['\n'] + stmt_code(*body, k + 1)
                + (tabs(k) + "end"@ + seq!['\n']));
        },
        _ => {},
    }
}

/// Lowering a statement with no line break in its texts at level `k` writes
/// whole lines starting with at least `k` tabs, and writes nothing exactly
/// for blocks of (nested) empty blocks.
pub proof fn lemma_stmt_lines(s: StmtV, k: nat)
    requires
        stmt_plain(s),
    ensures
        lines_at(stmt_code(s, k), k),
        stmt_code(s, k).len() == 0 <==> blank(s),
    decreases s, 1nat,
{
    lemma_statement_words();
    match s {
        StmtV::Expression(e) => {
            lemma_expr_inline(e, k);
            lemma_line(k, expr_code(e, k));
        },
        StmtV::Block(ss) => {
            lemma_stmts_lines(ss, k);
        },
        StmtV::Variable { .. } => lemma_variable_lines(s, k),
        StmtV::If { then, else_block, .. } => {
            lemma_stmt_lines(*then, k + 1);
            lemma_else_lines(else_block, k);
            lemma_if_lines(s, k);
        },
        StmtV::Return(_) => lemma_return_lines(s, k),
        StmtV::Loop(body) => {
            lemma_stmt_lines(*body, k + 2);
            lemma_loop_lines(s, k);
        },
        StmtV::While { body, .. } => {
            lemma_stmt_lines(*body, k + 1);
            lemma_while_lines(s, k);
        },
        StmtV::For { body, .. } => {
            lemma_stmt_lines(*body, k + 1);
            lemma_for_lines(s, k);
        },
        StmtV::Continue => {
            lemma_line(k, "continue"@);
        },
        StmtV::Break => {
            lemma_line(k, "break"@);
        },
    }
}

proof fn lemma_stmts_lines(ss: Seq<StmtV>, k: nat)
    requires
        stmts_plain(ss),
    ensures
        lines_at(stmts_code(ss, k), k),
        stmts_code(ss, k).len() == 0 <==> all_blank(ss),
    decreases ss, 1nat,
{
    if ss.len() > 0 {
        lemma_stmts_lines(ss.drop_last(), k);
        lemma_stmt_lines(ss.last(), k);
        lemma_lines_join(stmts_code(ss.drop_last(), k), stmt_code(ss.last(), k), k);
    }
}

proof fn lemma_else_lines(e: Option<Box<StmtV>>, k: nat)
    requires
        match e {
            Some(st) => stmt_plain(*st),
            None => true,
        },
    ensures
        lines_at(else_code(e, k), k),
    decreases e, 0nat,
{
    lemma_words();
    lemma_statement_words();
    match e {
        None => {},
        Some(st) => match *st {
            StmtV::If { predicate, then, else_block } => {
                lemma_expr_inline(predicate, k);
                lemma_join3("elseif "@, expr_code(predicate, k), " then"@, k);
                lemma_stmt_lines(*then, k + 1);
                lemma_else_lines(else_block, k);
                let head = "elseif "@ + expr_code(predicate, k) + " then"@;
                lemma_line(k, head);
                lemma_lines_deeper(stmt_code(*then, k + 1), k + 1, k);
                lemma_lines_join(tabs(k) + head + seq!['\n'], stmt_code(*then, k + 1), k);
                lemma_lines_join(
                    tabs(k) + head + seq!['\n'] + stmt_code(*then, k + 1),
                    else_code(else_block, k),
                    k,
                );
                assert(else_code(e, k) =~= tabs(k) + head + seq!['\n'] + stmt_code(*then, k + 1)
                    + else_code(else_block, k));
            },
            _ => {
                lemma_stmt_lines(*st, k + 1);
                lemma_line(k, "else"@);
                lemma_lines_deeper(stmt_code(*st, k + 1), k + 1, k);
                lemma_lines_join(tabs(k) + "else"@ + seq!['\n'], stmt_code(*st, k + 1), k);
            },
        },
    }
}

/// Lowering a statement at level `k` writes whole lines, each starting with
/// at least `k` tabs and the last ending with a line break; it writes nothing
/// exactly for a block of (nested) empty blocks. This holds where no name,
/// operator or literal text of the statement holds a line break and each
/// range loop names a variable; the level afterwards is `k` again (see
/// `Codegen::emit_program`).
pub proof fn law_statement_layout(s: StmtV, k: nat)
    requires
        stmt_plain(s),
    ensures
        lines_at(stmt_code(s, k), k),
        stmt_code(s, k).len() == 0 <==> blank(s),
        stmt_code(s, k).len() > 0 ==> stmt_code(s, k).last() == '\n',
{
    lemma_stmt_lines(s, k);
}

/// The same for a program: its statements one after the other.
pub proof fn law_program_layout(ss: Seq<StmtV>, k: nat)
    requires
        stmts_plain(ss),
    ensures
        lines_at(stmts_code(ss, k), k),
        stmts_code(ss, k).len() == 0 <==> all_blank(ss),
{
    lemma_stmts_lines(ss, k);
}

} // verus!
