//! Expression trees.
use vstd::prelude::*;

use crate::lexer::{literal_text, LiteralValue, Token};
use crate::text::push_char;

verus! {

/// An expression. `Binary` also stands for ranges (`..`, `..=`) in `for` loops.
#[derive(Debug)]
pub enum Expr {
    Literal(LiteralValue),
    Binary { left: Box<Expr>, operator: Token, right: Box<Expr> },
    Unary { operator: Token, right: Box<Expr> },
    Grouping(Box<Expr>),
    Variable(Token),
    Assign { name: Token, value: Box<Expr> },
    IfExpr { predicate: Box<Expr>, then_expr: Box<Expr>, else_expr: Box<Expr> },
    Table { fields: Vec<TableField>, multiline: bool },
}

/// One field of a table constructor.
#[derive(Debug)]
pub struct TableField {
    pub key: TableKey,
    pub value: Expr,
}

/// How a table field is keyed: by a name (`x = v`), by a computed key
/// (`[k] = v`), or by position.
#[derive(Debug)]
pub enum TableKey {
    Ident(Token),
    Computed(Expr),
    Positional,
}

/// An expression as a mathematical tree: tables hold their fields as a sequence.
pub enum ExprV {
    Literal(LiteralValue),
    Binary { left: Box<ExprV>, operator: Token, right: Box<ExprV> },
    Unary { operator: Token, right: Box<ExprV> },
    Grouping(Box<ExprV>),
    Variable(Token),
    Assign { name: Token, value: Box<ExprV> },
    IfExpr { predicate: Box<ExprV>, then_expr: Box<ExprV>, else_expr: Box<ExprV> },
    Table { fields: Seq<FieldV>, multiline: bool },
}

/// A table field as a mathematical value.
pub struct FieldV {
    pub key: KeyV,
    pub value: ExprV,
}

/// A table key as a mathematical value.
pub enum KeyV {
    Ident(Token),
    Computed(ExprV),
    Positional,
}

pub open spec fn expr_view(e: Expr) -> ExprV
    decreases e,
{
    match e {
        Expr::Literal(v) => ExprV::Literal(v),
        Expr::Binary { left, operator, right } => ExprV::Binary {
            left: Box::new(expr_view(*left)),
            operator,
            right: Box::new(expr_view(*right)),
        },
        Expr::Unary { operator, right } => ExprV::Unary {
            operator,
            right: Box::new(expr_view(*right)),
        },
        Expr::Grouping(inner) => ExprV::Grouping(Box::new(expr_view(*inner))),
        Expr::Variable(name) => ExprV::Variable(name),
        Expr::Assign { name, value } => ExprV::Assign { name, value: Box::new(expr_view(*value)) },
        Expr::IfExpr { predicate, then_expr, else_expr } => ExprV::IfExpr {
            predicate: Box::new(expr_view(*predicate)),
            then_expr: Box::new(expr_view(*then_expr)),
            else_expr: Box::new(expr_view(*else_expr)),
        },
        Expr::Table { fields, multiline } => ExprV::Table { fields: fields_view(fields@), multiline },
    }
}

pub open spec fn key_view(k: TableKey) -> KeyV
    decreases k,
{
    match k {
        TableKey::Ident(t) => KeyV::Ident(t),
        TableKey::Computed(e) => KeyV::Computed(expr_view(e)),
        TableKey::Positional => KeyV::Positional,
    }
}

pub open spec fn field_view(f: TableField) -> FieldV
    decreases f,
{
    FieldV { key: key_view(f.key), value: expr_view(f.value) }
}

pub open spec fn fields_view(fs: Seq<TableField>) -> Seq<FieldV>
    decreases fs,
{
    if fs.len() == 0 {
        Seq::empty()
    } else {
        fields_view(fs.drop_last()).push(field_view(fs.last()))
    }
}

impl View for Expr {
    type V = ExprV;

    open spec fn view(&self) -> ExprV {
        expr_view(*self)
    }
}

impl View for TableField {
    type V = FieldV;

    open spec fn view(&self) -> FieldV {
        field_view(*self)
    }
}

/// Taking one more field adds its view at the end.
pub proof fn lemma_fields_view_step(fs: Seq<TableField>, i: int)
    requires
        0 <= i < fs.len(),
    ensures
        fields_view(fs.take(i + 1)) == fields_view(fs.take(i)).push(field_view(fs[i])),
        fields_view(fs).len() == fs.len(),
        fields_view(fs)[i] == field_view(fs[i]),
{
    assert(fs.take(i + 1).drop_last() =~= fs.take(i));
    lemma_fields_view_index(fs, i);
}

pub proof fn lemma_fields_view_index(fs: Seq<TableField>, i: int)
    requires
        0 <= i < fs.len(),
    ensures
        fields_view(fs).len() == fs.len(),
        fields_view(fs)[i] == field_view(fs[i]),
    decreases fs.len(),
{
    lemma_fields_view_len(fs);
    if i < fs.len() - 1 {
        lemma_fields_view_index(fs.drop_last(), i);
    }
}

pub proof fn lemma_fields_view_len(fs: Seq<TableField>)
    ensures
        fields_view(fs).len() == fs.len(),
    decreases fs.len(),
{
    if fs.len() > 0 {
        lemma_fields_view_len(fs.drop_last());
    }
}

/// The prefix form of an expression: `(op left right)`, `(op right)`,
/// `(group e)`, `(var name)`, `(= name value)`, `(if-expr p t e)`, and
/// `(table fields...)`; a literal is its value.
pub open spec fn expr_text(e: ExprV) -> Seq<char>
    decreases e,
{
    match e {
        ExprV::Literal(v) => literal_text(v),
        ExprV::Binary { left, operator, right } => seq!['('] + operator.lexeme@ + seq![' ']
            + expr_text(*left) + seq![' '] + expr_text(*right) + seq![')'],
        ExprV::Unary { operator, right } => seq!['('] + operator.lexeme@ + seq![' '] + expr_text(
            *right,
        ) + seq![')'],
        ExprV::Grouping(inner) => "(group "@ + expr_text(*inner) + seq![')'],
        ExprV::Variable(name) => "(var "@ + name.lexeme@ + seq![')'],
        ExprV::Assign { name, value } => "(= "@ + name.lexeme@ + seq![' '] + expr_text(*value)
            + seq![')'],
        ExprV::IfExpr { predicate, then_expr, else_expr } => "(if-expr "@ + expr_text(*predicate)
            + seq![' '] + expr_text(*then_expr) + seq![' '] + expr_text(*else_expr) + seq![')'],
        ExprV::Table { fields, .. } => "(table"@ + fields_text(fields) + seq![')'],
    }
}

/// Table fields in prefix form, each after a space: `(= name value)`,
/// `(= [key] value)`, or the value alone.
pub open spec fn fields_text(fs: Seq<FieldV>) -> Seq<char>
    decreases fs,
{
    if fs.len() == 0 {
        Seq::empty()
    } else {
        fields_text(fs.drop_last()) + seq![' '] + field_text(fs.last())
    }
}

pub open spec fn field_text(f: FieldV) -> Seq<char>
    decreases f,
{
    match f.key {
        KeyV::Ident(t) => "(= "@ + t.lexeme@ + seq![' '] + expr_text(f.value) + seq![')'],
        KeyV::Computed(k) => "(= ["@ + expr_text(k) + "] "@ + expr_text(f.value) + seq![')'],
        KeyV::Positional => expr_text(f.value),
    }
}

/// How each expression is printed in prefix form, in terms of its parts: a
/// binary operation as `(op left right)`, a unary one as `(op right)`, a
/// group as `(group e)`, a name as `(var name)`, an assignment as
/// `(= name value)`, an `if` expression as `(if-expr condition then else)`,
/// with its branch for a true condition first.
pub proof fn law_prefix_forms(e: ExprV)
    ensures
        match e {
            ExprV::Binary { left, operator, right } => expr_text(e) == seq!['('] + operator.lexeme@
                + seq![' '] + expr_text(*left) + seq![' '] + expr_text(*right) + seq![')'],
            ExprV::Unary { operator, right } => expr_text(e) == seq!['('] + operator.lexeme@ + seq![
                ' ',
            ] + expr_text(*right) + seq![')'],
            ExprV::Grouping(inner) => expr_text(e) == seq!['(', 'g', 'r', 'o', 'u', 'p', ' ']
                + expr_text(*inner) + seq![')'],
            ExprV::Variable(name) => expr_text(e) == seq!['(', 'v', 'a', 'r', ' '] + name.lexeme@
                + seq![')'],
            ExprV::Assign { name, value } => expr_text(e) == seq!['(', '=', ' '] + name.lexeme@
                + seq![' '] + expr_text(*value) + seq![')'],
            ExprV::IfExpr { predicate, then_expr, else_expr } => expr_text(e) == seq![
                '(',
                'i',
                'f',
                '-',
                'e',
                'x',
                'p',
                'r',
                ' ',
            ] + expr_text(*predicate) + seq![' '] + expr_text(*then_expr) + seq![' '] + expr_text(
                *else_expr,
            ) + seq![')'],
            _ => true,
        },
{
    reveal_strlit("(group ");
    reveal_strlit("(var ");
    reveal_strlit("(= ");
    reveal_strlit("(if-expr ");
    assert("(group "@ =~= seq!['(', 'g', 'r', 'o', 'u', 'p', ' ']);
    assert("(var "@ =~= seq!['(', 'v', 'a', 'r', ' ']);
    assert("(= "@ =~= seq!['(', '=', ' ']);
    assert("(if-expr "@ =~= seq!['(', 'i', 'f', '-', 'e', 'x', 'p', 'r', ' ']);
}

/// An `if` expression prints its condition, then the value for a true
/// condition, then the other value, each after the one before.
pub proof fn law_if_expr_order(predicate: ExprV, then_expr: ExprV, else_expr: ExprV)
    ensures
        ({
            let t = expr_text(
                ExprV::IfExpr {
                    predicate: Box::new(predicate),
                    then_expr: Box::new(then_expr),
                    else_expr: Box::new(else_expr),
                },
            );
            let a: int = 10 + expr_text(predicate).len() as int;
            let b: int = a + expr_text(then_expr).len() as int + 1;
            &&& t.subrange(9, 9 + expr_text(predicate).len() as int) == expr_text(predicate)
            &&& t.subrange(a, a + expr_text(then_expr).len() as int) == expr_text(then_expr)
            &&& t.subrange(b, b + expr_text(else_expr).len() as int) == expr_text(else_expr)
            &&& t.len() == b + expr_text(else_expr).len() + 1
        }),
{
    let e = ExprV::IfExpr {
        predicate: Box::new(predicate),
        then_expr: Box::new(then_expr),
        else_expr: Box::new(else_expr),
    };
    law_prefix_forms(e);
    let t = expr_text(e);
    let a: int = 10 + expr_text(predicate).len() as int;
    let b: int = a + expr_text(then_expr).len() as int + 1;
    assert(t.subrange(9, 9 + expr_text(predicate).len() as int) =~= expr_text(predicate));
    assert(t.subrange(a, a + expr_text(then_expr).len() as int) =~= expr_text(then_expr));
    assert(t.subrange(b, b + expr_text(else_expr).len() as int) =~= expr_text(else_expr));
}

impl Expr {
    /// The prefix form of the expression (see [`expr_text`]).
    pub fn to_string(&self) -> (r: String)
        ensures
            r@ == expr_text(self@),
    {
        let mut out = String::new();
        self.write_text(&mut out);
        assert(out@ =~= expr_text(self@));
        out
    }

    /// Appends the prefix form of the expression to `out`.
    fn write_text(&self, out: &mut String)
        ensures
            final(out)@ == old(out)@ + expr_text(self@),
        decreases self, 1nat,
    {
        let ghost start = out@;
        proof {
            reveal_strlit("(group ");
            reveal_strlit("(var ");
            reveal_strlit("(= ");
            reveal_strlit("(if-expr ");
            reveal_strlit("(table");
        }
        match self {
            Expr::Literal(v) => {
                let s = v.to_string();
                out.append(s.as_str());
            },
            Expr::Binary { left, operator, right } => {
                push_char(out, '(');
                out.append(operator.lexeme.as_str());
                push_char(out, ' ');
                left.write_text(out);
                push_char(out, ' ');
                right.write_text(out);
                push_char(out, ')');
            },
            Expr::Unary { operator, right } => {
                push_char(out, '(');
                out.append(operator.lexeme.as_str());
                push_char(out, ' ');
                right.write_text(out);
                push_char(out, ')');
            },
            Expr::Grouping(inner) => {
                out.append("(group ");
                inner.write_text(out);
                push_char(out, ')');
            },
            Expr::Variable(name) => {
                out.append("(var ");
                out.append(name.lexeme.as_str());
                push_char(out, ')');
            },
            Expr::Assign { name, value } => {
                out.append("(= ");
                out.append(name.lexeme.as_str());
                push_char(out, ' ');
                value.write_text(out);
                push_char(out, ')');
            },
            Expr::IfExpr { predicate, then_expr, else_expr } => {
                out.append("(if-expr ");
                predicate.write_text(out);
                push_char(out, ' ');
                then_expr.write_text(out);
                push_char(out, ' ');
                else_expr.write_text(out);
                push_char(out, ')');
            },
            Expr::Table { fields, .. } => {
                out.append("(table");
                let ghost open = out@;
                let mut i: usize = 0;
                #[verifier::loop_isolation(false)]
                while i < fields.len()
                    invariant
                        i <= fields@.len(),
                        out@ == open + fields_text(fields_view(fields@.take(i as int))),
                    decreases fields.len() - i,
                {
                    proof {
                        lemma_fields_view_step(fields@, i as int);
                    }
                    push_char(out, ' ');
                    fields[i].write_text(out);
                    proof {
                        let x = fields_view(fields@.take(i as int));
                        assert(x.push(field_view(fields@[i as int])).drop_last() =~= x);
                    }
                    i = i + 1;
                    assert(out@ =~= open + fields_text(fields_view(fields@.take(i as int))));
                }
                assert(fields@.take(i as int) =~= fields@);
                push_char(out, ')');
            },
        }
        assert(out@ =~= start + expr_text(self@));
    }
}

impl TableField {
    /// Appends the prefix form of the field to `out`.
    fn write_text(&self, out: &mut String)
        ensures
            final(out)@ == old(out)@ + field_text(self@),
        decreases self, 0nat,
    {
        let ghost start = out@;
        proof {
            reveal_strlit("(= ");
            reveal_strlit("(= [");
            reveal_strlit("] ");
        }
        match &self.key {
            TableKey::Ident(name) => {
                out.append("(= ");
                out.append(name.lexeme.as_str());
                push_char(out, ' ');
                self.value.write_text(out);
                push_char(out, ')');
            },
            TableKey::Computed(key) => {
                out.append("(= [");
                key.write_text(out);
                out.append("] ");
                self.value.write_text(out);
                push_char(out, ')');
            },
            TableKey::Positional => {
                self.value.write_text(out);
            },
        }
        assert(out@ =~= start + field_text(self@));
    }
}

} // verus!
