//! Lowering of statements to Luau source text.
pub mod emitter;
pub mod forms;
pub mod layout;
pub mod statements;

use vstd::prelude::*;

use crate::lexer::expr::{
    field_view, fields_view, key_view, lemma_fields_view_len, lemma_fields_view_step,
    Expr, ExprV, FieldV, KeyV, TableField, TableKey,
};
use crate::lexer::{LiteralValue, Token, TokenType};
use crate::text::{chars_of, is_alphabetic, unicode_alphabetic};
use self::emitter::{tabs, Emitter};
use self::statements::{
    else_view, lemma_stmts_view_len, lemma_stmts_view_step, opt_expr_view, stmt_view, stmts_view,
    Statement, StmtV, VarKind,
};

verus! {

/// The Luau spelling of an operator token: `!=` is `~=`, `!` is `not`, `&&`
/// is `and`, `||` is `or`; any other operator keeps its own text.
pub open spec fn op_text(t: Token) -> Seq<char> {
    match t.token_type {
        TokenType::BangEqual => "~="@,
        TokenType::Bang => "not"@,
        TokenType::And => "and"@,
        TokenType::Or => "or"@,
        _ => t.lexeme@,
    }
}

/// The code for a literal value: a number as its text, a string between
/// double quotes, `true`, `false`, `nil`. Decorators have none.
pub open spec fn literal_code(v: LiteralValue) -> Seq<char> {
    match v {
        LiteralValue::NumberValue(n) => n@,
        LiteralValue::StringValue(s) => "\""@ + s@ + "\""@,
        LiteralValue::DecoratorValue(_) => Seq::empty(),
        LiteralValue::True => "true"@,
        LiteralValue::False => "false"@,
        LiteralValue::Nil => "nil"@,
    }
}

/// Whether the last character of `s` is alphabetic.
pub open spec fn ends_alphabetic(s: Seq<char>) -> bool {
    s.len() > 0 && unicode_alphabetic(s.last())
}

/// The code for an expression written at indentation level `k` (the level
/// matters only to tables laid out over several lines).
pub open spec fn expr_code(e: ExprV, k: nat) -> Seq<char>
    decreases e,
{
    match e {
        ExprV::Literal(v) => literal_code(v),
        ExprV::Grouping(inner) => "("@ + expr_code(*inner, k) + ")"@,
        ExprV::Table { fields, multiline } => if fields.len() == 0 {
            "{}"@
        } else if multiline {
            "{"@ + seq!['\n'] + fields_lines(fields, k + 1) + tabs(k) + "}"@
        } else {
            "{"@ + fields_inline(fields, k) + "}"@
        },
        ExprV::Binary { left, operator, right } => expr_code(*left, k) + seq![' '] + op_text(operator)
            + seq![' '] + expr_code(*right, k),
        ExprV::Unary { operator, right } => op_text(operator) + (if ends_alphabetic(op_text(operator)) {
            seq![' ']
        } else {
            Seq::empty()
        }) + expr_code(*right, k),
        ExprV::Variable(name) => name.lexeme@,
        ExprV::Assign { name, value } => name.lexeme@ + " = "@ + expr_code(*value, k),
        ExprV::IfExpr { predicate, then_expr, else_expr } => "if "@ + expr_code(*predicate, k)
            + " then "@ + expr_code(*then_expr, k) + " else "@ + expr_code(*else_expr, k),
    }
}

/// The code for a table key, followed by ` = ` where there is a key.
pub open spec fn key_code(key: KeyV, k: nat) -> Seq<char>
    decreases key,
{
    match key {
        KeyV::Ident(t) => t.lexeme@ + " = "@,
        KeyV::Computed(e) => "["@ + expr_code(e, k) + "] = "@,
        KeyV::Positional => Seq::empty(),
    }
}

/// The code for one table field.
pub open spec fn field_code(f: FieldV, k: nat) -> Seq<char>
    decreases f,
{
    key_code(f.key, k) + expr_code(f.value, k)
}

/// Table fields one per line at level `k`, each followed by a comma.
pub open spec fn fields_lines(fs: Seq<FieldV>, k: nat) -> Seq<char>
    decreases fs,
{
    if fs.len() == 0 {
        Seq::empty()
    } else {
        fields_lines(fs.drop_last(), k) + tabs(k) + field_code(fs.last(), k) + ","@ + seq!['\n']
    }
}

/// Table fields on one line, separated by `, `.
pub open spec fn fields_inline(fs: Seq<FieldV>, k: nat) -> Seq<char>
    decreases fs,
{
    if fs.len() == 0 {
        Seq::empty()
    } else if fs.len() == 1 {
        field_code(fs[0], k)
    } else {
        fields_inline(fs.drop_last(), k) + ", "@ + field_code(fs.last(), k)
    }
}

/// Whether `e` is a range `a..b` or `a..=b`.
pub open spec fn is_range(e: ExprV) -> bool {
    match e {
        ExprV::Binary { operator, .. } => operator.token_type == TokenType::DotDot
            || operator.token_type == TokenType::DotDotEqual,
        _ => false,
    }
}

/// Loop variables separated by `, `.
pub open spec fn names_code(ids: Seq<Token>) -> Seq<char>
    decreases ids.len(),
{
    if ids.len() == 0 {
        Seq::empty()
    } else if ids.len() == 1 {
        ids[0].lexeme@
    } else {
        names_code(ids.drop_last()) + ", "@ + ids.last().lexeme@
    }
}

/// The code for a statement written at indentation level `k`.
pub open spec fn stmt_code(s: StmtV, k: nat) -> Seq<char>
    decreases s,
{
    match s {
        StmtV::Expression(e) => tabs(k) + expr_code(e, k) + seq!['\n'],
        StmtV::Block(ss) => stmts_code(ss, k),
        StmtV::Variable { name, init, kind } => tabs(k) + (match kind {
            VarKind::Let => "local "@,
            VarKind::Const => "const "@,
        }) + name.lexeme@ + (match init {
            Some(e) => " = "@ + expr_code(e, k),
            None => Seq::empty(),
        }) + seq!['\n'],
        StmtV::If { predicate, then, else_block } => tabs(k) + "if "@ + expr_code(predicate, k)
            + " then"@ + seq!['\n'] + stmt_code(*then, k + 1) + else_code(else_block, k) + tabs(k)
            + "end"@ + seq!['\n'],
        StmtV::Return(value) => tabs(k) + "return"@ + (match value {
            Some(e) => seq![' '] + expr_code(e, k),
            None => Seq::empty(),
        }) + seq!['\n'],
        StmtV::Loop(body) => tabs(k) + tabs(k) + "task.spawn(function()"@ + seq!['\n'] + tabs(
            k + 1,
        ) + "while true do"@ + seq!['\n'] + stmt_code(*body, k + 2) + tabs(k + 1) + "end"@ + seq![
            '\n',
        ] + tabs(k) + "end)"@ + seq!['\n'],
        StmtV::While { condition, body } => tabs(k) + "while "@ + expr_code(condition, k)
            + " do"@ + seq!['\n'] + stmt_code(*body, k + 1) + tabs(k) + "end"@ + seq!['\n'],
        StmtV::For { ident, iter, step, body } => tabs(k) + (match iter {
            ExprV::Binary { left, operator, right } => if is_range(iter) {
                "for "@ + ident[0].lexeme@ + " = "@ + expr_code(*left, k) + ", "@ + expr_code(
                    *right,
                    k,
                ) + (if operator.token_type == TokenType::DotDot {
                    " - 1"@
                } else {
                    Seq::empty()
                }) + (match step {
                    Some(st) => ", "@ + expr_code(st, k),
                    None => Seq::empty(),
                })
            } else {
                "for "@ + names_code(ident) + " in "@ + expr_code(iter, k)
            },
            _ => "for "@ + names_code(ident) + " in "@ + expr_code(iter, k),
        }) + " do"@ + seq!['\n'] + stmt_code(*body, k + 1) + tabs(k) + "end"@ + seq!['\n'],
        StmtV::Continue => tabs(k) + "continue"@ + seq!['\n'],
        StmtV::Break => tabs(k) + "break"@ + seq!['\n'],
    }
}

/// The first line of a `for` loop, without its indentation and ` do`.
pub open spec fn for_head(ident: Seq<Token>, iter: ExprV, step: Option<ExprV>, k: nat) -> Seq<char> {
    match iter {
        ExprV::Binary { left, operator, right } => if is_range(iter) {
            "for "@ + ident[0].lexeme@ + " = "@ + expr_code(*left, k) + ", "@ + expr_code(*right, k)
                + (if operator.token_type == TokenType::DotDot {
                " - 1"@
            } else {
                Seq::empty()
            }) + (match step {
                Some(st) => ", "@ + expr_code(st, k),
                None => Seq::empty(),
            })
        } else {
            "for "@ + names_code(ident) + " in "@ + expr_code(iter, k)
        },
        _ => "for "@ + names_code(ident) + " in "@ + expr_code(iter, k),
    }
}

/// Whether the first line of a `for` loop can be lowered at level `k`: a
/// range names a variable, and its expressions can be lowered.
pub open spec fn for_head_emittable(ident: Seq<Token>, iter: ExprV, step: Option<ExprV>, k: nat) -> bool {
    match iter {
        ExprV::Binary { left, right, .. } => if is_range(iter) {
            ident.len() > 0 && expr_emittable(*left, k) && expr_emittable(*right, k) && match step {
                Some(st) => expr_emittable(st, k),
                None => true,
            }
        } else {
            expr_emittable(iter, k)
        },
        _ => expr_emittable(iter, k),
    }
}

/// The code for the statements of a block, one after the other.
pub open spec fn stmts_code(ss: Seq<StmtV>, k: nat) -> Seq<char>
    decreases ss,
{
    if ss.len() == 0 {
        Seq::empty()
    } else {
        stmts_code(ss.drop_last(), k) + stmt_code(ss.last(), k)
    }
}

/// The code for what follows the `then` branch of an `if` at level `k`: an
/// `elseif` branch for an `else if`, an `else` branch otherwise.
pub open spec fn else_code(e: Option<Box<StmtV>>, k: nat) -> Seq<char>
    decreases e,
{
    match e {
        None => Seq::empty(),
        Some(st) => match *st {
            StmtV::If { predicate, then, else_block } => tabs(k) + "elseif "@ + expr_code(
                predicate,
                k,
            ) + " then"@ + seq!['\n'] + stmt_code(*then, k + 1) + else_code(else_block, k),
            _ => tabs(k) + "else"@ + seq!['\n'] + stmt_code(*st, k + 1),
        },
    }
}

/// Whether an expression can be lowered at level `k`: it holds no decorator
/// literal, and its tables laid out over several lines stay within the
/// indentation levels an `usize` can count.
pub open spec fn expr_emittable(e: ExprV, k: nat) -> bool
    decreases e,
{
    match e {
        ExprV::Literal(v) => !(v is DecoratorValue),
        ExprV::Grouping(inner) => expr_emittable(*inner, k),
        ExprV::Table { fields, multiline } => if fields.len() == 0 {
            true
        } else if multiline {
            k < usize::MAX && fields_emittable(fields, k + 1)
        } else {
            fields_emittable(fields, k)
        },
        ExprV::Binary { left, right, .. } => expr_emittable(*left, k) && expr_emittable(*right, k),
        ExprV::Unary { right, .. } => expr_emittable(*right, k),
        ExprV::Variable(_) => true,
        ExprV::Assign { value, .. } => expr_emittable(*value, k),
        ExprV::IfExpr { predicate, then_expr, else_expr } => expr_emittable(*predicate, k)
            && expr_emittable(*then_expr, k) && expr_emittable(*else_expr, k),
    }
}

pub open spec fn key_emittable(key: KeyV, k: nat) -> bool
    decreases key,
{
    match key {
        KeyV::Computed(e) => expr_emittable(e, k),
        _ => true,
    }
}

pub open spec fn field_emittable(f: FieldV, k: nat) -> bool
    decreases f,
{
    key_emittable(f.key, k) && expr_emittable(f.value, k)
}

pub open spec fn fields_emittable(fs: Seq<FieldV>, k: nat) -> bool
    decreases fs,
{
    if fs.len() == 0 {
        true
    } else {
        fields_emittable(fs.drop_last(), k) && field_emittable(fs.last(), k)
    }
}

/// Whether a statement can be lowered at level `k`: its expressions can, a
/// range loop names at least one variable, and its nesting stays within the
/// indentation levels an `usize` can count.
pub open spec fn stmt_emittable(s: StmtV, k: nat) -> bool
    decreases s,
{
    match s {
        StmtV::Expression(e) => expr_emittable(e, k),
        StmtV::Block(ss) => stmts_emittable(ss, k),
        StmtV::Variable { init, .. } => match init {
            Some(e) => expr_emittable(e, k),
            None => true,
        },
        StmtV::If { predicate, then, else_block } => expr_emittable(predicate, k) && k
            < usize::MAX && stmt_emittable(*then, k + 1) && else_emittable(else_block, k),
        StmtV::Return(value) => match value {
            Some(e) => expr_emittable(e, k),
            None => true,
        },
        StmtV::Loop(body) => k + 2 <= usize::MAX && stmt_emittable(*body, k + 2),
        StmtV::While { condition, body } => expr_emittable(condition, k) && k < usize::MAX
            && stmt_emittable(*body, k + 1),
        StmtV::For { ident, iter, step, body } => k < usize::MAX && stmt_emittable(*body, k + 1)
            && match iter {
            ExprV::Binary { left, right, .. } => if is_range(iter) {
                ident.len() > 0 && expr_emittable(*left, k) && expr_emittable(*right, k)
                    && match step {
                    Some(st) => expr_emittable(st, k),
                    None => true,
                }
            } else {
                expr_emittable(iter, k)
            },
            _ => expr_emittable(iter, k),
        },
        StmtV::Continue => true,
        StmtV::Break => true,
    }
}

pub open spec fn stmts_emittable(ss: Seq<StmtV>, k: nat) -> bool
    decreases ss,
{
    if ss.len() == 0 {
        true
    } else {
        stmts_emittable(ss.drop_last(), k) && stmt_emittable(ss.last(), k)
    }
}

pub open spec fn else_emittable(e: Option<Box<StmtV>>, k: nat) -> bool
    decreases e,
{
    match e {
        None => true,
        Some(st) => match *st {
            StmtV::If { predicate, then, else_block } => expr_emittable(predicate, k) && k
                < usize::MAX && stmt_emittable(*then, k + 1) && else_emittable(else_block, k),
            _ => k < usize::MAX && stmt_emittable(*st, k + 1),
        },
    }
}

/// Lowering a program piece by piece gives the code of lowering it at once,
/// and the whole can be lowered exactly when each piece can.
pub proof fn law_emit_concat(a: Seq<StmtV>, b: Seq<StmtV>, k: nat)
    ensures
        stmts_code(a + b, k) == stmts_code(a, k) + stmts_code(b, k),
        stmts_emittable(a + b, k) == (stmts_emittable(a, k) && stmts_emittable(b, k)),
    decreases b.len(),
{
    if b.len() == 0 {
        assert(a + b =~= a);
        assert(stmts_code(a, k) + stmts_code(b, k) =~= stmts_code(a, k));
    } else {
        law_emit_concat(a, b.drop_last(), k);
        assert((a + b).drop_last() =~= a + b.drop_last());
        assert((a + b).last() == b.last());
        assert(stmts_code(a + b, k) =~= stmts_code(a, k) + stmts_code(b, k));
    }
}

/// The Luau text of a binary operator: `!=` is `~=`, `&&` is `and`, `||` is
/// `or`; every other operator (`== < <= > >= + - * / ..`) keeps the text it
/// was written with.
pub open spec fn luau_binary_operator(t: Token) -> Seq<char> {
    if t.token_type == TokenType::BangEqual {
        seq!['~', '=']
    } else if t.token_type == TokenType::And {
        seq!['a', 'n', 'd']
    } else if t.token_type == TokenType::Or {
        seq!['o', 'r']
    } else {
        t.lexeme@
    }
}

/// A binary expression is lowered to its left operand, the operator's Luau
/// text between two spaces, and its right operand.
pub proof fn law_binary_code(left: ExprV, operator: Token, right: ExprV, k: nat)
    requires
        operator.token_type != TokenType::Bang,
    ensures
        expr_code(ExprV::Binary { left: Box::new(left), operator, right: Box::new(right) }, k)
            == expr_code(left, k) + seq![' '] + luau_binary_operator(operator) + seq![' '] + expr_code(
            right,
            k,
        ),
{
    reveal_strlit("~=");
    reveal_strlit("and");
    reveal_strlit("or");
    assert("~="@ =~= seq!['~', '=']);
    assert("and"@ =~= seq!['a', 'n', 'd']);
    assert("or"@ =~= seq!['o', 'r']);
}

/// Lowers statements to Luau through an [`Emitter`].
pub struct Codegen {
    emitter: Emitter,
}

impl Codegen {
    /// The text generated so far.
    pub closed spec fn text(&self) -> Seq<char> {
        self.emitter.text()
    }

    /// The indentation level new code is written at.
    pub closed spec fn level(&self) -> nat {
        self.emitter.level()
    }

    pub fn new(emitter: Emitter) -> (r: Self)
        ensures
            r.text() == emitter.text(),
            r.level() == emitter.level(),
    {
        Self { emitter }
    }

    /// The text generated.
    pub fn finish(self) -> (r: String)
        ensures
            r@ == self.text(),
    {
        self.emitter.finish()
    }

    /// Appends the code for each statement in turn.
    pub fn emit_program(&mut self, stmts: &[Statement])
        requires
            stmts_emittable(stmts_view(stmts@), old(self).level()),
        ensures
            final(self).text() == old(self).text() + stmts_code(stmts_view(stmts@), old(self).level()),
            final(self).level() == old(self).level(),
    {
        let ghost start = self.text();
        let ghost k = self.level();
        let mut i: usize = 0;
        while i < stmts.len()
            invariant
                i <= stmts@.len(),
                self.level() == k,
                stmts_emittable(stmts_view(stmts@), k),
                self.text() == start + stmts_code(stmts_view(stmts@.take(i as int)), k),
            decreases stmts.len() - i,
        {
            proof {
                lemma_stmts_view_step(stmts@, i as int);
                lemma_stmts_emittable_index(stmts_view(stmts@), k, i as int);
            }
            self.emit_stmt(&stmts[i]);
            proof {
                let x = stmts_view(stmts@.take(i as int));
                assert(x.push(stmt_view(stmts@[i as int])).drop_last() =~= x);
            }
            i = i + 1;
            assert(self.text() =~= start + stmts_code(stmts_view(stmts@.take(i as int)), k));
        }
        assert(stmts@.take(i as int) =~= stmts@);
    }

    /// Appends the code for one statement.
    #[verifier::rlimit(40)]
    fn emit_stmt(&mut self, stmt: &Statement)
        requires
            stmt_emittable(stmt@, old(self).level()),
        ensures
            final(self).text() == old(self).text() + stmt_code(stmt@, old(self).level()),
            final(self).level() == old(self).level(),
        decreases stmt, 1nat,
    {
        let ghost start = self.text();
        let ghost k = self.level();
        proof {
            reveal_strlit("local ");
            reveal_strlit("const ");
            reveal_strlit("=");
            reveal_strlit(" = ");
            reveal_strlit(" ");
            reveal_strlit("in");
            reveal_strlit(" in ");
        }
        match stmt {
            Statement::Expression(expr) => {
                self.emitter.emit_indent();
                self.emit_expr(expr);
                self.emitter.newline();
                assert(self.text() =~= start + stmt_code(stmt@, k));
            },
            Statement::Block(_) => {
                self.emit_block(stmt);
            },
            Statement::Variable { name, init, kind } => {
                self.emitter.emit_indent();
                self.emitter.write(
                    match kind {
                        VarKind::Let => "local ",
                        VarKind::Const => "const ",
                    },
                );
                self.emitter.write(name.lexeme.as_str());
                match init {
                    Some(expr) => {
                        self.emitter.write_spaced("=");
                        self.emit_expr(expr);
                    },
                    None => {},
                }
                self.emitter.newline();
                assert(self.text() =~= start + stmt_code(stmt@, k));
            },
            Statement::If { .. } => {
                self.emit_if(stmt);
            },
            Statement::Return(value) => {
                self.emitter.emit_indent();
                self.emitter.write("return");
                match value {
                    Some(expr) => {
                        self.emitter.write(" ");
                        self.emit_expr(expr);
                    },
                    None => {},
                }
                self.emitter.newline();
                assert(self.text() =~= start + stmt_code(stmt@, k));
            },
            Statement::Loop(body) => {
                self.emitter.emit_indent();
                self.emitter.writeln("task.spawn(function()");
                self.emitter.indent();
                self.emitter.writeln("while true do");
                self.emitter.indent();
                self.emit_stmt(body);
                self.emitter.dedent();
                self.emitter.writeln("end");
                self.emitter.dedent();
                self.emitter.writeln("end)");
                assert(self.text() =~= start + stmt_code(stmt@, k));
            },
            Statement::While { condition, body } => {
                self.emitter.emit_indent();
                self.emitter.write("while ");
                self.emit_expr(condition);
                self.emitter.write(" do");
                self.emitter.newline();
                self.emitter.indent();
                self.emit_stmt(body);
                self.emitter.dedent();
                self.emitter.writeln("end");
                assert(self.text() =~= start + stmt_code(stmt@, k));
            },
            Statement::For { .. } => {
                self.emit_for(stmt);
            },
            Statement::Continue => {
                self.emitter.writeln("continue");
                assert(self.text() =~= start + stmt_code(stmt@, k));
            },
            Statement::Break => {
                self.emitter.writeln("break");
                assert(self.text() =~= start + stmt_code(stmt@, k));
            },
        }
    }

    /// Appends the code for the statements of a block.
    fn emit_block(&mut self, stmt: &Statement)
        requires
            stmt is Block,
            stmt_emittable(stmt@, old(self).level()),
        ensures
            final(self).text() == old(self).text() + stmt_code(stmt@, old(self).level()),
            final(self).level() == old(self).level(),
        decreases stmt, 0nat,
    {
        let ghost start = self.text();
        let ghost k = self.level();
        proof {
            reveal_strlit("=");
            reveal_strlit(" = ");
            reveal_strlit(" ");
            reveal_strlit("in");
            reveal_strlit(" in ");
        }
        match stmt {
            Statement::Block(stmts) => {
                let mut i: usize = 0;
                #[verifier::loop_isolation(false)]
                while i < stmts.len()
                    invariant
                        i <= stmts@.len(),
                        self.level() == k,
                        stmts_emittable(stmts_view(stmts@), k),
                        self.text() == start + stmts_code(stmts_view(stmts@.take(i as int)), k),
                    decreases stmts.len() - i,
                {
                    proof {
                        lemma_stmts_view_step(stmts@, i as int);
                        lemma_stmts_emittable_index(stmts_view(stmts@), k, i as int);
                    }
                    self.emit_stmt(&stmts[i]);
                    proof {
                        let x = stmts_view(stmts@.take(i as int));
                        assert(x.push(stmt_view(stmts@[i as int])).drop_last() =~= x);
                    }
                    i = i + 1;
                    assert(self.text() =~= start + stmts_code(stmts_view(stmts@.take(i as int)), k));
                }
                assert(stmts@.take(i as int) =~= stmts@);
            },
            _ => {},
        }
    }

    /// Appends the code for an `if` statement.
    fn emit_if(&mut self, stmt: &Statement)
        requires
            stmt is If,
            stmt_emittable(stmt@, old(self).level()),
        ensures
            final(self).text() == old(self).text() + stmt_code(stmt@, old(self).level()),
            final(self).level() == old(self).level(),
        decreases stmt, 0nat,
    {
        let ghost start = self.text();
        let ghost k = self.level();
        proof {
            reveal_strlit("=");
            reveal_strlit(" = ");
            reveal_strlit(" ");
            reveal_strlit("in");
            reveal_strlit(" in ");
        }
        match stmt {
            Statement::If { predicate, then, else_block } => {
                self.emitter.emit_indent();
                self.emitter.write("if ");
                self.emit_expr(predicate);
                self.emitter.write(" then");
                self.emitter.newline();
                self.emitter.indent();
                self.emit_stmt(then);
                self.emitter.dedent();
                self.emit_else_chain(else_block);
                self.emitter.writeln("end");
                assert(self.text() =~= start + stmt_code(stmt@, k));
            },
            _ => {},
        }
    }

    /// Appends the code for a `for` loop.
    fn emit_for(&mut self, stmt: &Statement)
        requires
            stmt is For,
            stmt_emittable(stmt@, old(self).level()),
        ensures
            final(self).text() == old(self).text() + stmt_code(stmt@, old(self).level()),
            final(self).level() == old(self).level(),
        decreases stmt, 0nat,
    {
        let ghost start = self.text();
        let ghost k = self.level();
        match stmt {
            Statement::For { ident, iter, step, body } => {
                assert(for_head_emittable(ident@, iter@, opt_expr_view(*step), k));
                self.emitter.emit_indent();
                self.emit_for_head(ident, iter, step);
                self.emitter.write(" do");
                self.emitter.newline();
                self.emitter.indent();
                self.emit_stmt(body);
                self.emitter.dedent();
                self.emitter.writeln("end");
                assert(self.text() =~= start + stmt_code(stmt@, k));
            },
            _ => {},
        }
    }

    /// Appends the first line of a `for` loop, between its indentation and ` do`.
    fn emit_for_head(&mut self, ident: &Vec<Token>, iter: &Expr, step: &Option<Expr>)
        requires
            for_head_emittable(ident@, iter@, opt_expr_view(*step), old(self).level()),
        ensures
            final(self).text() == old(self).text() + for_head(ident@, iter@, opt_expr_view(*step), old(self).level()),
            final(self).level() == old(self).level(),
    {
        let ghost start = self.text();
        let ghost k = self.level();
        proof {
            reveal_strlit("=");
            reveal_strlit(" = ");
            reveal_strlit(" ");
            reveal_strlit("in");
            reveal_strlit(" in ");
        }
        if let Expr::Binary { operator, left, right } = iter {
            let is_range = operator.token_type == TokenType::DotDot || operator.token_type
                == TokenType::DotDotEqual;
            if is_range {
                self.emitter.write("for ");
                self.emitter.write(ident[0].lexeme.as_str());
                self.emitter.write_spaced("=");
                self.emit_expr(left);
                self.emitter.write(", ");
                self.emit_expr(right);
                if operator.token_type == TokenType::DotDot {
                    self.emitter.write(" - 1");
                }
                match step {
                    Some(st) => {
                        self.emitter.write(", ");
                        self.emit_expr(st);
                    },
                    None => {},
                }
                assert(self.text() =~= start + for_head(ident@, iter@, opt_expr_view(*step), k));
                return ;
            }
        }
        self.emitter.write("for ");
        let ghost before_names = self.text();
        let mut i: usize = 0;
        while i < ident.len()
            invariant
                i <= ident@.len(),
                self.level() == k,
                self.text() == before_names + names_code(ident@.take(i as int)),
            decreases ident.len() - i,
        {
            proof {
                reveal_strlit(", ");
                assert(ident@.take(i + 1).drop_last() =~= ident@.take(i as int));
                if i == 0 {
                    assert(ident@.take(1) =~= seq![ident@[0]]);
                }
            }
            if i > 0 {
                self.emitter.write(", ");
            }
            self.emitter.write(ident[i].lexeme.as_str());
            i = i + 1;
            assert(self.text() =~= before_names + names_code(ident@.take(i as int)));
        }
        assert(ident@.take(i as int) =~= ident@);
        self.emitter.write_spaced("in");
        self.emit_expr(iter);
        assert(self.text() =~= start + for_head(ident@, iter@, opt_expr_view(*step), k));
    }

    /// Appends the branches that follow the `then` branch of an `if`.
    fn emit_else_chain(&mut self, else_block: &Option<Box<Statement>>)
        requires
            else_emittable(else_view(*else_block), old(self).level()),
        ensures
            final(self).text() == old(self).text() + else_code(else_view(*else_block), old(self).level()),
            final(self).level() == old(self).level(),
        decreases else_block, 0nat,
    {
        let ghost start = self.text();
        let ghost k = self.level();
        let stmt = match else_block {
            Some(stmt) => stmt,
            None => {
                assert(self.text() =~= start + else_code(else_view(*else_block), k));
                return ;
            },
        };
        match &**stmt {
            Statement::If { predicate, then, else_block: rest } => {
                self.emitter.emit_indent();
                self.emitter.write("elseif ");
                self.emit_expr(predicate);
                self.emitter.write(" then");
                self.emitter.newline();
                self.emitter.indent();
                self.emit_stmt(then);
                self.emitter.dedent();
                self.emit_else_chain(rest);
                assert(self.text() =~= start + else_code(else_view(*else_block), k));
            },
            _ => {
                self.emitter.writeln("else");
                self.emitter.indent();
                self.emit_stmt(stmt);
                self.emitter.dedent();
                assert(self.text() =~= start + else_code(else_view(*else_block), k));
            },
        }
    }

    /// Appends the code for one expression.
    fn emit_expr(&mut self, expr: &Expr)
        requires
            expr_emittable(expr@, old(self).level()),
        ensures
            final(self).text() == old(self).text() + expr_code(expr@, old(self).level()),
            final(self).level() == old(self).level(),
        decreases expr, 1nat,
    {
        let ghost start = self.text();
        let ghost k = self.level();
        proof {
            reveal_strlit("=");
            reveal_strlit(" = ");
            reveal_strlit(" ");
            reveal_strlit("then");
            reveal_strlit(" then ");
            reveal_strlit("else");
            reveal_strlit(" else ");
        }
        match expr {
            Expr::Literal(v) => {
                self.emit_literal(v);
            },
            Expr::Grouping(inner) => {
                self.emitter.write("(");
                self.emit_expr(inner);
                self.emitter.write(")");
                assert(self.text() =~= start + expr_code(expr@, k));
            },
            Expr::Table { .. } => {
                self.emit_table(expr);
            },
            Expr::Binary { left, operator, right } => {
                self.emit_expr(left);
                self.emitter.write_spaced(op_str(operator));
                self.emit_expr(right);
                assert(self.text() =~= start + expr_code(expr@, k));
            },
            Expr::Unary { operator, right } => {
                let op = op_str(operator);
                self.emitter.write(op);
                if ends_with_alphabetic(op) {
                    self.emitter.write(" ");
                }
                self.emit_expr(right);
                assert(self.text() =~= start + expr_code(expr@, k));
            },
            Expr::Variable(name) => {
                self.emitter.write(name.lexeme.as_str());
            },
            Expr::Assign { name, value } => {
                self.emitter.write(name.lexeme.as_str());
                self.emitter.write_spaced("=");
                self.emit_expr(value);
                assert(self.text() =~= start + expr_code(expr@, k));
            },
            Expr::IfExpr { predicate, then_expr, else_expr } => {
                self.emitter.write("if ");
                self.emit_expr(predicate);
                self.emitter.write_spaced("then");
                self.emit_expr(then_expr);
                self.emitter.write_spaced("else");
                self.emit_expr(else_expr);
                assert(self.text() =~= start + expr_code(expr@, k));
            },
        }
    }

    /// Appends the code for a table constructor.
    fn emit_table(&mut self, expr: &Expr)
        requires
            expr is Table,
            expr_emittable(expr@, old(self).level()),
        ensures
            final(self).text() == old(self).text() + expr_code(expr@, old(self).level()),
            final(self).level() == old(self).level(),
        decreases expr, 0nat,
    {
        let ghost start = self.text();
        let ghost k = self.level();
        match expr {
            Expr::Table { fields, multiline } => {
                proof {
                    lemma_fields_view_len(fields@);
                }
                if fields.len() == 0 {
                    self.emitter.write("{}");
                    return ;
                }
                if *multiline {
                    self.emitter.write("{");
                    self.emitter.newline();
                    self.emitter.indent();
                    self.emit_fields_lines(fields);
                    self.emitter.dedent();
                    self.emitter.emit_indent();
                    self.emitter.write("}");
                } else {
                    self.emitter.write("{");
                    self.emit_fields_inline(fields);
                    self.emitter.write("}");
                }
                assert(self.text() =~= start + expr_code(expr@, k));
            },
            _ => {},
        }
    }

    /// Appends table fields one per line, each followed by a comma.
    #[verifier::rlimit(30)]
    fn emit_fields_lines(&mut self, fields: &Vec<TableField>)
        requires
            fields_emittable(fields_view(fields@), old(self).level()),
        ensures
            final(self).text() == old(self).text() + fields_lines(fields_view(fields@), old(self).level()),
            final(self).level() == old(self).level(),
        decreases fields, 0nat,
    {
        let ghost open = self.text();
        let ghost k = self.level();
        let mut i: usize = 0;
        #[verifier::loop_isolation(false)]
        while i < fields.len()
            invariant
                i <= fields@.len(),
                self.level() == k,
                fields_emittable(fields_view(fields@), k),
                self.text() == open + fields_lines(fields_view(fields@.take(i as int)), k),
            decreases fields.len() - i,
        {
            proof {
                lemma_fields_view_step(fields@, i as int);
                lemma_fields_emittable_index(fields_view(fields@), k, i as int);
            }
            self.emitter.emit_indent();
            self.emit_table_key(&fields[i]);
            self.emit_expr(&fields[i].value);
            self.emitter.write(",");
            self.emitter.newline();
            proof {
                let f = field_view(fields@[i as int]);
                assert(field_code(f, k) == key_code(f.key, k) + expr_code(f.value, k));
                let x = fields_view(fields@.take(i as int));
                assert(x.push(f).drop_last() =~= x);
            }
            i = i + 1;
            assert(self.text() =~= open + fields_lines(fields_view(fields@.take(i as int)), k));
        }
        assert(fields@.take(i as int) =~= fields@);
    }

    /// Appends table fields on one line, separated by `, `.
    fn emit_fields_inline(&mut self, fields: &Vec<TableField>)
        requires
            fields_emittable(fields_view(fields@), old(self).level()),
        ensures
            final(self).text() == old(self).text() + fields_inline(fields_view(fields@), old(self).level()),
            final(self).level() == old(self).level(),
        decreases fields, 0nat,
    {
        let ghost open = self.text();
        let ghost k = self.level();
        let mut i: usize = 0;
        #[verifier::loop_isolation(false)]
        while i < fields.len()
            invariant
                i <= fields@.len(),
                self.level() == k,
                fields_emittable(fields_view(fields@), k),
                self.text() == open + fields_inline(fields_view(fields@.take(i as int)), k),
            decreases fields.len() - i,
        {
            proof {
                reveal_strlit(", ");
                lemma_fields_view_step(fields@, i as int);
                lemma_fields_emittable_index(fields_view(fields@), k, i as int);
                if i == 0 {
                    assert(fields_view(fields@.take(0)).len() == 0);
                }
            }
            if i > 0 {
                self.emitter.write(", ");
            }
            self.emit_table_key(&fields[i]);
            self.emit_expr(&fields[i].value);
            proof {
                let f = field_view(fields@[i as int]);
                assert(field_code(f, k) == key_code(f.key, k) + expr_code(f.value, k));
                let x = fields_view(fields@.take(i as int));
                lemma_fields_view_len(fields@.take(i as int));
                assert(x.push(f).drop_last() =~= x);
                if i == 0 {
                    assert(x.push(f)[0] == f);
                }
            }
            i = i + 1;
            assert(self.text() =~= open + fields_inline(fields_view(fields@.take(i as int)), k));
        }
        assert(fields@.take(i as int) =~= fields@);
    }

    /// Appends the code for a literal.
    fn emit_literal(&mut self, v: &LiteralValue)
        requires
            !(*v is DecoratorValue),
        ensures
            final(self).text() == old(self).text() + literal_code(*v),
            final(self).level() == old(self).level(),
    {
        match v {
            LiteralValue::NumberValue(n) => self.emitter.write(n.as_str()),
            LiteralValue::StringValue(s) => {
                self.emitter.write("\"");
                self.emitter.write(s.as_str());
                self.emitter.write("\"");
            },
            LiteralValue::DecoratorValue(_) => {},
            LiteralValue::True => self.emitter.write("true"),
            LiteralValue::False => self.emitter.write("false"),
            LiteralValue::Nil => self.emitter.write("nil"),
        }
    }

    /// Appends the key of a table field.
    fn emit_table_key(&mut self, field: &TableField)
        requires
            key_emittable(key_view(field.key), old(self).level()),
        ensures
            final(self).text() == old(self).text() + key_code(key_view(field.key), old(self).level()),
            final(self).level() == old(self).level(),
        decreases field, 0nat,
    {
        let ghost start = self.text();
        let ghost k = self.level();
        proof {
            reveal_strlit("=");
            reveal_strlit(" = ");
            reveal_strlit(" ");
        }
        match &field.key {
            TableKey::Ident(key) => {
                self.emitter.write(key.lexeme.as_str());
                self.emitter.write_spaced("=");
                assert(self.text() =~= start + key_code(key_view(field.key), k));
            },
            TableKey::Computed(key_expr) => {
                self.emitter.write("[");
                self.emit_expr(key_expr);
                self.emitter.write("] = ");
                assert(self.text() =~= start + key_code(key_view(field.key), k));
            },
            TableKey::Positional => {},
        }
    }
}

/// Whether the statements can be lowered at level `k` (see [`stmts_emittable`]).
pub fn can_emit(stmts: &[Statement], k: usize) -> (r: bool)
    ensures
        r == stmts_emittable(stmts_view(stmts@), k as nat),
{
    let mut i: usize = 0;
    while i < stmts.len()
        invariant
            i <= stmts@.len(),
            stmts_emittable(stmts_view(stmts@.take(i as int)), k as nat),
        decreases stmts.len() - i,
    {
        proof {
            lemma_stmts_view_step(stmts@, i as int);
        }
        if !stmt_ok(&stmts[i], k) {
            proof {
                lemma_stmts_view_len(stmts@);
                if stmts_emittable(stmts_view(stmts@), k as nat) {
                    lemma_stmts_emittable_index(stmts_view(stmts@), k as nat, i as int);
                }
            }
            return false;
        }
        proof {
            let x = stmts_view(stmts@.take(i as int));
            assert(x.push(stmt_view(stmts@[i as int])).drop_last() =~= x);
        }
        i = i + 1;
    }
    assert(stmts@.take(i as int) =~= stmts@);
    true
}

fn stmt_ok(s: &Statement, k: usize) -> (r: bool)
    ensures
        r == stmt_emittable(s@, k as nat),
    decreases s, 1nat,
{
    match s {
        Statement::Expression(e) => expr_ok(e, k),
        Statement::Block(ss) => {
            let mut i: usize = 0;
            #[verifier::loop_isolation(false)]
            while i < ss.len()
                invariant
                    i <= ss@.len(),
                    stmts_emittable(stmts_view(ss@.take(i as int)), k as nat),
                decreases ss.len() - i,
            {
                proof {
                    lemma_stmts_view_step(ss@, i as int);
                }
                if !stmt_ok(&ss[i], k) {
                    proof {
                        lemma_stmts_view_len(ss@);
                        if stmts_emittable(stmts_view(ss@), k as nat) {
                            lemma_stmts_emittable_index(stmts_view(ss@), k as nat, i as int);
                        }
                    }
                    return false;
                }
                proof {
                    let x = stmts_view(ss@.take(i as int));
                    assert(x.push(stmt_view(ss@[i as int])).drop_last() =~= x);
                }
                i = i + 1;
            }
            assert(ss@.take(i as int) =~= ss@);
            true
        },
        Statement::Variable { init, .. } => match init {
            Some(e) => expr_ok(e, k),
            None => true,
        },
        Statement::If { predicate, then, else_block } => {
            expr_ok(predicate, k) && k < usize::MAX && stmt_ok(then, k + 1) && else_ok(else_block, k)
        },
        Statement::Return(value) => match value {
            Some(e) => expr_ok(e, k),
            None => true,
        },
        Statement::Loop(body) => k <= usize::MAX - 2 && stmt_ok(body, k + 2),
        Statement::While { condition, body } => {
            expr_ok(condition, k) && k < usize::MAX && stmt_ok(body, k + 1)
        },
        Statement::For { ident, iter, step, body } => {
            if !(k < usize::MAX && stmt_ok(body, k + 1)) {
                return false;
            }
            match iter {
                Expr::Binary { left, operator, right } => {
                    if operator.token_type == TokenType::DotDot || operator.token_type
                        == TokenType::DotDotEqual {
                        ident.len() > 0 && expr_ok(left, k) && expr_ok(right, k) && match step {
                            Some(st) => expr_ok(st, k),
                            None => true,
                        }
                    } else {
                        expr_ok(iter, k)
                    }
                },
                _ => expr_ok(iter, k),
            }
        },
        Statement::Continue => true,
        Statement::Break => true,
    }
}

fn else_ok(e: &Option<Box<Statement>>, k: usize) -> (r: bool)
    ensures
        r == else_emittable(else_view(*e), k as nat),
    decreases e, 0nat,
{
    match e {
        None => true,
        Some(st) => match &**st {
            Statement::If { predicate, then, else_block } => {
                expr_ok(predicate, k) && k < usize::MAX && stmt_ok(then, k + 1) && else_ok(
                    else_block,
                    k,
                )
            },
            _ => k < usize::MAX && stmt_ok(st, k + 1),
        },
    }
}

fn expr_ok(e: &Expr, k: usize) -> (r: bool)
    ensures
        r == expr_emittable(e@, k as nat),
    decreases e, 1nat,
{
    match e {
        Expr::Literal(v) => match v {
            LiteralValue::DecoratorValue(_) => false,
            _ => true,
        },
        Expr::Grouping(inner) => expr_ok(inner, k),
        Expr::Table { fields, multiline } => {
            proof {
                lemma_fields_view_len(fields@);
            }
            if fields.len() == 0 {
                return true;
            }
            if *multiline && k == usize::MAX {
                return false;
            }
            let level = if *multiline {
                k + 1
            } else {
                k
            };
            let mut i: usize = 0;
            #[verifier::loop_isolation(false)]
            while i < fields.len()
                invariant
                    i <= fields@.len(),
                    fields_emittable(fields_view(fields@.take(i as int)), level as nat),
                decreases fields.len() - i,
            {
                proof {
                    lemma_fields_view_step(fields@, i as int);
                }
                let ok = match &fields[i].key {
                    TableKey::Computed(key) => expr_ok(key, level),
                    _ => true,
                } && expr_ok(&fields[i].value, level);
                assert(ok == field_emittable(field_view(fields@[i as int]), level as nat));
                if !ok {
                    proof {
                        if fields_emittable(fields_view(fields@), level as nat) {
                            lemma_fields_emittable_index(fields_view(fields@), level as nat, i as int);
                        }
                    }
                    return false;
                }
                proof {
                    let x = fields_view(fields@.take(i as int));
                    assert(x.push(field_view(fields@[i as int])).drop_last() =~= x);
                }
                i = i + 1;
            }
            assert(fields@.take(i as int) =~= fields@);
            true
        },
        Expr::Binary { left, right, .. } => expr_ok(left, k) && expr_ok(right, k),
        Expr::Unary { right, .. } => expr_ok(right, k),
        Expr::Variable(_) => true,
        Expr::Assign { value, .. } => expr_ok(value, k),
        Expr::IfExpr { predicate, then_expr, else_expr } => {
            expr_ok(predicate, k) && expr_ok(then_expr, k) && expr_ok(else_expr, k)
        },
    }
}

/// The Luau spelling of an operator token (see [`op_text`]).
fn op_str(tok: &Token) -> (r: &str)
    ensures
        r@ == op_text(*tok),
{
    match tok.token_type {
        TokenType::BangEqual => "~=",
        TokenType::Bang => "not",
        TokenType::And => "and",
        TokenType::Or => "or",
        _ => tok.lexeme.as_str(),
    }
}

/// Whether the last character of `s` is alphabetic.
fn ends_with_alphabetic(s: &str) -> (r: bool)
    ensures
        r == ends_alphabetic(s@),
{
    let cs = chars_of(s);
    cs.len() > 0 && is_alphabetic(cs[cs.len() - 1])
}

proof fn lemma_fields_emittable_index(fs: Seq<FieldV>, k: nat, i: int)
    requires
        fields_emittable(fs, k),
        0 <= i < fs.len(),
    ensures
        field_emittable(fs[i], k),
    decreases fs.len(),
{
    if i < fs.len() - 1 {
        lemma_fields_emittable_index(fs.drop_last(), k, i);
    }
}

proof fn lemma_stmts_emittable_index(ss: Seq<StmtV>, k: nat, i: int)
    requires
        stmts_emittable(ss, k),
        0 <= i < ss.len(),
    ensures
        stmt_emittable(ss[i], k),
    decreases ss.len(),
{
    if i < ss.len() - 1 {
        lemma_stmts_emittable_index(ss.drop_last(), k, i);
    }
}

} // verus!
