//! Statements.
use vstd::prelude::*;

use crate::lexer::expr::{expr_text, expr_view, Expr, ExprV};
use crate::lexer::Token;
use crate::text::push_char;

verus! {

/// Whether a declaration is a `let` or a `const`.
#[derive(Debug, Clone, Copy, PartialEq, Eq, Structural)]
pub enum VarKind {
    Let,
    Const,
}

/// A statement.
#[derive(Debug)]
pub enum Statement {
    Expression(Expr),
    Block(Vec<Statement>),
    Variable { name: Token, init: Option<Expr>, kind: VarKind },
    If { predicate: Expr, then: Box<Statement>, else_block: Option<Box<Statement>> },
    Loop(Box<Statement>),
    While { condition: Expr, body: Box<Statement> },
    For { ident: Vec<Token>, iter: Expr, step: Option<Expr>, body: Box<Statement> },
    Return(Option<Expr>),
    Continue,
    Break,
}

/// A statement as a mathematical tree: blocks and loop variables are sequences.
pub enum StmtV {
    Expression(ExprV),
    Block(Seq<StmtV>),
    Variable { name: Token, init: Option<ExprV>, kind: VarKind },
    If { predicate: ExprV, then: Box<StmtV>, else_block: Option<Box<StmtV>> },
    Loop(Box<StmtV>),
    While { condition: ExprV, body: Box<StmtV> },
    For { ident: Seq<Token>, iter: ExprV, step: Option<ExprV>, body: Box<StmtV> },
    Return(Option<ExprV>),
    Continue,
    Break,
}

pub open spec fn opt_expr_view(e: Option<Expr>) -> Option<ExprV> {
    match e {
        Some(x) => Some(expr_view(x)),
        None => None,
    }
}

pub open spec fn stmt_view(s: Statement) -> StmtV
    decreases s,
{
    match s {
        Statement::Expression(e) => StmtV::Expression(expr_view(e)),
        Statement::Block(ss) => StmtV::Block(stmts_view(ss@)),
        Statement::Variable { name, init, kind } => StmtV::Variable {
            name,
            init: opt_expr_view(init),
            kind,
        },
        Statement::If { predicate, then, else_block } => StmtV::If {
            predicate: expr_view(predicate),
            then: Box::new(stmt_view(*then)),
            else_block: else_view(else_block),
        },
        Statement::Loop(body) => StmtV::Loop(Box::new(stmt_view(*body))),
        Statement::While { condition, body } => StmtV::While {
            condition: expr_view(condition),
            body: Box::new(stmt_view(*body)),
        },
        Statement::For { ident, iter, step, body } => StmtV::For {
            ident: ident@,
            iter: expr_view(iter),
            step: opt_expr_view(step),
            body: Box::new(stmt_view(*body)),
        },
        Statement::Return(v) => StmtV::Return(opt_expr_view(v)),
        Statement::Continue => StmtV::Continue,
        Statement::Break => StmtV::Break,
    }
}

pub open spec fn else_view(e: Option<Box<Statement>>) -> Option<Box<StmtV>>
    decreases e,
{
    match e {
        Some(s) => Some(Box::new(stmt_view(*s))),
        None => None,
    }
}

pub open spec fn stmts_view(ss: Seq<Statement>) -> Seq<StmtV>
    decreases ss,
{
    if ss.len() == 0 {
        Seq::empty()
    } else {
        stmts_view(ss.drop_last()).push(stmt_view(ss.last()))
    }
}

impl View for Statement {
    type V = StmtV;

    open spec fn view(&self) -> StmtV {
        stmt_view(*self)
    }
}

/// How a declaration's kind is written: `let` or `const`.
pub open spec fn var_kind_text(k: VarKind) -> Seq<char> {
    match k {
        VarKind::Let => "let"@,
        VarKind::Const => "const"@,
    }
}

impl VarKind {
    /// `let` or `const` (see [`var_kind_text`]).
    pub fn to_string(&self) -> (r: String)
        ensures
            r@ == var_kind_text(*self),
    {
        match self {
            VarKind::Let => String::from_str("let"),
            VarKind::Const => String::from_str("const"),
        }
    }
}

/// The prefix form of a statement: `(stmt e)`, `(block s...)`,
/// `(let name e)`, `(if p then else)`, `(loop b)`, `(while c b)`,
/// `(for names... iter step b)`, `(return e)`, `(continue)`, `(break)`.
pub open spec fn stmt_text(s: StmtV) -> Seq<char>
    decreases s,
{
    match s {
        StmtV::Expression(e) => "(stmt "@ + expr_text(e) + seq![')'],
        StmtV::Block(ss) => "(block"@ + stmts_text(ss) + seq![')'],
        StmtV::Variable { name, init, kind } => seq!['('] + var_kind_text(kind) + seq![' ']
            + name.lexeme@ + (match init {
            Some(e) => seq![' '] + expr_text(e),
            None => Seq::empty(),
        }) + seq![')'],
        StmtV::If { predicate, then, else_block } => "(if "@ + expr_text(predicate) + seq![' ']
            + stmt_text(*then) + (match else_block {
            Some(e) => seq![' '] + stmt_text(*e),
            None => Seq::empty(),
        }) + seq![')'],
        StmtV::Loop(b) => "(loop "@ + stmt_text(*b) + seq![')'],
        StmtV::While { condition, body } => "(while "@ + expr_text(condition) + seq![' ']
            + stmt_text(*body) + seq![')'],
        StmtV::For { ident, iter, step, body } => "(for"@ + names_text(ident) + seq![' '] + expr_text(
            iter,
        ) + (match step {
            Some(e) => seq![' '] + expr_text(e),
            None => Seq::empty(),
        }) + seq![' '] + stmt_text(*body) + seq![')'],
        StmtV::Return(v) => match v {
            Some(e) => "(return "@ + expr_text(e) + seq![')'],
            None => "(return)"@,
        },
        StmtV::Continue => "(continue)"@,
        StmtV::Break => "(break)"@,
    }
}

/// Statements in prefix form, each after a space.
pub open spec fn stmts_text(ss: Seq<StmtV>) -> Seq<char>
    decreases ss,
{
    if ss.len() == 0 {
        Seq::empty()
    } else {
        stmts_text(ss.drop_last()) + seq![' '] + stmt_text(ss.last())
    }
}

/// Loop variables, each after a space.
pub open spec fn names_text(ids: Seq<Token>) -> Seq<char>
    decreases ids.len(),
{
    if ids.len() == 0 {
        Seq::empty()
    } else {
        names_text(ids.drop_last()) + seq![' '] + ids.last().lexeme@
    }
}

/// Taking one more statement adds its view at the end.
pub proof fn lemma_stmts_view_step(ss: Seq<Statement>, i: int)
    requires
        0 <= i < ss.len(),
    ensures
        stmts_view(ss.take(i + 1)) == stmts_view(ss.take(i)).push(stmt_view(ss[i])),
        stmts_view(ss).len() == ss.len(),
        stmts_view(ss)[i] == stmt_view(ss[i]),
{
    assert(ss.take(i + 1).drop_last() =~= ss.take(i));
    lemma_stmts_view_index(ss, i);
}

pub proof fn lemma_stmts_view_index(ss: Seq<Statement>, i: int)
    requires
        0 <= i < ss.len(),
    ensures
        stmts_view(ss).len() == ss.len(),
        stmts_view(ss)[i] == stmt_view(ss[i]),
    decreases ss.len(),
{
    lemma_stmts_view_len(ss);
    if i < ss.len() - 1 {
        lemma_stmts_view_index(ss.drop_last(), i);
    }
}

pub proof fn lemma_stmts_view_len(ss: Seq<Statement>)
    ensures
        stmts_view(ss).len() == ss.len(),
    decreases ss.len(),
{
    if ss.len() > 0 {
        lemma_stmts_view_len(ss.drop_last());
    }
}

impl Statement {
    /// The prefix form of the statement (see [`stmt_text`]).
    pub fn to_string(&self) -> (r: String)
        ensures
            r@ == stmt_text(self@),
    {
        let mut out = String::new();
        self.write_text(&mut out);
        assert(out@ =~= stmt_text(self@));
        out
    }

    /// Appends the prefix form of the statement to `out`.
    fn write_text(&self, out: &mut String)
        ensures
            final(out)@ == old(out)@ + stmt_text(self@),
        decreases self, 1nat,
    {
        let ghost start = out@;
        proof {
            reveal_strlit("(stmt ");
            reveal_strlit("(if ");
            reveal_strlit("(loop ");
            reveal_strlit("(while ");
            reveal_strlit("(return ");
            reveal_strlit("(return)");
            reveal_strlit("(continue)");
            reveal_strlit("(break)");
        }
        match self {
            Statement::Expression(e) => {
                out.append("(stmt ");
                let t = e.to_string();
                out.append(t.as_str());
                push_char(out, ')');
            },
            Statement::Block(ss) => write_block(ss, out),
            Statement::Variable { name, init, kind } => {
                push_char(out, '(');
                let k = kind.to_string();
                out.append(k.as_str());
                push_char(out, ' ');
                out.append(name.lexeme.as_str());
                match init {
                    Some(e) => {
                        push_char(out, ' ');
                        let t = e.to_string();
                        out.append(t.as_str());
                    },
                    None => {},
                }
                push_char(out, ')');
            },
            Statement::If { predicate, then, else_block } => {
                out.append("(if ");
                let t = predicate.to_string();
                out.append(t.as_str());
                push_char(out, ' ');
                then.write_text(out);
                match else_block {
                    Some(e) => {
                        assert(else_view(*else_block) == Some(Box::new(stmt_view(**e))));
                        push_char(out, ' ');
                        e.write_text(out);
                    },
                    None => {
                        assert(else_view(*else_block) == None::<Box<StmtV>>);
                    },
                }
                push_char(out, ')');
            },
            Statement::Loop(b) => {
                out.append("(loop ");
                b.write_text(out);
                push_char(out, ')');
            },
            Statement::While { condition, body } => {
                out.append("(while ");
                let t = condition.to_string();
                out.append(t.as_str());
                push_char(out, ' ');
                body.write_text(out);
                push_char(out, ')');
            },
            Statement::For { .. } => self.write_for(out),
            Statement::Return(v) => match v {
                Some(e) => {
                    out.append("(return ");
                    let t = e.to_string();
                    out.append(t.as_str());
                    push_char(out, ')');
                },
                None => out.append("(return)"),
            },
            Statement::Continue => out.append("(continue)"),
            Statement::Break => out.append("(break)"),
        }
        assert(out@ =~= start + stmt_text(self@));
    }

    /// Appends the prefix form of a `for` loop to `out`.
    fn write_for(&self, out: &mut String)
        requires
            *self is For,
        ensures
            final(out)@ == old(out)@ + stmt_text(self@),
        decreases self, 0nat,
    {
        let ghost start = out@;
        proof {
            reveal_strlit("(for");
        }
        match self {
            Statement::For { ident, iter, step, body } => {
                out.append("(for");
                let ghost open = out@;
                let mut i: usize = 0;
                while i < ident.len()
                    invariant
                        i <= ident@.len(),
                        out@ == open + names_text(ident@.take(i as int)),
                    decreases ident.len() - i,
                {
                    push_char(out, ' ');
                    out.append(ident[i].lexeme.as_str());
                    proof {
                        assert(ident@.take(i + 1).drop_last() =~= ident@.take(i as int));
                    }
                    i = i + 1;
                    assert(out@ =~= open + names_text(ident@.take(i as int)));
                }
                assert(ident@.take(i as int) =~= ident@);
                push_char(out, ' ');
                let t = iter.to_string();
                out.append(t.as_str());
                match step {
                    Some(e) => {
                        push_char(out, ' ');
                        let t = e.to_string();
                        out.append(t.as_str());
                    },
                    None => {},
                }
                push_char(out, ' ');
                body.write_text(out);
                push_char(out, ')');
            },
            _ => {},
        }
        assert(out@ =~= start + stmt_text(self@));
    }
}

/// Appends the prefix form of a block's statements to `out`.
fn write_block(ss: &Vec<Statement>, out: &mut String)
    ensures
        final(out)@ == old(out)@ + "(block"@ + stmts_text(stmts_view(ss@)) + seq![')'],
    decreases ss, 0nat,
{
    let ghost start = out@;
    proof {
        reveal_strlit("(block");
    }
    out.append("(block");
    let ghost open = out@;
    let mut i: usize = 0;
    #[verifier::loop_isolation(false)]
    while i < ss.len()
        invariant
            i <= ss@.len(),
            out@ == open + stmts_text(stmts_view(ss@.take(i as int))),
        decreases ss.len() - i,
    {
        proof {
            lemma_stmts_view_step(ss@, i as int);
        }
        push_char(out, ' ');
        ss[i].write_text(out);
        proof {
            let x = stmts_view(ss@.take(i as int));
            assert(x.push(stmt_view(ss@[i as int])).drop_last() =~= x);
        }
        i = i + 1;
        assert(out@ =~= open + stmts_text(stmts_view(ss@.take(i as int))));
    }
    assert(ss@.take(i as int) =~= ss@);
    push_char(out, ')');
    assert(out@ =~= start + "(block"@ + stmts_text(stmts_view(ss@)) + seq![')']);
}

} // verus!
