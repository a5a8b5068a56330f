//! Recursive-descent parser from tokens to statements, with error recovery.
//!
//! The grammar, from the loosest binding to the tightest:
//! assignment, `||`, `&&`, `== !=`, `> >= < <=`, `+ -`, `* /`, unary `! -`,
//! then primaries (literals, names, `( )`, table constructors, `if` expressions).
use vstd::prelude::*;

use crate::codegen::statements::{else_view, stmts_view, Statement, StmtV, VarKind};
use crate::error::{CompileErrors, ParseError, Span};
use crate::lexer::expr::{fields_view, Expr, ExprV, FieldV, KeyV, TableField, TableKey};
use crate::lexer::{literal_of, token_span, Token, TokenType};

verus! {

/// Why a parsing step did not produce a value: a diagnostic, or a literal
/// token without the value its kind needs (on which the parser stops).
#[derive(Debug)]
pub enum ParseFailure {
    Error(ParseError),
    MissingLiteral(TokenType),
}

/// The outcome of a parsing step and the position it left the parser at.
pub type Step<T> = (Result<T, ParseFailure>, int);

/// The kind of the token at `p`; past either end, `Eof`.
pub open spec fn kind_at(ts: Seq<Token>, p: int) -> TokenType {
    if 0 <= p < ts.len() {
        ts[p].token_type
    } else {
        TokenType::Eof
    }
}

pub open spec fn at_end(ts: Seq<Token>, p: int) -> bool {
    kind_at(ts, p) == TokenType::Eof
}

/// The source range of the token at `p`.
pub open spec fn span_at(ts: Seq<Token>, p: int) -> Span {
    token_span(ts[p])
}

/// Some token at or after `p` is an `Eof`: the parser never runs past it.
pub open spec fn eof_ahead(ts: Seq<Token>, p: int) -> bool {
    exists|e: int| p <= e < ts.len() && #[trigger] ts[e].token_type == TokenType::Eof
}

/// `p < q` and `q` is a position of `ts` or just past it.
pub open spec fn moved(ts: Seq<Token>, p: int, q: int) -> bool {
    p < q <= ts.len()
}

/// The failure reported where `q` does not lie after `p`; never reached.
pub open spec fn stalled(ts: Seq<Token>, q: int) -> ParseFailure {
    ParseFailure::Error(ParseError::ExpectedExpression { span: span_at(ts, q) })
}

/// A token of kind `t` is required at `p`.
pub open spec fn sp_consume(ts: Seq<Token>, p: int, t: TokenType, advice: Option<&'static str>) -> Step<
    Token,
> {
    if kind_at(ts, p) == t {
        (Ok(ts[p]), p + 1)
    } else {
        (
            Err(
                ParseFailure::Error(
                    ParseError::ExpectedToken {
                        expected: t,
                        found: kind_at(ts, p),
                        span: span_at(ts, p),
                        advice,
                    },
                ),
            ),
            p,
        )
    }
}

/// The operator kinds of the binary level `k`: `||`, `&&`, equality,
/// comparison, additive, multiplicative.
pub open spec fn level_ops(k: nat) -> Seq<TokenType> {
    if k == 0 {
        seq![TokenType::Or]
    } else if k == 1 {
        seq![TokenType::And]
    } else if k == 2 {
        seq![TokenType::BangEqual, TokenType::EqualEqual]
    } else if k == 3 {
        seq![TokenType::Greater, TokenType::GreaterEqual, TokenType::Less, TokenType::LessEqual]
    } else if k == 4 {
        seq![TokenType::Minus, TokenType::Plus]
    } else {
        seq![TokenType::Slash, TokenType::Star]
    }
}

pub open spec fn binary_rank(k: nat) -> nat {
    if k <= 5 {
        (22 - 2 * k) as nat
    } else {
        12
    }
}

/// A statement or a declaration.
pub open spec fn sp_declaration(ts: Seq<Token>, p: int) -> Step<StmtV>
    decreases ts.len() - p, 31nat,
{
    if kind_at(ts, p) == TokenType::Let {
        sp_var_declaration(ts, p + 1, VarKind::Let)
    } else if kind_at(ts, p) == TokenType::Const {
        sp_var_declaration(ts, p + 1, VarKind::Const)
    } else {
        sp_statement(ts, p)
    }
}

/// The rest of a `let` or `const` declaration, after its keyword.
pub open spec fn sp_var_declaration(ts: Seq<Token>, p: int, kind: VarKind) -> Step<StmtV>
    decreases ts.len() - p, 31nat,
{
    match sp_consume(ts, p, TokenType::Identifier, None) {
        (Err(f), q) => (Err(f), q),
        (Ok(name), _) => if kind_at(ts, p + 1) == TokenType::Equal {
            match sp_expression(ts, p + 2) {
                (Ok(e), r) => (Ok(StmtV::Variable { name, init: Some(e), kind }), r),
                (Err(f), r) => (Err(f), r),
            }
        } else if kind == VarKind::Const {
            (
                Err(
                    ParseFailure::Error(
                        ParseError::ConstRequiresInitializer { span: span_at(ts, p) },
                    ),
                ),
                p + 1,
            )
        } else {
            (Ok(StmtV::Variable { name, init: None, kind }), p + 1)
        },
    }
}

/// A statement that is not a declaration.
pub open spec fn sp_statement(ts: Seq<Token>, p: int) -> Step<StmtV>
    decreases ts.len() - p, 30nat,
{
    match kind_at(ts, p) {
        TokenType::If => sp_if_statement(ts, p + 1),
        TokenType::While => sp_while_statement(ts, p + 1),
        TokenType::Loop => sp_loop_statement(ts, p + 1),
        TokenType::Return => sp_return_statement(ts, p + 1),
        TokenType::For => sp_for_statement(ts, p + 1),
        TokenType::Continue => (Ok(StmtV::Continue), p + 1),
        TokenType::Break => (Ok(StmtV::Break), p + 1),
        _ => sp_expression_statement(ts, p),
    }
}

/// `{ declarations }`.
pub open spec fn sp_block(ts: Seq<Token>, p: int) -> Step<StmtV>
    decreases ts.len() - p, 28nat,
{
    match sp_consume(ts, p, TokenType::LeftBrace, Some("add an opening '{' to start the block")) {
        (Err(f), q) => (Err(f), q),
        (Ok(_), _) => sp_block_rest(ts, p + 1, Seq::empty()),
    }
}

/// The declarations of a block from `p` on, after `stmts`, and its closing brace.
pub open spec fn sp_block_rest(ts: Seq<Token>, p: int, stmts: Seq<StmtV>) -> Step<StmtV>
    decreases ts.len() - p, 32nat,
{
    if at_end(ts, p) || kind_at(ts, p) == TokenType::RightBrace {
        match sp_consume(ts, p, TokenType::RightBrace, Some("add a closing '}' to end the block")) {
            (Err(f), q) => (Err(f), q),
            (Ok(_), q) => (Ok(StmtV::Block(stmts)), q),
        }
    } else {
        match sp_declaration(ts, p) {
            (Err(f), q) => (Err(f), q),
            (Ok(s), q) => if moved(ts, p, q) {
                sp_block_rest(ts, q, stmts.push(s))
            } else {
                (Err(stalled(ts, q)), q)
            },
        }
    }
}

/// The body of an `if` (a block, or one declaration after `do`).
pub open spec fn sp_then_branch(ts: Seq<Token>, p: int) -> Step<StmtV>
    decreases ts.len() - p, 29nat,
{
    if kind_at(ts, p) == TokenType::Do {
        sp_declaration(ts, p + 1)
    } else {
        sp_block(ts, p)
    }
}

/// The rest of an `if` statement, after `if`.
pub open spec fn sp_if_statement(ts: Seq<Token>, p: int) -> Step<StmtV>
    decreases ts.len() - p, 29nat,
{
    if kind_at(ts, p) == TokenType::LeftBrace || at_end(ts, p) {
        (Err(ParseFailure::Error(ParseError::IfMissingCondition { span: span_at(ts, p) })), p)
    } else {
        match sp_expression(ts, p) {
            (Err(f), q) => (Err(f), q),
            (Ok(predicate), q) => if !moved(ts, p, q) {
                (Err(stalled(ts, q)), q)
            } else {
                sp_if_branches(ts, q, predicate)
            },
        }
    }
}

/// The body of an `if` statement and its `else` branch, if any.
pub open spec fn sp_if_branches(ts: Seq<Token>, p: int, predicate: ExprV) -> Step<StmtV>
    decreases ts.len() - p, 30nat,
{
    match sp_then_branch(ts, p) {
        (Err(f), r) => (Err(f), r),
        (Ok(then), r) => if !moved(ts, p, r) {
            (Err(stalled(ts, r)), r)
        } else if kind_at(ts, r) == TokenType::Else {
            match sp_else_branch(ts, r + 1) {
                (Err(f), u) => (Err(f), u),
                (Ok(e), u) => (
                    Ok(
                        StmtV::If {
                            predicate,
                            then: Box::new(then),
                            else_block: Some(Box::new(e)),
                        },
                    ),
                    u,
                ),
            }
        } else {
            (Ok(StmtV::If { predicate, then: Box::new(then), else_block: None }), r)
        },
    }
}

/// What follows `else`: another `if` statement, or a block.
pub open spec fn sp_else_branch(ts: Seq<Token>, p: int) -> Step<StmtV>
    decreases ts.len() - p, 29nat,
{
    if kind_at(ts, p) == TokenType::If {
        sp_if_statement(ts, p + 1)
    } else {
        sp_block(ts, p)
    }
}

/// The rest of a `while` loop, after `while`.
pub open spec fn sp_while_statement(ts: Seq<Token>, p: int) -> Step<StmtV>
    decreases ts.len() - p, 29nat,
{
    if kind_at(ts, p) == TokenType::LeftBrace || at_end(ts, p) {
        (Err(ParseFailure::Error(ParseError::WhileMissingCondition { span: span_at(ts, p) })), p)
    } else {
        match sp_expression(ts, p) {
            (Err(f), q) => (Err(f), q),
            (Ok(condition), q) => if !moved(ts, p, q) {
                (Err(stalled(ts, q)), q)
            } else {
                match sp_block(ts, q) {
                    (Err(f), r) => (Err(f), r),
                    (Ok(body), r) => (Ok(StmtV::While { condition, body: Box::new(body) }), r),
                }
            },
        }
    }
}

/// The rest of a `loop`, after `loop`.
pub open spec fn sp_loop_statement(ts: Seq<Token>, p: int) -> Step<StmtV>
    decreases ts.len() - p, 29nat,
{
    match sp_block(ts, p) {
        (Err(f), q) => (Err(f), q),
        (Ok(body), q) => (Ok(StmtV::Loop(Box::new(body))), q),
    }
}

/// The rest of a `return`, after `return`: a value unless the block or the
/// source ends there.
pub open spec fn sp_return_statement(ts: Seq<Token>, p: int) -> Step<StmtV>
    decreases ts.len() - p, 29nat,
{
    if at_end(ts, p) || kind_at(ts, p) == TokenType::RightBrace {
        (Ok(StmtV::Return(None)), p)
    } else {
        match sp_expression(ts, p) {
            (Err(f), q) => (Err(f), q),
            (Ok(e), q) => (Ok(StmtV::Return(Some(e))), q),
        }
    }
}

/// The rest of a `for` loop, after `for`: names separated by commas, `in`,
/// what to iterate (an expression, or a range `a..b` / `a..=b`), a block.
pub open spec fn sp_for_statement(ts: Seq<Token>, p: int) -> Step<StmtV>
    decreases ts.len() - p, 29nat,
{
    if kind_at(ts, p) != TokenType::Identifier {
        (Err(ParseFailure::Error(ParseError::ForMissingVars { span: span_at(ts, p) })), p)
    } else {
        sp_for_names(ts, p + 1, seq![ts[p]])
    }
}

/// The loop variables of a `for` from `p` on, after `names`.
pub open spec fn sp_for_names(ts: Seq<Token>, p: int, names: Seq<Token>) -> Step<StmtV>
    decreases ts.len() - p, 29nat,
{
    if kind_at(ts, p) == TokenType::Comma {
        match sp_consume(ts, p + 1, TokenType::Identifier, None) {
            (Err(f), q) => (Err(f), q),
            (Ok(name), _) => sp_for_names(ts, p + 2, names.push(name)),
        }
    } else {
        match sp_consume(ts, p, TokenType::In, None) {
            (Err(f), q) => (Err(f), q),
            (Ok(_), _) => sp_for_iter(ts, p + 1, names),
        }
    }
}

/// What a `for` iterates over, and its body.
pub open spec fn sp_for_iter(ts: Seq<Token>, p: int, names: Seq<Token>) -> Step<StmtV>
    decreases ts.len() - p, 29nat,
{
    match sp_expression(ts, p) {
        (Err(f), q) => (Err(f), q),
        (Ok(iter), q) => if !moved(ts, p, q) {
            (Err(stalled(ts, q)), q)
        } else if kind_at(ts, q) == TokenType::DotDot || kind_at(ts, q) == TokenType::DotDotEqual {
            match sp_expression(ts, q + 1) {
                (Err(f), r) => (Err(f), r),
                (Ok(right), r) => if !moved(ts, q, r) {
                    (Err(stalled(ts, r)), r)
                } else {
                    sp_for_body(
                        ts,
                        r,
                        names,
                        ExprV::Binary { left: Box::new(iter), operator: ts[q], right: Box::new(right) },
                    )
                },
            }
        } else {
            sp_for_body(ts, q, names, iter)
        },
    }
}

/// The body of a `for`, given its variables and what it iterates over.
pub open spec fn sp_for_body(ts: Seq<Token>, p: int, names: Seq<Token>, iter: ExprV) -> Step<StmtV>
    decreases ts.len() - p, 29nat,
{
    match sp_block(ts, p) {
        (Err(f), q) => (Err(f), q),
        (Ok(body), q) => (Ok(StmtV::For { ident: names, iter, step: None, body: Box::new(body) }), q),
    }
}

/// An expression used as a statement; only an assignment has an effect.
pub open spec fn sp_expression_statement(ts: Seq<Token>, p: int) -> Step<StmtV>
    decreases ts.len() - p, 28nat,
{
    match sp_expression(ts, p) {
        (Err(f), q) => (Err(f), q),
        (Ok(e), q) => if e is Assign {
            (Ok(StmtV::Expression(e)), q)
        } else {
            (
                Err(
                    ParseFailure::Error(
                        ParseError::ExpressionHasNoEffect { span: span_at(ts, q - 1) },
                    ),
                ),
                q,
            )
        },
    }
}

pub open spec fn sp_expression(ts: Seq<Token>, p: int) -> Step<ExprV>
    decreases ts.len() - p, 25nat,
{
    sp_assignment(ts, p)
}

/// `name = value`, or an operand of `||`. Only a name can be assigned, and
/// only once per expression.
pub open spec fn sp_assignment(ts: Seq<Token>, p: int) -> Step<ExprV>
    decreases ts.len() - p, 24nat,
{
    match sp_binary(ts, p, 0) {
        (Err(f), q) => (Err(f), q),
        (Ok(target), q) => if kind_at(ts, q) != TokenType::Equal {
            (Ok(target), q)
        } else if !(p <= q) {
            (Err(stalled(ts, q)), q)
        } else {
            match sp_binary(ts, q + 1, 0) {
                (Err(f), r) => (Err(f), r),
                (Ok(value), r) => if kind_at(ts, r) == TokenType::Equal {
                    (
                        Err(
                            ParseFailure::Error(
                                ParseError::ChainedAssignment { span: span_at(ts, r) },
                            ),
                        ),
                        r,
                    )
                } else {
                    match target {
                        ExprV::Variable(name) => (
                            Ok(ExprV::Assign { name, value: Box::new(value) }),
                            r,
                        ),
                        _ => (
                            Err(
                                ParseFailure::Error(
                                    ParseError::InvalidAssignTarget { span: span_at(ts, q) },
                                ),
                            ),
                            r,
                        ),
                    }
                },
            }
        },
    }
}

/// A left-associative chain of operands joined by the operators of level `k`.
pub open spec fn sp_binary(ts: Seq<Token>, p: int, k: nat) -> Step<ExprV>
    decreases ts.len() - p, binary_rank(k),
{
    match (if k >= 5 {
        sp_unary(ts, p)
    } else {
        sp_binary(ts, p, k + 1)
    }) {
        (Err(f), q) => (Err(f), q),
        (Ok(left), q) => if p <= q <= ts.len() {
            sp_binary_rest(ts, q, k, left)
        } else {
            (Err(stalled(ts, q)), q)
        },
    }
}

/// The rest of a chain of level `k` from `p` on, `left` being what it has so far.
pub open spec fn sp_binary_rest(ts: Seq<Token>, p: int, k: nat, left: ExprV) -> Step<ExprV>
    decreases ts.len() - p, 0nat,
{
    if level_ops(k).contains(kind_at(ts, p)) {
        match (if k >= 5 {
            sp_unary(ts, p + 1)
        } else {
            sp_binary(ts, p + 1, k + 1)
        }) {
            (Err(f), q) => (Err(f), q),
            (Ok(right), q) => if moved(ts, p, q) {
                sp_binary_rest(
                    ts,
                    q,
                    k,
                    ExprV::Binary { left: Box::new(left), operator: ts[p], right: Box::new(right) },
                )
            } else {
                (Err(stalled(ts, q)), q)
            },
        }
    } else {
        (Ok(left), p)
    }
}

/// `!` or `-` applied to a unary expression, or a primary expression.
pub open spec fn sp_unary(ts: Seq<Token>, p: int) -> Step<ExprV>
    decreases ts.len() - p, 11nat,
{
    if kind_at(ts, p) == TokenType::Bang || kind_at(ts, p) == TokenType::Minus {
        match sp_unary(ts, p + 1) {
            (Err(f), q) => (Err(f), q),
            (Ok(right), q) => (Ok(ExprV::Unary { operator: ts[p], right: Box::new(right) }), q),
        }
    } else {
        sp_primary(ts, p)
    }
}

/// A literal, a name, a parenthesized expression, a table constructor or an
/// `if` expression (which needs an `else`).
pub open spec fn sp_primary(ts: Seq<Token>, p: int) -> Step<ExprV>
    decreases ts.len() - p, 10nat,
{
    match kind_at(ts, p) {
        TokenType::If => sp_if_expr(ts, p + 1),
        TokenType::LeftBrace => sp_table_rest(ts, p + 1, Seq::empty(), ts[p]),
        TokenType::LeftParen => match sp_expression(ts, p + 1) {
            (Err(f), q) => (Err(f), q),
            (Ok(e), q) => match sp_consume(ts, q, TokenType::RightParen, None) {
                (Err(f), r) => (Err(f), r),
                (Ok(_), r) => (Ok(ExprV::Grouping(Box::new(e))), r),
            },
        },
        TokenType::Str | TokenType::Number | TokenType::True | TokenType::False | TokenType::Nil => {
            match literal_of(ts[p]) {
                Some(v) => (Ok(ExprV::Literal(v)), p + 1),
                None => (Err(ParseFailure::MissingLiteral(kind_at(ts, p))), p + 1),
            }
        },
        TokenType::Identifier => (Ok(ExprV::Variable(ts[p])), p + 1),
        _ => (Err(ParseFailure::Error(ParseError::ExpectedExpression { span: span_at(ts, p) })), p),
    }
}

/// The rest of an `if` expression, after `if`:
/// `condition { value } else { value }`.
pub open spec fn sp_if_expr(ts: Seq<Token>, p: int) -> Step<ExprV>
    decreases ts.len() - p, 29nat,
{
    match sp_expression(ts, p) {
        (Err(f), q) => (Err(f), q),
        (Ok(predicate), q) => if !moved(ts, p, q) {
            (Err(stalled(ts, q)), q)
        } else {
            match sp_consume(ts, q, TokenType::LeftBrace, Some("add '{' after the condition")) {
                (Err(f), r) => (Err(f), r),
                (Ok(_), _) => sp_if_then(ts, q + 1, predicate),
            }
        },
    }
}

/// The value of an `if` expression's first branch and its closing brace,
/// then the rest.
pub open spec fn sp_if_then(ts: Seq<Token>, p: int, predicate: ExprV) -> Step<ExprV>
    decreases ts.len() - p, 29nat,
{
    match sp_expression(ts, p) {
        (Err(f), r) => (Err(f), r),
        (Ok(then_expr), r) => if !moved(ts, p, r) {
            (Err(stalled(ts, r)), r)
        } else {
            match sp_consume(ts, r, TokenType::RightBrace, None) {
                (Err(f), u) => (Err(f), u),
                (Ok(_), _) => sp_if_else(ts, r + 1, predicate, then_expr),
            }
        },
    }
}

/// The `else` branch of an `if` expression, which it cannot do without.
pub open spec fn sp_if_else(ts: Seq<Token>, p: int, predicate: ExprV, then_expr: ExprV) -> Step<
    ExprV,
>
    decreases ts.len() - p, 29nat,
{
    if kind_at(ts, p) != TokenType::Else {
        (Err(ParseFailure::Error(ParseError::IfExprRequiresElse { span: span_at(ts, p - 1) })), p)
    } else {
        match sp_consume(ts, p + 1, TokenType::LeftBrace, Some("add '{' after the else keyword")) {
            (Err(f), u) => (Err(f), u),
            (Ok(_), _) => match sp_expression(ts, p + 2) {
                (Err(f), u) => (Err(f), u),
                (Ok(else_expr), u) => match sp_consume(ts, u, TokenType::RightBrace, None) {
                    (Err(f), w) => (Err(f), w),
                    (Ok(_), w) => (
                        Ok(
                            ExprV::IfExpr {
                                predicate: Box::new(predicate),
                                then_expr: Box::new(then_expr),
                                else_expr: Box::new(else_expr),
                            },
                        ),
                        w,
                    ),
                },
            },
        }
    }
}

/// The fields of a table constructor from `p` on, after `fields`, and its
/// closing brace; `open` is its opening brace. A table whose braces stand on
/// different lines is laid out over several lines.
pub open spec fn sp_table_rest(ts: Seq<Token>, p: int, fields: Seq<FieldV>, open: Token) -> Step<
    ExprV,
>
    decreases ts.len() - p, 27nat,
{
    if at_end(ts, p) || kind_at(ts, p) == TokenType::RightBrace {
        match sp_consume(ts, p, TokenType::RightBrace, Some("add a closing '}' to end the table")) {
            (Err(f), q) => (Err(f), q),
            (Ok(close), q) => (Ok(ExprV::Table { fields, multiline: close.line != open.line }), q),
        }
    } else {
        match sp_table_field(ts, p) {
            (Err(f), q) => (Err(f), q),
            (Ok(field), q) => if !moved(ts, p, q) {
                (Err(stalled(ts, q)), q)
            } else if kind_at(ts, q) == TokenType::Comma {
                sp_table_rest(ts, q + 1, fields.push(field), open)
            } else if kind_at(ts, q) != TokenType::RightBrace {
                (
                    Err(
                        ParseFailure::Error(
                            ParseError::TableExpectedComma { span: span_at(ts, q - 1) },
                        ),
                    ),
                    q,
                )
            } else {
                sp_table_rest(ts, q, fields.push(field), open)
            },
        }
    }
}

/// One table field: `name = value`, `[key] = value`, or a value.
pub open spec fn sp_table_field(ts: Seq<Token>, p: int) -> Step<FieldV>
    decreases ts.len() - p, 26nat,
{
    if kind_at(ts, p) == TokenType::Identifier && kind_at(ts, p + 1) == TokenType::Equal {
        match sp_expression(ts, p + 2) {
            (Err(f), q) => (Err(f), q),
            (Ok(value), q) => (Ok(FieldV { key: KeyV::Ident(ts[p]), value }), q),
        }
    } else if kind_at(ts, p) == TokenType::LeftBracket {
        sp_computed_field(ts, p + 1)
    } else {
        match sp_expression(ts, p) {
            (Err(f), q) => (Err(f), q),
            (Ok(value), q) => (Ok(FieldV { key: KeyV::Positional, value }), q),
        }
    }
}

/// A field with a computed key, after its `[`: `key] = value`.
pub open spec fn sp_computed_field(ts: Seq<Token>, p: int) -> Step<FieldV>
    decreases ts.len() - p, 26nat,
{
    match sp_expression(ts, p) {
        (Err(f), q) => (Err(f), q),
        (Ok(key), q) => if !moved(ts, p, q) {
            (Err(stalled(ts, q)), q)
        } else {
            match sp_consume(ts, q, TokenType::RightBracket, Some("close the computed key with ']'")) {
                (Err(f), r) => (Err(f), r),
                (Ok(_), _) => match sp_consume(
                    ts,
                    q + 1,
                    TokenType::Equal,
                    Some("a computed key needs '= value'"),
                ) {
                    (Err(f), r) => (Err(f), r),
                    (Ok(_), _) => match sp_expression(ts, q + 2) {
                        (Err(f), r) => (Err(f), r),
                        (Ok(value), r) => (Ok(FieldV { key: KeyV::Computed(key), value }), r),
                    },
                },
            }
        },
    }
}

/// The kinds a statement can start with, where recovery resumes.
pub open spec fn sync_point(t: TokenType) -> bool {
    t == TokenType::Let || t == TokenType::Const || t == TokenType::If || t == TokenType::While
        || t == TokenType::Loop || t == TokenType::Return
}

/// Where recovery after a diagnostic at `p` resumes: past at least one token,
/// at the next token that can start a statement, or at the end.
pub open spec fn sp_synchronize(ts: Seq<Token>, p: int) -> int
    decreases ts.len() - p,
{
    if at_end(ts, p) || p >= ts.len() {
        p
    } else if sync_point(kind_at(ts, p + 1)) {
        p + 1
    } else {
        sp_synchronize(ts, p + 1)
    }
}

/// Declarations from `p` to the end, after `stmts` and `errors`: every
/// diagnostic is kept, and parsing resumes past it. `Err(t)` where a literal
/// token of kind `t` lacks its value.
pub open spec fn sp_program(
    ts: Seq<Token>,
    p: int,
    stmts: Seq<StmtV>,
    errors: Seq<ParseError>,
) -> Result<(Seq<StmtV>, Seq<ParseError>), TokenType>
    decreases ts.len() - p, 33nat,
{
    if at_end(ts, p) {
        Ok((stmts, errors))
    } else {
        match sp_declaration(ts, p) {
            (Ok(s), q) => if moved(ts, p, q) {
                sp_program(ts, q, stmts.push(s), errors)
            } else {
                Ok((stmts, errors))
            },
            (Err(ParseFailure::Error(e)), q) => if p <= q && moved(ts, p, sp_synchronize(ts, q)) {
                sp_program(ts, sp_synchronize(ts, q), stmts, errors.push(e))
            } else {
                Ok((stmts, errors.push(e)))
            },
            (Err(ParseFailure::MissingLiteral(t)), _) => Err(t),
        }
    }
}

/// What parsing the tokens from `p` gives: `None` where it stops at a literal
/// token without its value; otherwise the statements, or every diagnostic
/// where there is at least one.
pub open spec fn parse_outcome(ts: Seq<Token>, p: int) -> Option<Result<Seq<StmtV>, Seq<ParseError>>> {
    match sp_program(ts, p, Seq::empty(), Seq::empty()) {
        Err(_) => None,
        Ok((stmts, errors)) => Some(
            if errors.len() == 0 {
                Ok(stmts)
            } else {
                Err(errors)
            },
        ),
    }
}

/// Whether some token of `tokens` is an `Eof`, which a parser needs to stop at.
pub fn has_eof(tokens: &Vec<Token>) -> (r: bool)
    ensures
        r == eof_ahead(tokens@, 0),
{
    let mut i: usize = 0;
    while i < tokens.len()
        invariant
            i <= tokens@.len(),
            forall|j: int| 0 <= j < i ==> tokens@[j].token_type != TokenType::Eof,
        decreases tokens.len() - i,
    {
        if tokens[i].token_type == TokenType::Eof {
            return true;
        }
        i = i + 1;
    }
    false
}

/// Turns a list of tokens into statements.
pub struct Parser {
    tokens: Vec<Token>,
    current: usize,
}

/// A parsing step with its value taken as a mathematical tree.
pub open spec fn expr_step(r: Result<Expr, ParseFailure>, at: int) -> Step<ExprV> {
    (
        match r {
            Ok(e) => Ok(e@),
            Err(f) => Err(f),
        },
        at,
    )
}

pub open spec fn stmt_step(r: Result<Statement, ParseFailure>, at: int) -> Step<StmtV> {
    (
        match r {
            Ok(s) => Ok(s@),
            Err(f) => Err(f),
        },
        at,
    )
}

pub open spec fn field_step(r: Result<TableField, ParseFailure>, at: int) -> Step<FieldV> {
    (
        match r {
            Ok(f) => Ok(f@),
            Err(e) => Err(e),
        },
        at,
    )
}

/// The parser moved forward over the same tokens and can go on.
pub open spec fn kept(before: Parser, after: Parser) -> bool {
    &&& after.wf()
    &&& after.tokens() == before.tokens()
    &&& before.position() <= after.position()
}

proof fn lemma_eof_ahead_step(ts: Seq<Token>, p: int)
    requires
        eof_ahead(ts, p),
        !at_end(ts, p),
    ensures
        eof_ahead(ts, p + 1),
        0 <= p < ts.len(),
{
    let e = choose|e: int| p <= e < ts.len() && #[trigger] ts[e].token_type == TokenType::Eof;
    assert(ts[e].token_type == TokenType::Eof);
}

proof fn lemma_eof_ahead_bound(ts: Seq<Token>, p: int)
    requires
        eof_ahead(ts, p),
    ensures
        p < ts.len(),
{
    let e = choose|e: int| p <= e < ts.len() && #[trigger] ts[e].token_type == TokenType::Eof;
    assert(ts[e].token_type == TokenType::Eof);
}

proof fn lemma_synchronize_moves(ts: Seq<Token>, q: int)
    ensures
        sp_synchronize(ts, q) >= q,
        !at_end(ts, q) && 0 <= q < ts.len() ==> sp_synchronize(ts, q) > q,
    decreases ts.len() - q,
{
    if !(at_end(ts, q) || q >= ts.len()) && !sync_point(kind_at(ts, q + 1)) {
        lemma_synchronize_moves(ts, q + 1);
    }
}

/// What a call of [`Parser::try_parse`] gave, as mathematical values.
pub open spec fn outcome_view(r: Option<Result<Vec<Statement>, CompileErrors<ParseError>>>) -> Option<
    Result<Seq<StmtV>, Seq<ParseError>>,
> {
    match r {
        None => None,
        Some(res) => Some(result_view(res)),
    }
}

/// What a call of [`Parser::parse`] gave, as mathematical values.
pub open spec fn result_view(r: Result<Vec<Statement>, CompileErrors<ParseError>>) -> Result<
    Seq<StmtV>,
    Seq<ParseError>,
> {
    match r {
        Ok(v) => Ok(stmts_view(v@)),
        Err(e) => Err(e.errors@),
    }
}

impl Parser {
    /// The tokens being parsed.
    pub closed spec fn tokens(&self) -> Seq<Token> {
        self.tokens@
    }

    /// The index of the next token to read.
    pub closed spec fn position(&self) -> int {
        self.current as int
    }

    /// An `Eof` token lies ahead, where parsing stops.
    pub open spec fn wf(&self) -> bool {
        self.position() >= 0 && eof_ahead(self.tokens(), self.position())
    }

    pub fn new(tokens: Vec<Token>) -> (r: Self)
        ensures
            r.tokens() == tokens@,
            r.position() == 0,
    {
        Self { tokens, current: 0 }
    }

    /// Parses every declaration up to the end; after a diagnostic, skips to
    /// where a statement can start and goes on. `None` where a literal token
    /// lacks its value.
    pub fn try_parse(&mut self) -> (r: Option<Result<Vec<Statement>, CompileErrors<ParseError>>>)
        requires
            old(self).wf(),
        ensures
            outcome_view(r) == parse_outcome(old(self).tokens(), old(self).position()),
            r matches Some(Err(e)) ==> e.errors.len() > 0,
    {
        let ghost ts = self.tokens();
        let ghost p0 = self.position();
        let mut statements: Vec<Statement> = Vec::new();
        let mut errors: Vec<ParseError> = Vec::new();
        assert(stmts_view(statements@) =~= Seq::<StmtV>::empty());
        assert(errors@ =~= Seq::<ParseError>::empty());
        while !self.is_at_end()
            invariant
                self.wf(),
                self.tokens() == ts,
                ts == old(self).tokens(),
                p0 == old(self).position(),
                sp_program(ts, p0, Seq::empty(), Seq::empty()) == sp_program(
                    ts,
                    self.position(),
                    stmts_view(statements@),
                    errors@,
                ),
            decreases ts.len() - self.position(),
        {
            let ghost p = self.position();
            match self.declaration() {
                Ok(s) => {
                    let ghost before = statements@;
                    statements.push(s);
                    proof {
                        assert(statements@.drop_last() =~= before);
                    }
                },
                Err(ParseFailure::Error(e)) => {
                    let ghost q = self.position();
                    errors.push(e);
                    self.synchronize();
                    proof {
                        lemma_synchronize_moves(ts, q);
                        lemma_synchronize_moves(ts, p);
                    }
                },
                Err(ParseFailure::MissingLiteral(_)) => {
                    return None;
                },
            }
        }
        if errors.len() == 0 {
            Some(Ok(statements))
        } else {
            Some(Err(CompileErrors::new(errors)))
        }
    }

    /// Parses every declaration up to the end; every diagnostic is kept, and
    /// parsing goes on after each.
    pub fn parse(&mut self) -> (r: Result<Vec<Statement>, CompileErrors<ParseError>>)
        requires
            old(self).wf(),
            parse_outcome(old(self).tokens(), old(self).position()) is Some,
        ensures
            parse_outcome(old(self).tokens(), old(self).position()) == Some(result_view(r)),
            r matches Err(e) ==> e.errors.len() > 0,
    {
        match self.try_parse() {
            Some(r) => r,
            None => {
                assert(false);
                Ok(Vec::new())
            },
        }
    }

    /// One expression; `None` where a literal token lacks its value.
    pub fn try_expression(&mut self) -> (r: Option<Result<Expr, ParseError>>)
        requires
            old(self).wf(),
        ensures
            kept(*old(self), *final(self)),
            match sp_expression(old(self).tokens(), old(self).position()) {
                (Err(ParseFailure::MissingLiteral(_)), _) => r is None,
                (Ok(e), q) => r matches Some(Ok(x)) && x@ == e && final(self).position() == q,
                (Err(ParseFailure::Error(e)), q) => r == Some(Err::<Expr, ParseError>(e))
                    && final(self).position() == q,
            },
    {
        match self.assignment() {
            Ok(e) => Some(Ok(e)),
            Err(ParseFailure::Error(e)) => Some(Err(e)),
            Err(ParseFailure::MissingLiteral(_)) => None,
        }
    }

    /// One expression.
    pub fn expression(&mut self) -> (r: Result<Expr, ParseError>)
        requires
            old(self).wf(),
            !(sp_expression(old(self).tokens(), old(self).position()).0 matches Err(
                ParseFailure::MissingLiteral(_),
            )),
        ensures
            kept(*old(self), *final(self)),
            (match r {
                Ok(e) => Ok::<ExprV, ParseFailure>(e@),
                Err(e) => Err(ParseFailure::Error(e)),
            }, final(self).position()) == sp_expression(old(self).tokens(), old(self).position()),
    {
        match self.assignment() {
            Ok(e) => Ok(e),
            Err(ParseFailure::Error(e)) => Err(e),
            Err(ParseFailure::MissingLiteral(_)) => {
                assert(false);
                Err(ParseError::ExpectedExpression { span: self.peek_span() })
            },
        }
    }

    fn kind(&self) -> (r: TokenType)
        requires
            self.wf(),
        ensures
            r == kind_at(self.tokens(), self.position()),
    {
        proof {
            lemma_eof_ahead_bound(self.tokens@, self.current as int);
        }
        self.tokens[self.current].token_type
    }

    fn is_at_end(&self) -> (r: bool)
        requires
            self.wf(),
        ensures
            r == at_end(self.tokens(), self.position()),
    {
        self.kind() == TokenType::Eof
    }

    fn peek(&self) -> (r: Token)
        requires
            self.wf(),
        ensures
            r == self.tokens()[self.position()],
    {
        proof {
            lemma_eof_ahead_bound(self.tokens@, self.current as int);
        }
        self.tokens[self.current].clone()
    }

    fn peek_span(&self) -> (r: Span)
        requires
            self.wf(),
        ensures
            r == span_at(self.tokens(), self.position()),
    {
        proof {
            lemma_eof_ahead_bound(self.tokens@, self.current as int);
        }
        self.tokens[self.current].span()
    }

    /// The kind of the token after the next one (the last token's kind at the end).
    fn peek_next_kind(&self) -> (r: TokenType)
        requires
            self.wf(),
            !at_end(self.tokens(), self.position()),
        ensures
            r == kind_at(self.tokens(), self.position() + 1),
    {
        proof {
            lemma_eof_ahead_step(self.tokens@, self.current as int);
            lemma_eof_ahead_bound(self.tokens@, self.current + 1);
        }
        assert(self.current < self.tokens.len());
        let i = if self.current + 1 < self.tokens.len() {
            self.current + 1
        } else {
            self.tokens.len() - 1
        };
        self.tokens[i].token_type
    }

    fn previous(&self) -> (r: Token)
        requires
            1 <= self.position() <= self.tokens().len(),
        ensures
            r == self.tokens()[self.position() - 1],
    {
        self.tokens[self.current - 1].clone()
    }

    fn advance(&mut self) -> (r: Token)
        requires
            old(self).wf(),
            !at_end(old(self).tokens(), old(self).position()),
        ensures
            kept(*old(self), *final(self)),
            final(self).position() == old(self).position() + 1,
            r == old(self).tokens()[old(self).position()],
    {
        proof {
            lemma_eof_ahead_step(self.tokens@, self.current as int);
        }
        assert(self.current < self.tokens.len());
        self.current = self.current + 1;
        self.previous()
    }

    fn match_token(&mut self, t: TokenType) -> (r: bool)
        requires
            old(self).wf(),
            t != TokenType::Eof,
        ensures
            kept(*old(self), *final(self)),
            r == (kind_at(old(self).tokens(), old(self).position()) == t),
            final(self).position() == if r {
                old(self).position() + 1
            } else {
                old(self).position()
            },
    {
        if self.is_at_end() {
            false
        } else if self.kind() == t {
            self.advance();
            true
        } else {
            false
        }
    }

    /// Reads the next token if its kind is one of `types`.
    fn match_tokens(&mut self, types: &[TokenType]) -> (r: bool)
        requires
            old(self).wf(),
            !types@.contains(TokenType::Eof),
        ensures
            kept(*old(self), *final(self)),
            r == types@.contains(kind_at(old(self).tokens(), old(self).position())),
            final(self).position() == if r {
                old(self).position() + 1
            } else {
                old(self).position()
            },
    {
        let ghost k = kind_at(self.tokens(), self.position());
        let mut i: usize = 0;
        while i < types.len()
            invariant
                i <= types@.len(),
                self.wf(),
                self.tokens() == old(self).tokens(),
                self.position() == old(self).position(),
                k == kind_at(self.tokens(), self.position()),
                !types@.contains(TokenType::Eof),
                forall|j: int| 0 <= j < i ==> types@[j] != k,
            decreases types.len() - i,
        {
            if self.match_token(types[i]) {
                return true;
            }
            i = i + 1;
        }
        false
    }

    fn consume_with(&mut self, t: TokenType, advice: Option<&'static str>) -> (r: Result<
        Token,
        ParseFailure,
    >)
        requires
            old(self).wf(),
            t != TokenType::Eof,
        ensures
            kept(*old(self), *final(self)),
            (r, final(self).position()) == sp_consume(
                old(self).tokens(),
                old(self).position(),
                t,
                advice,
            ),
    {
        if self.kind() == t {
            Ok(self.advance())
        } else {
            Err(
                ParseFailure::Error(
                    ParseError::ExpectedToken {
                        expected: t,
                        found: self.kind(),
                        span: self.peek_span(),
                        advice,
                    },
                ),
            )
        }
    }

    fn consume(&mut self, t: TokenType) -> (r: Result<Token, ParseFailure>)
        requires
            old(self).wf(),
            t != TokenType::Eof,
        ensures
            kept(*old(self), *final(self)),
            (r, final(self).position()) == sp_consume(
                old(self).tokens(),
                old(self).position(),
                t,
                None,
            ),
    {
        self.consume_with(t, None)
    }

    /// A literal, a name, a parenthesized expression, a table or an `if` expression.
    fn primary(&mut self) -> (r: Result<Expr, ParseFailure>)
        requires
            old(self).wf(),
        ensures
            kept(*old(self), *final(self)),
            r is Ok ==> old(self).position() < final(self).position(),
            expr_step(r, final(self).position()) == sp_primary(old(self).tokens(), old(self).position()),
        decreases old(self).tokens().len() - old(self).position(), 10nat,
    {
        let k = self.kind();
        match k {
            TokenType::If => {
                self.advance();
                self.if_expr()
            },
            TokenType::LeftBrace => {
                let open = self.advance();
                self.table_rest(open)
            },
            TokenType::LeftParen => {
                self.advance();
                let e = match self.assignment() {
                    Ok(e) => e,
                    Err(f) => return Err(f),
                };
                match self.consume(TokenType::RightParen) {
                    Ok(_) => Ok(Expr::Grouping(Box::new(e))),
                    Err(f) => Err(f),
                }
            },
            TokenType::Str | TokenType::Number | TokenType::True | TokenType::False
            | TokenType::Nil => {
                let token = self.advance();
                match token.literal_value() {
                    Some(v) => Ok(Expr::Literal(v)),
                    None => Err(ParseFailure::MissingLiteral(k)),
                }
            },
            TokenType::Identifier => {
                let name = self.advance();
                Ok(Expr::Variable(name))
            },
            _ => Err(ParseFailure::Error(ParseError::ExpectedExpression { span: self.peek_span() })),
        }
    }

    /// `!` or `-` applied to a unary expression, or a primary expression.
    fn unary(&mut self) -> (r: Result<Expr, ParseFailure>)
        requires
            old(self).wf(),
        ensures
            kept(*old(self), *final(self)),
            r is Ok ==> old(self).position() < final(self).position(),
            expr_step(r, final(self).position()) == sp_unary(old(self).tokens(), old(self).position()),
        decreases old(self).tokens().len() - old(self).position(), 11nat,
    {
        let ops = [TokenType::Bang, TokenType::Minus];
        assert(ops@ =~= seq![TokenType::Bang, TokenType::Minus]);
        if self.match_tokens(&ops) {
            let operator = self.previous();
            match self.unary() {
                Ok(right) => Ok(Expr::Unary { operator, right: Box::new(right) }),
                Err(f) => Err(f),
            }
        } else {
            self.primary()
        }
    }

    /// Operands joined by `||`.
    fn or(&mut self) -> (r: Result<Expr, ParseFailure>)
        requires
            old(self).wf(),
        ensures
            kept(*old(self), *final(self)),
            r is Ok ==> old(self).position() < final(self).position(),
            expr_step(r, final(self).position()) == sp_binary(old(self).tokens(), old(self).position(), 0),
        decreases old(self).tokens().len() - old(self).position(), 41nat,
    {
        self.binary(0)
    }

    /// Operands joined by `&&`.
    fn and(&mut self) -> (r: Result<Expr, ParseFailure>)
        requires
            old(self).wf(),
        ensures
            kept(*old(self), *final(self)),
            r is Ok ==> old(self).position() < final(self).position(),
            expr_step(r, final(self).position()) == sp_binary(old(self).tokens(), old(self).position(), 1),
        decreases old(self).tokens().len() - old(self).position(), 38nat,
    {
        self.binary(1)
    }

    /// Operands joined by `==` or `!=`.
    fn equality(&mut self) -> (r: Result<Expr, ParseFailure>)
        requires
            old(self).wf(),
        ensures
            kept(*old(self), *final(self)),
            r is Ok ==> old(self).position() < final(self).position(),
            expr_step(r, final(self).position()) == sp_binary(old(self).tokens(), old(self).position(), 2),
        decreases old(self).tokens().len() - old(self).position(), 35nat,
    {
        self.binary(2)
    }

    /// Operands joined by `>`, `>=`, `<` or `<=`.
    fn comparison(&mut self) -> (r: Result<Expr, ParseFailure>)
        requires
            old(self).wf(),
        ensures
            kept(*old(self), *final(self)),
            r is Ok ==> old(self).position() < final(self).position(),
            expr_step(r, final(self).position()) == sp_binary(old(self).tokens(), old(self).position(), 3),
        decreases old(self).tokens().len() - old(self).position(), 32nat,
    {
        self.binary(3)
    }

    /// Operands joined by `+` or `-`.
    fn term(&mut self) -> (r: Result<Expr, ParseFailure>)
        requires
            old(self).wf(),
        ensures
            kept(*old(self), *final(self)),
            r is Ok ==> old(self).position() < final(self).position(),
            expr_step(r, final(self).position()) == sp_binary(old(self).tokens(), old(self).position(), 4),
        decreases old(self).tokens().len() - old(self).position(), 29nat,
    {
        self.binary(4)
    }

    /// Operands joined by `*` or `/`.
    fn factor(&mut self) -> (r: Result<Expr, ParseFailure>)
        requires
            old(self).wf(),
        ensures
            kept(*old(self), *final(self)),
            r is Ok ==> old(self).position() < final(self).position(),
            expr_step(r, final(self).position()) == sp_binary(old(self).tokens(), old(self).position(), 5),
        decreases old(self).tokens().len() - old(self).position(), 26nat,
    {
        self.binary(5)
    }

    /// An operand of the binary level `k`.
    fn operand(&mut self, k: usize) -> (r: Result<Expr, ParseFailure>)
        requires
            old(self).wf(),
            k <= 5,
        ensures
            kept(*old(self), *final(self)),
            r is Ok ==> old(self).position() < final(self).position(),
            expr_step(r, final(self).position()) == (if k >= 5 { sp_unary(old(self).tokens(), old(self).position()) } else { sp_binary(old(self).tokens(), old(self).position(), (k + 1) as nat) }),
        decreases old(self).tokens().len() - old(self).position(), (39 - 3 * k) as nat,
    {
        if k == 0 {
            self.and()
        } else if k == 1 {
            self.equality()
        } else if k == 2 {
            self.comparison()
        } else if k == 3 {
            self.term()
        } else if k == 4 {
            self.factor()
        } else {
            self.unary()
        }
    }

    /// A left-associative chain of operands joined by the operators of level `k`.
    fn binary(&mut self, k: usize) -> (r: Result<Expr, ParseFailure>)
        requires
            old(self).wf(),
            k <= 5,
        ensures
            kept(*old(self), *final(self)),
            r is Ok ==> old(self).position() < final(self).position(),
            expr_step(r, final(self).position()) == sp_binary(old(self).tokens(), old(self).position(), k as nat),
        decreases old(self).tokens().len() - old(self).position(), (40 - 3 * k) as nat,
    {
        let ghost ts = self.tokens();
        let ghost p0 = self.position();
        let mut expr = match self.operand(k) {
            Ok(e) => e,
            Err(f) => return Err(f),
        };
        while level_op(k, self.kind())
            invariant
                k <= 5,
                self.wf(),
                self.tokens() == ts,
                ts == old(self).tokens(),
                p0 == old(self).position(),
                p0 < self.position(),
                sp_binary(ts, p0, k as nat) == sp_binary_rest(ts, self.position(), k as nat, expr@),
            decreases ts.len() - self.position(),
        {
            let ghost p = self.position();
            let operator = self.advance();
            let right = match self.operand(k) {
                Ok(e) => e,
                Err(f) => return Err(f),
            };
            expr = Expr::Binary { left: Box::new(expr), operator, right: Box::new(right) };
        }
        Ok(expr)
    }

    /// `name = value`, or an operand of `||`.
    fn assignment(&mut self) -> (r: Result<Expr, ParseFailure>)
        requires
            old(self).wf(),
        ensures
            kept(*old(self), *final(self)),
            r is Ok ==> old(self).position() < final(self).position(),
            expr_step(r, final(self).position()) == sp_assignment(old(self).tokens(), old(self).position()),
        decreases old(self).tokens().len() - old(self).position(), 42nat,
    {
        let target = match self.or() {
            Ok(e) => e,
            Err(f) => return Err(f),
        };
        if self.kind() == TokenType::Equal {
            let eq_tok = self.advance();
            let value = match self.or() {
                Ok(e) => e,
                Err(f) => return Err(f),
            };
            if self.kind() == TokenType::Equal {
                return Err(
                    ParseFailure::Error(ParseError::ChainedAssignment { span: self.peek_span() }),
                );
            }
            match target {
                Expr::Variable(name) => Ok(Expr::Assign { name, value: Box::new(value) }),
                _ => Err(
                    ParseFailure::Error(ParseError::InvalidAssignTarget { span: eq_tok.span() }),
                ),
            }
        } else {
            Ok(target)
        }
    }

    /// The rest of an `if` expression, after `if`.
    fn if_expr(&mut self) -> (r: Result<Expr, ParseFailure>)
        requires
            old(self).wf(),
        ensures
            kept(*old(self), *final(self)),
            r is Ok ==> old(self).position() < final(self).position(),
            expr_step(r, final(self).position()) == sp_if_expr(old(self).tokens(), old(self).position()),
        decreases old(self).tokens().len() - old(self).position(), 47nat,
    {
        let predicate = match self.assignment() {
            Ok(e) => e,
            Err(f) => return Err(f),
        };
        match self.consume_with(TokenType::LeftBrace, Some("add '{' after the condition")) {
            Ok(_) => {},
            Err(f) => return Err(f),
        }
        self.if_then(predicate)
    }

    /// The first branch of an `if` expression and the rest, after its `{`.
    fn if_then(&mut self, predicate: Expr) -> (r: Result<Expr, ParseFailure>)
        requires
            old(self).wf(),
        ensures
            kept(*old(self), *final(self)),
            r is Ok ==> old(self).position() < final(self).position(),
            expr_step(r, final(self).position()) == sp_if_then(old(self).tokens(), old(self).position(), predicate@),
        decreases old(self).tokens().len() - old(self).position(), 46nat,
    {
        let then_expr = match self.assignment() {
            Ok(e) => e,
            Err(f) => return Err(f),
        };
        match self.consume(TokenType::RightBrace) {
            Ok(_) => {},
            Err(f) => return Err(f),
        }
        self.if_else(predicate, then_expr)
    }

    /// The `else` branch of an `if` expression, after the first branch.
    fn if_else(&mut self, predicate: Expr, then_expr: Expr) -> (r: Result<Expr, ParseFailure>)
        requires
            old(self).wf(),
            1 <= old(self).position(),
        ensures
            kept(*old(self), *final(self)),
            r is Ok ==> old(self).position() < final(self).position(),
            expr_step(r, final(self).position()) == sp_if_else(old(self).tokens(), old(self).position(), predicate@, then_expr@),
        decreases old(self).tokens().len() - old(self).position(), 45nat,
    {
        proof {
            lemma_eof_ahead_bound(self.tokens@, self.current as int);
        }
        if !self.match_token(TokenType::Else) {
            return Err(
                ParseFailure::Error(ParseError::IfExprRequiresElse { span: self.previous().span() }),
            );
        }
        match self.consume_with(TokenType::LeftBrace, Some("add '{' after the else keyword")) {
            Ok(_) => {},
            Err(f) => return Err(f),
        }
        let else_expr = match self.assignment() {
            Ok(e) => e,
            Err(f) => return Err(f),
        };
        match self.consume(TokenType::RightBrace) {
            Ok(_) => Ok(
                Expr::IfExpr {
                    predicate: Box::new(predicate),
                    then_expr: Box::new(then_expr),
                    else_expr: Box::new(else_expr),
                },
            ),
            Err(f) => Err(f),
        }
    }

    /// The fields of a table and its closing brace, after its opening brace `open`.
    fn table_rest(&mut self, open: Token) -> (r: Result<Expr, ParseFailure>)
        requires
            old(self).wf(),
        ensures
            kept(*old(self), *final(self)),
            r is Ok ==> old(self).position() < final(self).position(),
            expr_step(r, final(self).position()) == sp_table_rest(old(self).tokens(), old(self).position(), Seq::empty(), open),
        decreases old(self).tokens().len() - old(self).position(), 45nat,
    {
        let ghost ts = self.tokens();
        let ghost p0 = self.position();
        let mut fields: Vec<TableField> = Vec::new();
        while !self.is_at_end() && self.kind() != TokenType::RightBrace
            invariant
                self.wf(),
                self.tokens() == ts,
                ts == old(self).tokens(),
                p0 == old(self).position(),
                p0 <= self.position(),
                sp_table_rest(ts, p0, Seq::empty(), open) == sp_table_rest(
                    ts,
                    self.position(),
                    fields_view(fields@),
                    open,
                ),
            decreases ts.len() - self.position(),
        {
            let field = match self.table_field() {
                Ok(f) => f,
                Err(e) => return Err(e),
            };
            let ghost before = fields@;
            fields.push(field);
            proof {
                assert(fields@.drop_last() =~= before);
            }
            if self.match_token(TokenType::Comma) {
                continue ;
            }
            if self.kind() != TokenType::RightBrace {
                return Err(
                    ParseFailure::Error(
                        ParseError::TableExpectedComma { span: self.previous().span() },
                    ),
                );
            }
        }
        let close = match self.consume_with(
            TokenType::RightBrace,
            Some("add a closing '}' to end the table"),
        ) {
            Ok(t) => t,
            Err(f) => return Err(f),
        };
        Ok(Expr::Table { fields, multiline: close.line != open.line })
    }

    /// One table field: `name = value`, `[key] = value`, or a value.
    fn table_field(&mut self) -> (r: Result<TableField, ParseFailure>)
        requires
            old(self).wf(),
        ensures
            kept(*old(self), *final(self)),
            r is Ok ==> old(self).position() < final(self).position(),
            field_step(r, final(self).position()) == sp_table_field(old(self).tokens(), old(self).position()),
        decreases old(self).tokens().len() - old(self).position(), 44nat,
    {
        if self.kind() == TokenType::Identifier && self.peek_next_kind() == TokenType::Equal {
            let name = self.advance();
            self.advance();
            return match self.assignment() {
                Ok(value) => Ok(TableField { key: TableKey::Ident(name), value }),
                Err(f) => Err(f),
            };
        }
        if self.kind() == TokenType::LeftBracket {
            self.advance();
            return self.computed_field();
        }
        match self.assignment() {
            Ok(value) => Ok(TableField { key: TableKey::Positional, value }),
            Err(f) => Err(f),
        }
    }

    /// A field with a computed key, after its `[`.
    fn computed_field(&mut self) -> (r: Result<TableField, ParseFailure>)
        requires
            old(self).wf(),
        ensures
            kept(*old(self), *final(self)),
            r is Ok ==> old(self).position() < final(self).position(),
            field_step(r, final(self).position()) == sp_computed_field(old(self).tokens(), old(self).position()),
        decreases old(self).tokens().len() - old(self).position(), 43nat,
    {
        let key = match self.assignment() {
            Ok(e) => e,
            Err(f) => return Err(f),
        };
        match self.consume_with(TokenType::RightBracket, Some("close the computed key with ']'")) {
            Ok(_) => {},
            Err(f) => return Err(f),
        }
        match self.consume_with(TokenType::Equal, Some("a computed key needs '= value'")) {
            Ok(_) => {},
            Err(f) => return Err(f),
        }
        match self.assignment() {
            Ok(value) => Ok(TableField { key: TableKey::Computed(key), value }),
            Err(f) => Err(f),
        }
    }

    /// A declaration (`let`, `const`) or a statement.
    fn declaration(&mut self) -> (r: Result<Statement, ParseFailure>)
        requires
            old(self).wf(),
        ensures
            kept(*old(self), *final(self)),
            r is Ok ==> old(self).position() < final(self).position(),
            stmt_step(r, final(self).position()) == sp_declaration(old(self).tokens(), old(self).position()),
        decreases old(self).tokens().len() - old(self).position(), 53nat,
    {
        if self.match_token(TokenType::Let) {
            self.var_declaration(VarKind::Let)
        } else if self.match_token(TokenType::Const) {
            self.var_declaration(VarKind::Const)
        } else {
            self.statement()
        }
    }

    /// The rest of a declaration after `let` or `const`: a name, then `= value`
    /// (which a `const` cannot do without).
    fn var_declaration(&mut self, kind: VarKind) -> (r: Result<Statement, ParseFailure>)
        requires
            old(self).wf(),
        ensures
            kept(*old(self), *final(self)),
            r is Ok ==> old(self).position() < final(self).position(),
            stmt_step(r, final(self).position()) == sp_var_declaration(old(self).tokens(), old(self).position(), kind),
        decreases old(self).tokens().len() - old(self).position(), 53nat,
    {
        let name = match self.consume(TokenType::Identifier) {
            Ok(t) => t,
            Err(f) => return Err(f),
        };
        if self.match_token(TokenType::Equal) {
            match self.assignment() {
                Ok(e) => Ok(Statement::Variable { name, init: Some(e), kind }),
                Err(f) => Err(f),
            }
        } else if kind == VarKind::Const {
            Err(
                ParseFailure::Error(
                    ParseError::ConstRequiresInitializer { span: self.previous().span() },
                ),
            )
        } else {
            Ok(Statement::Variable { name, init: None, kind })
        }
    }

    /// A statement that is not a declaration.
    fn statement(&mut self) -> (r: Result<Statement, ParseFailure>)
        requires
            old(self).wf(),
        ensures
            kept(*old(self), *final(self)),
            r is Ok ==> old(self).position() < final(self).position(),
            stmt_step(r, final(self).position()) == sp_statement(old(self).tokens(), old(self).position()),
        decreases old(self).tokens().len() - old(self).position(), 52nat,
    {
        match self.kind() {
            TokenType::If => {
                self.advance();
                self.if_statement()
            },
            TokenType::While => {
                self.advance();
                self.while_statement()
            },
            TokenType::Loop => {
                self.advance();
                self.loop_statement()
            },
            TokenType::Return => {
                self.advance();
                self.return_statement()
            },
            TokenType::For => {
                self.advance();
                self.for_statement()
            },
            TokenType::Continue => {
                self.advance();
                Ok(Statement::Continue)
            },
            TokenType::Break => {
                self.advance();
                Ok(Statement::Break)
            },
            _ => self.expression_statement(),
        }
    }

    /// `{ declarations }`.
    fn block(&mut self) -> (r: Result<Statement, ParseFailure>)
        requires
            old(self).wf(),
        ensures
            kept(*old(self), *final(self)),
            r is Ok ==> old(self).position() < final(self).position(),
            stmt_step(r, final(self).position()) == sp_block(old(self).tokens(), old(self).position()),
        decreases old(self).tokens().len() - old(self).position(), 50nat,
    {
        match self.consume_with(TokenType::LeftBrace, Some("add an opening '{' to start the block")) {
            Ok(_) => {},
            Err(f) => return Err(f),
        }
        self.block_rest()
    }

    /// The declarations of a block and its closing brace, after its `{`.
    fn block_rest(&mut self) -> (r: Result<Statement, ParseFailure>)
        requires
            old(self).wf(),
        ensures
            kept(*old(self), *final(self)),
            r is Ok ==> old(self).position() < final(self).position(),
            stmt_step(r, final(self).position()) == sp_block_rest(old(self).tokens(), old(self).position(), Seq::empty()),
        decreases old(self).tokens().len() - old(self).position(), 54nat,
    {
        let ghost ts = self.tokens();
        let ghost p0 = self.position();
        let mut statements: Vec<Statement> = Vec::new();
        assert(stmts_view(statements@) =~= Seq::<StmtV>::empty());
        while !self.is_at_end() && self.kind() != TokenType::RightBrace
            invariant
                self.wf(),
                self.tokens() == ts,
                ts == old(self).tokens(),
                p0 == old(self).position(),
                p0 <= self.position(),
                sp_block_rest(ts, p0, Seq::empty()) == sp_block_rest(
                    ts,
                    self.position(),
                    stmts_view(statements@),
                ),
            decreases ts.len() - self.position(),
        {
            let s = match self.declaration() {
                Ok(s) => s,
                Err(f) => return Err(f),
            };
            let ghost before = statements@;
            statements.push(s);
            proof {
                assert(statements@.drop_last() =~= before);
            }
        }
        match self.consume_with(TokenType::RightBrace, Some("add a closing '}' to end the block")) {
            Ok(_) => Ok(Statement::Block(statements)),
            Err(f) => Err(f),
        }
    }

    /// The body of an `if`: a block, or one declaration after `do`.
    fn then_branch(&mut self) -> (r: Result<Statement, ParseFailure>)
        requires
            old(self).wf(),
        ensures
            kept(*old(self), *final(self)),
            r is Ok ==> old(self).position() < final(self).position(),
            stmt_step(r, final(self).position()) == sp_then_branch(old(self).tokens(), old(self).position()),
        decreases old(self).tokens().len() - old(self).position(), 51nat,
    {
        if self.match_token(TokenType::Do) {
            self.declaration()
        } else {
            self.block()
        }
    }

    /// The rest of an `if` statement, after `if`.
    fn if_statement(&mut self) -> (r: Result<Statement, ParseFailure>)
        requires
            old(self).wf(),
        ensures
            kept(*old(self), *final(self)),
            r is Ok ==> old(self).position() < final(self).position(),
            stmt_step(r, final(self).position()) == sp_if_statement(old(self).tokens(), old(self).position()),
        decreases old(self).tokens().len() - old(self).position(), 51nat,
    {
        if self.kind() == TokenType::LeftBrace || self.is_at_end() {
            return Err(
                ParseFailure::Error(ParseError::IfMissingCondition { span: self.peek_span() }),
            );
        }
        let predicate = match self.assignment() {
            Ok(e) => e,
            Err(f) => return Err(f),
        };
        self.if_branches(predicate)
    }

    /// The body of an `if` statement and its `else` branch, if any.
    fn if_branches(&mut self, predicate: Expr) -> (r: Result<Statement, ParseFailure>)
        requires
            old(self).wf(),
        ensures
            kept(*old(self), *final(self)),
            r is Ok ==> old(self).position() < final(self).position(),
            stmt_step(r, final(self).position()) == sp_if_branches(old(self).tokens(), old(self).position(), predicate@),
        decreases old(self).tokens().len() - old(self).position(), 52nat,
    {
        let then = match self.then_branch() {
            Ok(s) => s,
            Err(f) => return Err(f),
        };
        if self.match_token(TokenType::Else) {
            match self.else_branch() {
                Ok(e) => {
                    let else_block = Some(Box::new(e));
                    assert(else_view(else_block) == Some(Box::new(e@)));
                    Ok(Statement::If { predicate, then: Box::new(then), else_block })
                },
                Err(f) => Err(f),
            }
        } else {
            let else_block: Option<Box<Statement>> = None;
            assert(else_view(else_block) == None::<Box<StmtV>>);
            Ok(Statement::If { predicate, then: Box::new(then), else_block })
        }
    }

    /// What follows `else`: another `if` statement, or a block.
    fn else_branch(&mut self) -> (r: Result<Statement, ParseFailure>)
        requires
            old(self).wf(),
        ensures
            kept(*old(self), *final(self)),
            r is Ok ==> old(self).position() < final(self).position(),
            stmt_step(r, final(self).position()) == sp_else_branch(old(self).tokens(), old(self).position()),
        decreases old(self).tokens().len() - old(self).position(), 51nat,
    {
        if self.match_token(TokenType::If) {
            self.if_statement()
        } else {
            self.block()
        }
    }

    /// The rest of a `while` loop, after `while`.
    fn while_statement(&mut self) -> (r: Result<Statement, ParseFailure>)
        requires
            old(self).wf(),
        ensures
            kept(*old(self), *final(self)),
            r is Ok ==> old(self).position() < final(self).position(),
            stmt_step(r, final(self).position()) == sp_while_statement(old(self).tokens(), old(self).position()),
        decreases old(self).tokens().len() - old(self).position(), 51nat,
    {
        if self.kind() == TokenType::LeftBrace || self.is_at_end() {
            return Err(
                ParseFailure::Error(ParseError::WhileMissingCondition { span: self.peek_span() }),
            );
        }
        let condition = match self.assignment() {
            Ok(e) => e,
            Err(f) => return Err(f),
        };
        match self.block() {
            Ok(body) => Ok(Statement::While { condition, body: Box::new(body) }),
            Err(f) => Err(f),
        }
    }

    /// The rest of a `loop`, after `loop`.
    fn loop_statement(&mut self) -> (r: Result<Statement, ParseFailure>)
        requires
            old(self).wf(),
        ensures
            kept(*old(self), *final(self)),
            r is Ok ==> old(self).position() < final(self).position(),
            stmt_step(r, final(self).position()) == sp_loop_statement(old(self).tokens(), old(self).position()),
        decreases old(self).tokens().len() - old(self).position(), 51nat,
    {
        match self.block() {
            Ok(body) => Ok(Statement::Loop(Box::new(body))),
            Err(f) => Err(f),
        }
    }

    /// The rest of a `return`, after `return`.
    fn return_statement(&mut self) -> (r: Result<Statement, ParseFailure>)
        requires
            old(self).wf(),
        ensures
            kept(*old(self), *final(self)),
            stmt_step(r, final(self).position()) == sp_return_statement(old(self).tokens(), old(self).position()),
        decreases old(self).tokens().len() - old(self).position(), 51nat,
    {
        if self.is_at_end() || self.kind() == TokenType::RightBrace {
            Ok(Statement::Return(None))
        } else {
            match self.assignment() {
                Ok(e) => Ok(Statement::Return(Some(e))),
                Err(f) => Err(f),
            }
        }
    }

    /// The rest of a `for` loop, after `for`: its variables and `in`, then the rest.
    fn for_statement(&mut self) -> (r: Result<Statement, ParseFailure>)
        requires
            old(self).wf(),
        ensures
            kept(*old(self), *final(self)),
            r is Ok ==> old(self).position() < final(self).position(),
            stmt_step(r, final(self).position()) == sp_for_statement(old(self).tokens(), old(self).position()),
        decreases old(self).tokens().len() - old(self).position(), 51nat,
    {
        let ghost ts = self.tokens();
        let ghost p0 = self.position();
        if self.kind() != TokenType::Identifier {
            return Err(ParseFailure::Error(ParseError::ForMissingVars { span: self.peek_span() }));
        }
        let first = self.advance();
        let mut names: Vec<Token> = Vec::new();
        names.push(first);
        assert(names@ =~= seq![ts[p0]]);
        while self.kind() == TokenType::Comma
            invariant
                self.wf(),
                self.tokens() == ts,
                ts == old(self).tokens(),
                p0 == old(self).position(),
                p0 < self.position(),
                sp_for_statement(ts, p0) == sp_for_names(ts, self.position(), names@),
            decreases ts.len() - self.position(),
        {
            self.advance();
            let name = match self.consume(TokenType::Identifier) {
                Ok(t) => t,
                Err(f) => return Err(f),
            };
            names.push(name);
        }
        match self.consume(TokenType::In) {
            Ok(_) => {},
            Err(f) => return Err(f),
        }
        self.for_iter(names)
    }

    /// What a `for` loop iterates over (an expression, or a range `a..b` or
    /// `a..=b`) and its body.
    fn for_iter(&mut self, names: Vec<Token>) -> (r: Result<Statement, ParseFailure>)
        requires
            old(self).wf(),
        ensures
            kept(*old(self), *final(self)),
            r is Ok ==> old(self).position() < final(self).position(),
            stmt_step(r, final(self).position()) == sp_for_iter(old(self).tokens(), old(self).position(), names@),
        decreases old(self).tokens().len() - old(self).position(), 51nat,
    {
        let iter = match self.assignment() {
            Ok(e) => e,
            Err(f) => return Err(f),
        };
        let k = self.kind();
        let iter = if k == TokenType::DotDot || k == TokenType::DotDotEqual {
            let operator = self.advance();
            let right = match self.assignment() {
                Ok(e) => e,
                Err(f) => return Err(f),
            };
            Expr::Binary { left: Box::new(iter), operator, right: Box::new(right) }
        } else {
            iter
        };
        match self.block() {
            Ok(body) => Ok(Statement::For { ident: names, iter, step: None, body: Box::new(body) }),
            Err(f) => Err(f),
        }
    }

    /// An expression used as a statement, which only an assignment can be.
    fn expression_statement(&mut self) -> (r: Result<Statement, ParseFailure>)
        requires
            old(self).wf(),
        ensures
            kept(*old(self), *final(self)),
            r is Ok ==> old(self).position() < final(self).position(),
            stmt_step(r, final(self).position()) == sp_expression_statement(old(self).tokens(), old(self).position()),
        decreases old(self).tokens().len() - old(self).position(), 50nat,
    {
        let e = match self.assignment() {
            Ok(e) => e,
            Err(f) => return Err(f),
        };
        let is_assign = match &e {
            Expr::Assign { .. } => true,
            _ => false,
        };
        if is_assign {
            Ok(Statement::Expression(e))
        } else {
            Err(
                ParseFailure::Error(
                    ParseError::ExpressionHasNoEffect { span: self.previous().span() },
                ),
            )
        }
    }

    /// Skips ahead to where a statement can start, after a diagnostic.
    fn synchronize(&mut self)
        requires
            old(self).wf(),
        ensures
            kept(*old(self), *final(self)),
            final(self).position() == sp_synchronize(old(self).tokens(), old(self).position()),
    {
        let ghost ts = self.tokens();
        let ghost target = sp_synchronize(ts, self.position());
        while !self.is_at_end()
            invariant
                self.wf(),
                self.tokens() == ts,
                old(self).position() <= self.position(),
                ts == old(self).tokens(),
                target == sp_synchronize(ts, old(self).position()),
                target == sp_synchronize(ts, self.position()),
            decreases ts.len() - self.position(),
        {
            let ghost before = self.position();
            proof {
                lemma_eof_ahead_bound(ts, self.position());
            }
            self.advance();
            proof {
                lemma_eof_ahead_bound(ts, self.position());
                assert(target == if sync_point(kind_at(ts, before + 1)) {
                    before + 1
                } else {
                    sp_synchronize(ts, before + 1)
                });
            }
            match self.kind() {
                TokenType::Let | TokenType::Const | TokenType::If | TokenType::While
                | TokenType::Loop | TokenType::Return => {
                    return ;
                },
                _ => {},
            }
        }
    }
}

/// Whether `t` is an operator of the binary level `k`.
fn level_op(k: usize, t: TokenType) -> (r: bool)
    requires
        k <= 5,
    ensures
        r == level_ops(k as nat).contains(t),
{
    let ghost ops = level_ops(k as nat);
    proof {
        assert(ops.contains(t) <==> exists|i: int| 0 <= i < ops.len() && ops[i] == t);
        assert(ops.len() <= 4);
        if ops.contains(t) {
            let i = choose|i: int| 0 <= i < ops.len() && ops[i] == t;
            assert(i == 0 || i == 1 || i == 2 || i == 3);
        }
        if ops.len() > 0 && ops[0] == t { assert(ops.contains(t)); }
        if ops.len() > 1 && ops[1] == t { assert(ops.contains(t)); }
        if ops.len() > 2 && ops[2] == t { assert(ops.contains(t)); }
        if ops.len() > 3 && ops[3] == t { assert(ops.contains(t)); }
    }
    if k == 0 {
        t == TokenType::Or
    } else if k == 1 {
        t == TokenType::And
    } else if k == 2 {
        t == TokenType::BangEqual || t == TokenType::EqualEqual
    } else if k == 3 {
        t == TokenType::Greater || t == TokenType::GreaterEqual || t == TokenType::Less || t
            == TokenType::LessEqual
    } else if k == 4 {
        t == TokenType::Minus || t == TokenType::Plus
    } else {
        t == TokenType::Slash || t == TokenType::Star
    }
}

} // verus!
