//! How the parser decides, as spec functions: what each rule of the grammar
//! yields at a token position, a tree and the position after it, or the
//! error for the token where it stops. Every choice looks at one token:
//! loops of binary operators run while the next token is one of their
//! operators, an `elif` or `else` belongs to the nearest `if`, and the
//! declarations end at the first token that is no type.
use crate::ast::{Declaration, Expr, ExprKind, Program, Statement, StmtKind, Type};
use crate::grammar::{error_at, ParseError};
use crate::lexer::Token;
use crate::syntax::{end_at, start_at, tok_is, type_token, Toks};
use std::ops::Range;
use vstd::prelude::*;

verus! {

/// A statement as the parser builds it, with its lists as sequences.
pub enum StmtShape {
    Assign(String, Expr),
    If(Expr, Box<StmtNode>, Seq<(Expr, StmtNode)>, Option<Box<StmtNode>>),
    For(String, Expr, Expr, Box<StmtNode>),
    Block(Seq<StmtNode>),
    Print(Expr),
    Break,
    Continue,
    Exit,
}

/// A statement and its span.
pub struct StmtNode {
    pub shape: StmtShape,
    pub span: Range<usize>,
}

/// A program as the parser builds it.
pub struct ProgramShape {
    pub declarations: Seq<Declaration>,
    pub instructions: Seq<StmtNode>,
}

/// The statement `s`, its lists taken as sequences.
pub open spec fn stmt_view(s: Statement) -> StmtNode
    decreases s, 1int,
{
    StmtNode {
        shape: match s.kind {
            StmtKind::Assign(id, e) => StmtShape::Assign(id, *e),
            StmtKind::If { condition, then_branch, elif_branches, else_branch } => StmtShape::If(
                *condition,
                Box::new(stmt_view(*then_branch)),
                elifs_view(elif_branches@, 0),
                match else_branch {
                    Some(b) => Some(Box::new(stmt_view(*b))),
                    None => None,
                },
            ),
            StmtKind::For { iterator, from, to, body } => StmtShape::For(
                iterator,
                *from,
                *to,
                Box::new(stmt_view(*body)),
            ),
            StmtKind::Block(v) => StmtShape::Block(stmts_view(v@, 0)),
            StmtKind::Print(e) => StmtShape::Print(*e),
            StmtKind::Break => StmtShape::Break,
            StmtKind::Continue => StmtShape::Continue,
            StmtKind::Exit => StmtShape::Exit,
        },
        span: s.span,
    }
}

pub open spec fn elifs_view(v: Seq<(Expr, Statement)>, i: int) -> Seq<(Expr, StmtNode)>
    decreases v, v.len() - i,
{
    if i < 0 || i >= v.len() {
        seq![]
    } else {
        seq![(v[i].0, stmt_view(v[i].1))] + elifs_view(v, i + 1)
    }
}

pub open spec fn stmts_view(v: Seq<Statement>, i: int) -> Seq<StmtNode>
    decreases v, v.len() - i,
{
    if i < 0 || i >= v.len() {
        seq![]
    } else {
        seq![stmt_view(v[i])] + stmts_view(v, i + 1)
    }
}

/// The program `p`, its lists taken as sequences.
pub open spec fn program_view(p: Program) -> ProgramShape {
    ProgramShape {
        declarations: p.declarations@,
        instructions: stmts_view(p.instructions@, 0),
    }
}

/// An expression node over the tokens `i..j`.
pub open spec fn node_at(tv: Toks, kind: ExprKind, i: int, j: int) -> Expr {
    Expr { kind, span: Range { start: start_at(tv, i), end: end_at(tv, j - 1) } }
}

/// A statement node over the tokens `i..j`.
pub open spec fn stmt_node_at(tv: Toks, shape: StmtShape, i: int, j: int) -> StmtNode {
    StmtNode { shape, span: Range { start: start_at(tv, i), end: end_at(tv, j - 1) } }
}

/// The binary node that the operator at token `k` builds at level `lvl`
/// (7 `or`, 6 `and`, 4 comparisons, 3 `+ -`, 2 `* / %`), if it is one of
/// that level's operators.
pub open spec fn binary_node(tv: Toks, lvl: int, k: int, a: Expr, b: Expr) -> Option<ExprKind> {
    let x = Box::new(a);
    let y = Box::new(b);
    if lvl == 7 && tok_is(tv, k, Token::Or) {
        Some(ExprKind::Or(x, y))
    } else if lvl == 6 && tok_is(tv, k, Token::And) {
        Some(ExprKind::And(x, y))
    } else if lvl == 4 && (tok_is(tv, k, Token::NumEq) || tok_is(tv, k, Token::StrEq)) {
        Some(ExprKind::Eq(x, y))
    } else if lvl == 4 && (tok_is(tv, k, Token::NumNeq) || tok_is(tv, k, Token::StrNeq)) {
        Some(ExprKind::Neq(x, y))
    } else if lvl == 4 && tok_is(tv, k, Token::Less) {
        Some(ExprKind::Less(x, y))
    } else if lvl == 4 && tok_is(tv, k, Token::LessEq) {
        Some(ExprKind::LessEq(x, y))
    } else if lvl == 4 && tok_is(tv, k, Token::Greater) {
        Some(ExprKind::Greater(x, y))
    } else if lvl == 4 && tok_is(tv, k, Token::GreaterEq) {
        Some(ExprKind::GreaterEq(x, y))
    } else if lvl == 3 && tok_is(tv, k, Token::Plus) {
        Some(ExprKind::Add(x, y))
    } else if lvl == 3 && tok_is(tv, k, Token::Minus) {
        Some(ExprKind::Sub(x, y))
    } else if lvl == 2 && tok_is(tv, k, Token::Star) {
        Some(ExprKind::Mul(x, y))
    } else if lvl == 2 && tok_is(tv, k, Token::Slash) {
        Some(ExprKind::Div(x, y))
    } else if lvl == 2 && tok_is(tv, k, Token::Percent) {
        Some(ExprKind::Mod(x, y))
    } else {
        None
    }
}

/// Token `k` is one of the operators of level `lvl`.
pub open spec fn is_binary_op(tv: Toks, lvl: int, k: int) -> bool {
    binary_node(tv, lvl, k, arbitrary(), arbitrary()) is Some
}

/// The operands of a binary level: the next tighter level.
pub open spec fn operand_lvl(lvl: int) -> int {
    if lvl == 4 {
        3
    } else if lvl == 6 {
        5
    } else {
        lvl - 1
    }
}

/// What parsing an expression of level `lvl` at token `i` yields (levels as
/// in the grammar: 8 a whole expression, 7 `or`, 6 `and`, 5 `not`,
/// 4 comparisons, 3 `+ -`, 2 `* / %`, 1 prefix `-`, 0 primaries).
pub open spec fn parse_expr_at(tv: Toks, lvl: int, i: int) -> Result<(Expr, int), ParseError>
    decreases tv.len() - i, lvl + 2, 0int,
{
    if i < 0 || i > tv.len() || lvl < 0 || lvl > 8 {
        Err(error_at(tv, i))
    } else if lvl == 8 {
        parse_expr_at(tv, 7, i)
    } else if lvl == 5 {
        if tok_is(tv, i, Token::Not) {
            match parse_expr_at(tv, 5, i + 1) {
                Err(e) => Err(e),
                Ok((a, j)) => Ok((node_at(tv, ExprKind::Not(Box::new(a)), i, j), j)),
            }
        } else {
            parse_expr_at(tv, 4, i)
        }
    } else if lvl == 1 {
        if tok_is(tv, i, Token::Minus) {
            match parse_expr_at(tv, 1, i + 1) {
                Err(e) => Err(e),
                Ok((a, j)) => {
                    let zero = node_at(tv, ExprKind::Number(0), i, i + 1);
                    Ok((node_at(tv, ExprKind::Sub(Box::new(zero), Box::new(a)), i, j), j))
                },
            }
        } else {
            parse_expr_at(tv, 0, i)
        }
    } else if lvl == 0 {
        parse_primary_at(tv, i)
    } else {
        match parse_expr_at(tv, operand_lvl(lvl), i) {
            Err(e) => Err(e),
            Ok((a, k)) => if i < k <= tv.len() {
                parse_tail_at(tv, lvl, i, a, k)
            } else {
                Err(error_at(tv, k))
            },
        }
    }
}

/// The rest of a chain of level `lvl` operators that started at token `i`,
/// with `left` built so far and the next token at `k`.
pub open spec fn parse_tail_at(tv: Toks, lvl: int, i: int, left: Expr, k: int) -> Result<
    (Expr, int),
    ParseError,
>
    decreases tv.len() - k, lvl + 2, 1int,
{
    if !(0 <= k <= tv.len()) || lvl < 0 || lvl > 8 || !is_binary_op(tv, lvl, k) {
        Ok((left, k))
    } else {
        match parse_expr_at(tv, operand_lvl(lvl), k + 1) {
            Err(e) => Err(e),
            Ok((b, m)) => if k + 1 < m <= tv.len() {
                match binary_node(tv, lvl, k, left, b) {
                    Some(kind) => parse_tail_at(tv, lvl, i, node_at(tv, kind, i, m), m),
                    None => Err(error_at(tv, k)),
                }
            } else {
                Err(error_at(tv, m))
            },
        }
    }
}

/// Token `k` is `t`: the position after it, or the error for token `k`.
pub open spec fn expect_at(tv: Toks, k: int, t: Token) -> Result<int, ParseError> {
    if tok_is(tv, k, t) {
        Ok(k + 1)
    } else {
        Err(error_at(tv, k))
    }
}

/// An expression and the `)` after it, from token `k`.
pub open spec fn parse_closed_at(tv: Toks, k: int) -> Result<(Expr, int), ParseError>
    decreases tv.len() - k, 11int, 0int,
{
    if k < 0 || k > tv.len() {
        Err(error_at(tv, k))
    } else {
        match parse_expr_at(tv, 8, k) {
            Err(e) => Err(e),
            Ok((e, m)) => match expect_at(tv, m, Token::RParen) {
                Err(err) => Err(err),
                Ok(j) => Ok((e, j)),
            },
        }
    }
}

/// An expression and the `,` after it, from token `k`.
pub open spec fn parse_arg_at(tv: Toks, k: int) -> Result<(Expr, int), ParseError>
    decreases tv.len() - k, 11int, 0int,
{
    if k < 0 || k > tv.len() {
        Err(error_at(tv, k))
    } else {
        match parse_expr_at(tv, 8, k) {
            Err(e) => Err(e),
            Ok((e, m)) => match expect_at(tv, m, Token::Comma) {
                Err(err) => Err(err),
                Ok(j) => Ok((e, j)),
            },
        }
    }
}

/// A leaf expression for token `i`, if it is one.
pub open spec fn leaf_kind(tv: Toks, i: int) -> Option<ExprKind> {
    if 0 <= i < tv.len() && tv[i] is Ok {
        match tv[i]->Ok_0.1 {
            Token::Num(n) => Some(ExprKind::Number(n)),
            Token::StringLit(x) => Some(ExprKind::StringLit(x)),
            Token::Ident(x) => Some(ExprKind::Identifier(x)),
            Token::True => Some(ExprKind::True),
            Token::False => Some(ExprKind::False),
            Token::ReadInt => Some(ExprKind::ReadInt),
            Token::ReadStr => Some(ExprKind::ReadStr),
            Token::ReadBool => Some(ExprKind::ReadBool),
            _ => None,
        }
    } else {
        None
    }
}

/// What parsing a primary expression at token `i` yields: a leaf, an
/// expression in parentheses, or a call of `length`, `concatenate`,
/// `position` or `substring`.
pub open spec fn parse_primary_at(tv: Toks, i: int) -> Result<(Expr, int), ParseError>
    decreases tv.len() - i, 1int, 1int,
{
    if i < 0 || i >= tv.len() {
        Err(error_at(tv, i))
    } else if leaf_kind(tv, i) is Some {
        Ok((node_at(tv, leaf_kind(tv, i)->0, i, i + 1), i + 1))
    } else if tok_is(tv, i, Token::LParen) {
        parse_closed_at(tv, i + 1)
    } else if tok_is(tv, i, Token::Length) {
        match expect_at(tv, i + 1, Token::LParen) {
            Err(e) => Err(e),
            Ok(k) => match parse_closed_at(tv, k) {
                Err(e) => Err(e),
                Ok((a, j)) => Ok((node_at(tv, ExprKind::Length(Box::new(a)), i, j), j)),
            },
        }
    } else if tok_is(tv, i, Token::Concatenate) || tok_is(tv, i, Token::Position) {
        match expect_at(tv, i + 1, Token::LParen) {
            Err(e) => Err(e),
            Ok(k) => match parse_arg_at(tv, k) {
                Err(e) => Err(e),
                Ok((a, k2)) => if k < k2 <= tv.len() {
                    match parse_closed_at(tv, k2) {
                        Err(e) => Err(e),
                        Ok((b, j)) => {
                            let kind = if tok_is(tv, i, Token::Concatenate) {
                                ExprKind::Concatenate(Box::new(a), Box::new(b))
                            } else {
                                ExprKind::Position(Box::new(a), Box::new(b))
                            };
                            Ok((node_at(tv, kind, i, j), j))
                        },
                    }
                } else {
                    Err(error_at(tv, k2))
                },
            },
        }
    } else if tok_is(tv, i, Token::Substring) {
        match expect_at(tv, i + 1, Token::LParen) {
            Err(e) => Err(e),
            Ok(k) => match parse_arg_at(tv, k) {
                Err(e) => Err(e),
                Ok((a, k2)) => if k < k2 <= tv.len() {
                    match parse_arg_at(tv, k2) {
                        Err(e) => Err(e),
                        Ok((b, k3)) => if k2 < k3 <= tv.len() {
                            match parse_closed_at(tv, k3) {
                                Err(e) => Err(e),
                                Ok((c, j)) => Ok(
                                    (
                                        node_at(
                                            tv,
                                            ExprKind::Substring(Box::new(a), Box::new(b), Box::new(c)),
                                            i,
                                            j,
                                        ),
                                        j,
                                    ),
                                ),
                            }
                        } else {
                            Err(error_at(tv, k3))
                        },
                    }
                } else {
                    Err(error_at(tv, k2))
                },
            },
        }
    } else {
        Err(error_at(tv, i))
    }
}


/// What parsing a statement at token `i` yields.
pub open spec fn parse_stmt_at(tv: Toks, i: int) -> Result<(StmtNode, int), ParseError>
    decreases tv.len() - i, 2int,
{
    if i < 0 || i >= tv.len() {
        Err(error_at(tv, i))
    } else if tv[i] is Ok && tv[i]->Ok_0.1 is Ident {
        let id = tv[i]->Ok_0.1->Ident_0;
        match expect_at(tv, i + 1, Token::Assign) {
            Err(e) => Err(e),
            Ok(k) => match parse_expr_at(tv, 8, k) {
                Err(e) => Err(e),
                Ok((e, j)) => Ok((stmt_node_at(tv, StmtShape::Assign(id, e), i, j), j)),
            },
        }
    } else if tok_is(tv, i, Token::Print) {
        match expect_at(tv, i + 1, Token::LParen) {
            Err(e) => Err(e),
            Ok(k) => match parse_closed_at(tv, k) {
                Err(e) => Err(e),
                Ok((e, j)) => Ok((stmt_node_at(tv, StmtShape::Print(e), i, j), j)),
            },
        }
    } else if tok_is(tv, i, Token::Begin) {
        parse_block_at(tv, i, seq![], i + 1)
    } else if tok_is(tv, i, Token::For) {
        if i + 1 < tv.len() && tv[i + 1] is Ok && tv[i + 1]->Ok_0.1 is Ident {
            let id = tv[i + 1]->Ok_0.1->Ident_0;
            match expect_at(tv, i + 2, Token::Assign) {
                Err(e) => Err(e),
                Ok(k) => match parse_expr_at(tv, 8, k) {
                    Err(e) => Err(e),
                    Ok((from, k1)) => match expect_at(tv, k1, Token::To) {
                        Err(e) => Err(e),
                        Ok(k2) => match parse_expr_at(tv, 8, k2) {
                            Err(e) => Err(e),
                            Ok((to, k3)) => match expect_at(tv, k3, Token::Do) {
                                Err(e) => Err(e),
                                Ok(k4) => if i < k4 {
                                    match parse_stmt_at(tv, k4) {
                                        Err(e) => Err(e),
                                        Ok((body, j)) => Ok(
                                            (
                                                stmt_node_at(
                                                    tv,
                                                    StmtShape::For(id, from, to, Box::new(body)),
                                                    i,
                                                    j,
                                                ),
                                                j,
                                            ),
                                        ),
                                    }
                                } else {
                                    Err(error_at(tv, k4))
                                },
                            },
                        },
                    },
                },
            }
        } else {
            Err(error_at(tv, i + 1))
        }
    } else if tok_is(tv, i, Token::If) {
        match parse_expr_at(tv, 8, i + 1) {
            Err(e) => Err(e),
            Ok((c, k1)) => match expect_at(tv, k1, Token::Then) {
                Err(e) => Err(e),
                Ok(k2) => if i < k2 {
                    match parse_stmt_at(tv, k2) {
                        Err(e) => Err(e),
                        Ok((t, k3)) => if i < k3 <= tv.len() {
                            parse_if_rest_at(tv, i, c, t, seq![], k3)
                        } else {
                            Err(error_at(tv, k3))
                        },
                    }
                } else {
                    Err(error_at(tv, k2))
                },
            },
        }
    } else if tok_is(tv, i, Token::Break) {
        Ok((stmt_node_at(tv, StmtShape::Break, i, i + 1), i + 1))
    } else if tok_is(tv, i, Token::Continue) {
        Ok((stmt_node_at(tv, StmtShape::Continue, i, i + 1), i + 1))
    } else if tok_is(tv, i, Token::Exit) {
        Ok((stmt_node_at(tv, StmtShape::Exit, i, i + 1), i + 1))
    } else {
        Err(error_at(tv, i))
    }
}

/// The rest of a block that started at token `i`: the statements so far,
/// and the next token at `k`; each statement is followed by `;`, and `end`
/// closes the block.
pub open spec fn parse_block_at(tv: Toks, i: int, items: Seq<StmtNode>, k: int) -> Result<
    (StmtNode, int),
    ParseError,
>
    decreases tv.len() - k, 3int,
{
    if !(0 <= i < k <= tv.len()) {
        Err(error_at(tv, k))
    } else if tok_is(tv, k, Token::End) {
        Ok((stmt_node_at(tv, StmtShape::Block(items), i, k + 1), k + 1))
    } else {
        match parse_stmt_at(tv, k) {
            Err(e) => Err(e),
            Ok((s, m)) => match expect_at(tv, m, Token::Semicolon) {
                Err(e) => Err(e),
                Ok(n) => if k < n {
                    parse_block_at(tv, i, items.push(s), n)
                } else {
                    Err(error_at(tv, n))
                },
            },
        }
    }
}

/// The rest of an `if` that started at token `i` with condition `c` and
/// branch `t`: the `elif` branches so far, and the next token at `k`.
pub open spec fn parse_if_rest_at(
    tv: Toks,
    i: int,
    c: Expr,
    t: StmtNode,
    elifs: Seq<(Expr, StmtNode)>,
    k: int,
) -> Result<(StmtNode, int), ParseError>
    decreases tv.len() - k, 3int,
{
    if !(0 <= i < k <= tv.len()) {
        Err(error_at(tv, k))
    } else if tok_is(tv, k, Token::Elif) {
        match parse_expr_at(tv, 8, k + 1) {
            Err(e) => Err(e),
            Ok((c2, a)) => match expect_at(tv, a, Token::Then) {
                Err(e) => Err(e),
                Ok(a2) => if k < a2 {
                    match parse_stmt_at(tv, a2) {
                        Err(e) => Err(e),
                        Ok((s, b)) => if k < b <= tv.len() {
                            parse_if_rest_at(tv, i, c, t, elifs.push((c2, s)), b)
                        } else {
                            Err(error_at(tv, b))
                        },
                    }
                } else {
                    Err(error_at(tv, a2))
                },
            },
        }
    } else if tok_is(tv, k, Token::Else) {
        match parse_stmt_at(tv, k + 1) {
            Err(e) => Err(e),
            Ok((b, j)) => Ok(
                (
                    stmt_node_at(tv, StmtShape::If(c, Box::new(t), elifs, Some(Box::new(b))), i, j),
                    j,
                ),
            ),
        }
    } else {
        Ok((stmt_node_at(tv, StmtShape::If(c, Box::new(t), elifs, None), i, k), k))
    }
}

/// The type that token `k` names, if it is a type keyword.
pub open spec fn type_at(tv: Toks, k: int) -> Option<Type> {
    if tok_is(tv, k, Token::TypeInteger) {
        Some(Type::Integer)
    } else if tok_is(tv, k, Token::TypeString) {
        Some(Type::String)
    } else if tok_is(tv, k, Token::TypeBoolean) {
        Some(Type::Boolean)
    } else {
        None
    }
}

/// The declarations from token `k` on, after `decls`: each a type, a name
/// and `;`, until a token that is no type; then the instructions.
pub open spec fn parse_decls_at(tv: Toks, decls: Seq<Declaration>, k: int) -> Result<
    ProgramShape,
    ParseError,
>
    decreases tv.len() - k,
{
    if !(0 <= k <= tv.len()) {
        Err(error_at(tv, k))
    } else {
        match type_at(tv, k) {
            None => parse_items_at(tv, decls, seq![], k),
            Some(t) => if k + 1 < tv.len() && tv[k + 1] is Ok && tv[k + 1]->Ok_0.1 is Ident {
                let d = Declaration {
                    var_type: t,
                    identifier: tv[k + 1]->Ok_0.1->Ident_0,
                    span: Range { start: start_at(tv, k), end: end_at(tv, k + 1) },
                };
                match expect_at(tv, k + 2, Token::Semicolon) {
                    Err(e) => Err(e),
                    Ok(n) => parse_decls_at(tv, decls.push(d), n),
                }
            } else {
                Err(error_at(tv, k + 1))
            },
        }
    }
}

/// The instructions from token `k` to the last token, after `items`: each a
/// statement followed by `;`.
pub open spec fn parse_items_at(
    tv: Toks,
    decls: Seq<Declaration>,
    items: Seq<StmtNode>,
    k: int,
) -> Result<ProgramShape, ParseError>
    decreases tv.len() - k,
{
    if !(0 <= k <= tv.len()) {
        Err(error_at(tv, k))
    } else if k == tv.len() {
        Ok(ProgramShape { declarations: decls, instructions: items })
    } else {
        match parse_stmt_at(tv, k) {
            Err(e) => Err(e),
            Ok((s, m)) => match expect_at(tv, m, Token::Semicolon) {
                Err(e) => Err(e),
                Ok(n) => if k < n {
                    parse_items_at(tv, decls, items.push(s), n)
                } else {
                    Err(error_at(tv, n))
                },
            },
        }
    }
}

/// What parsing the whole token list as a program yields.
pub open spec fn parse_program_spec(tv: Toks) -> Result<ProgramShape, ParseError> {
    parse_decls_at(tv, seq![], 0)
}

/// `r`, with the parser standing at `pos` after it, is what `s` says:
/// the same expression and position, or the same error.
pub open spec fn yields_expr(r: Result<Expr, ParseError>, pos: int, s: Result<(Expr, int), ParseError>) -> bool {
    match s {
        Ok((e, j)) => r == Ok::<Expr, ParseError>(e) && pos == j,
        Err(err) => r == Err::<Expr, ParseError>(err),
    }
}

/// `r`, with the parser standing at `pos` after it, is what `s` says.
pub open spec fn yields_stmt(
    r: Result<Statement, ParseError>,
    pos: int,
    s: Result<(StmtNode, int), ParseError>,
) -> bool {
    match s {
        Ok((n, j)) => r is Ok && stmt_view(r->Ok_0) == n && pos == j,
        Err(err) => r == Err::<Statement, ParseError>(err),
    }
}

/// `r` is the program, or the error, that `s` says.
pub open spec fn yields_program(r: Result<Program, ParseError>, s: Result<ProgramShape, ParseError>) -> bool {
    match s {
        Ok(shape) => r is Ok && program_view(r->Ok_0) == shape,
        Err(err) => r == Err::<Program, ParseError>(err),
    }
}

/// `( e )` from token `i`.
pub open spec fn parse_parens_at(tv: Toks, i: int) -> Result<(Expr, int), ParseError> {
    match expect_at(tv, i, Token::LParen) {
        Err(e) => Err(e),
        Ok(k) => parse_closed_at(tv, k),
    }
}

/// `( a , b )` from token `i`.
pub open spec fn parse_pair_at(tv: Toks, i: int) -> Result<((Expr, Expr), int), ParseError> {
    match expect_at(tv, i, Token::LParen) {
        Err(e) => Err(e),
        Ok(k) => match parse_arg_at(tv, k) {
            Err(e) => Err(e),
            Ok((a, k2)) => if k < k2 <= tv.len() {
                match parse_closed_at(tv, k2) {
                    Err(e) => Err(e),
                    Ok((b, j)) => Ok(((a, b), j)),
                }
            } else {
                Err(error_at(tv, k2))
            },
        },
    }
}

pub proof fn lemma_stmts_view_push(v: Seq<Statement>, s: Statement, i: int)
    requires
        0 <= i <= v.len(),
    ensures
        stmts_view(v.push(s), i) == stmts_view(v, i).push(stmt_view(s)),
    decreases v.len() - i,
{
    if i < v.len() {
        lemma_stmts_view_push(v, s, i + 1);
        assert(v.push(s)[i] == v[i]);
        assert(seq![stmt_view(v[i])] + stmts_view(v, i + 1).push(stmt_view(s)) =~= (seq![
            stmt_view(v[i]),
        ] + stmts_view(v, i + 1)).push(stmt_view(s)));
    } else {
        assert(stmts_view(v.push(s), i + 1) =~= seq![]);
        assert(stmts_view(v, i) =~= seq![]);
        assert(seq![stmt_view(s)] + seq![] =~= seq![].push(stmt_view(s)));
    }
}

pub proof fn lemma_elifs_view_push(v: Seq<(Expr, Statement)>, b: (Expr, Statement), i: int)
    requires
        0 <= i <= v.len(),
    ensures
        elifs_view(v.push(b), i) == elifs_view(v, i).push((b.0, stmt_view(b.1))),
    decreases v.len() - i,
{
    if i < v.len() {
        lemma_elifs_view_push(v, b, i + 1);
        assert(v.push(b)[i] == v[i]);
        assert(seq![(v[i].0, stmt_view(v[i].1))] + elifs_view(v, i + 1).push((b.0, stmt_view(b.1)))
            =~= (seq![(v[i].0, stmt_view(v[i].1))] + elifs_view(v, i + 1)).push(
            (b.0, stmt_view(b.1)),
        ));
    } else {
        assert(elifs_view(v.push(b), i + 1) =~= seq![]);
        assert(elifs_view(v, i) =~= seq![]);
        assert(seq![(b.0, stmt_view(b.1))] + seq![] =~= seq![].push((b.0, stmt_view(b.1))));
    }
}

} // verus!
