//! The parser misses nothing: whatever the grammar derives from a run of
//! tokens, the parser's rules yield, tree for tree. A text that the parser
//! rejects therefore holds no program at all.
use crate::ast::{Declaration, Expr, ExprKind, Program, Statement, StmtKind};
use crate::grammar::ParseError;
use crate::lexer::Token;
use crate::parsing::{
    binary_node, elifs_view, is_binary_op, parse_block_at, parse_closed_at, parse_expr_at,
    parse_decls_at, parse_if_rest_at, parse_items_at, parse_program_spec, parse_stmt_at,
    parse_tail_at, program_view, stmt_node_at, stmt_view, stmts_view, type_at, ProgramShape,
    StmtNode, StmtShape,
};
use crate::syntax::{
    binary_lvl, boundary, call_args, decl_at, end_at, expr_at, if_rest, items_at, next_lvl,
    op_token, operands, program_at, spans, start_at, stmt_at, tok_is, Toks,
};
use std::ops::Range;
use vstd::prelude::*;

verus! {

/// No operator of a binary level up to `lvl` stands at token `j`: an
/// expression of level `lvl` that ends before `j` cannot go on there.
pub open spec fn stops(tv: Toks, lvl: int, j: int) -> bool {
    &&& (lvl >= 2 ==> !is_binary_op(tv, 2, j))
    &&& (lvl >= 3 ==> !is_binary_op(tv, 3, j))
    &&& (lvl >= 4 ==> !is_binary_op(tv, 4, j))
    &&& (lvl >= 6 ==> !is_binary_op(tv, 6, j))
    &&& (lvl >= 7 ==> !is_binary_op(tv, 7, j))
}

/// The operator of a binary node, as the grammar reads it, is the one the
/// parser's rules take.
proof fn lemma_op_node(tv: Toks, lvl: int, k: int, kind: ExprKind, a: Expr, b: Expr)
    requires
        binary_lvl(lvl),
        op_token(tv, lvl, k, kind),
        operands(kind) == Some((a, b)),
    ensures
        binary_node(tv, lvl, k, a, b) == Some(kind),
        is_binary_op(tv, lvl, k),
{
}

/// An operator of one binary level is no operator of another.
proof fn lemma_ops_apart(tv: Toks, lvl: int, k: int)
    requires
        binary_lvl(lvl),
        is_binary_op(tv, lvl, k),
    ensures
        stops(tv, next_lvl(lvl), k),
{
}

/// An expression below `not` does not start with `not`, and a primary
/// does not start with `-`.
proof fn lemma_first_token(tv: Toks, lvl: int, i: int, j: int, e: Expr)
    requires
        expr_at(tv, lvl, i, j, e),
        0 <= lvl <= 4,
    ensures
        !tok_is(tv, i, Token::Not),
        lvl == 0 ==> !tok_is(tv, i, Token::Minus),
    decreases j - i, lvl,
{
    if lvl == 0 {
        assert(call_args(tv, i, j, e.kind) ==> !tok_is(tv, i, Token::Not) && !tok_is(
            tv,
            i,
            Token::Minus,
        ));
    } else {
        if expr_at(tv, next_lvl(lvl), i, j, e) {
            lemma_first_token(tv, next_lvl(lvl), i, j, e);
        } else if binary_lvl(lvl) && spans(tv, i, j, e.span) && operands(e.kind) is Some {
            let (a, b) = operands(e.kind)->0;
            let k = choose|k: int|
                i < k < j - 1 && #[trigger] op_token(tv, lvl, k, e.kind) && expr_at(
                    tv,
                    lvl,
                    i,
                    k,
                    a,
                ) && expr_at(tv, next_lvl(lvl), k + 1, j, b);
            lemma_first_token(tv, lvl, i, k, a);
        }
    }
}

/// A binary expression of level `lvl` over `i..j`: the parser's rules
/// reach it with the token at `j` next, when no tighter operator stands there.
proof fn lemma_reach(tv: Toks, lvl: int, i: int, j: int, e: Expr)
    requires
        binary_lvl(lvl),
        expr_at(tv, lvl, i, j, e),
        stops(tv, next_lvl(lvl), j),
    ensures
        parse_expr_at(tv, lvl, i) == parse_tail_at(tv, lvl, i, e, j),
    decreases j - i, lvl, 0int,
{
    if expr_at(tv, next_lvl(lvl), i, j, e) {
        lemma_expr_complete(tv, next_lvl(lvl), i, j, e);
    } else {
        let (a, b) = operands(e.kind)->0;
        let k = choose|k: int|
            i < k < j - 1 && #[trigger] op_token(tv, lvl, k, e.kind) && expr_at(tv, lvl, i, k, a)
                && expr_at(tv, next_lvl(lvl), k + 1, j, b);
        lemma_op_node(tv, lvl, k, e.kind, a, b);
        lemma_ops_apart(tv, lvl, k);
        lemma_reach(tv, lvl, i, k, a);
        lemma_expr_complete(tv, next_lvl(lvl), k + 1, j, b);
        assert(e == crate::parsing::node_at(tv, e.kind, i, j));
        assert(parse_tail_at(tv, lvl, i, a, k) == parse_tail_at(tv, lvl, i, e, j));
    }
}

/// An expression that the grammar derives at level `lvl` over `i..j`, with
/// no operator that could go on at `j`, is what the parser's rules yield there.
pub proof fn lemma_expr_complete(tv: Toks, lvl: int, i: int, j: int, e: Expr)
    requires
        expr_at(tv, lvl, i, j, e),
        stops(tv, lvl, j),
    ensures
        parse_expr_at(tv, lvl, i) == Ok::<(Expr, int), ParseError>((e, j)),
    decreases j - i, lvl, 1int,
{
    if lvl == 8 {
        lemma_expr_complete(tv, 7, i, j, e);
    } else if binary_lvl(lvl) {
        lemma_reach(tv, lvl, i, j, e);
    } else if lvl == 5 {
        if tok_is(tv, i, Token::Not) {
            if expr_at(tv, 4, i, j, e) {
                lemma_first_token(tv, 4, i, j, e);
            }
            let a = match e.kind {
                ExprKind::Not(a) => *a,
                _ => arbitrary(),
            };
            lemma_expr_complete(tv, 5, i + 1, j, a);
            assert(e == crate::parsing::node_at(tv, e.kind, i, j));
        } else {
            lemma_expr_complete(tv, 4, i, j, e);
        }
    } else if lvl == 1 {
        if tok_is(tv, i, Token::Minus) {
            if expr_at(tv, 0, i, j, e) {
                lemma_first_token(tv, 0, i, j, e);
            }
            let (z, a) = match e.kind {
                ExprKind::Sub(z, a) => (*z, *a),
                _ => arbitrary(),
            };
            lemma_expr_complete(tv, 1, i + 1, j, a);
            assert(z == crate::parsing::node_at(tv, ExprKind::Number(0), i, i + 1));
            assert(e == crate::parsing::node_at(tv, e.kind, i, j));
        } else {
            lemma_expr_complete(tv, 0, i, j, e);
        }
    } else {
        lemma_primary_complete(tv, i, j, e);
    }
}

proof fn lemma_primary_complete(tv: Toks, i: int, j: int, e: Expr)
    requires
        expr_at(tv, 0, i, j, e),
    ensures
        parse_expr_at(tv, 0, i) == Ok::<(Expr, int), ParseError>((e, j)),
    decreases j - i, 0int, 0int,
{
    assert(parse_expr_at(tv, 0, i) == crate::parsing::parse_primary_at(tv, i));
    if j == i + 1 && crate::syntax::leaf(tv, i, e) && spans(tv, i, j, e.span) {
        assert(e == crate::parsing::node_at(tv, e.kind, i, j));
    } else if tok_is(tv, i, Token::LParen) && tok_is(tv, j - 1, Token::RParen) && expr_at(
        tv,
        8,
        i + 1,
        j - 1,
        e,
    ) {
        lemma_expr_complete(tv, 8, i + 1, j - 1, e);
        assert(parse_closed_at(tv, i + 1) == Ok::<(Expr, int), ParseError>((e, j)));
    } else {
        assert(call_args(tv, i, j, e.kind));
        assert(e == crate::parsing::node_at(tv, e.kind, i, j));
        match e.kind {
            ExprKind::Length(a) => {
                lemma_expr_complete(tv, 8, i + 2, j - 1, *a);
                assert(parse_closed_at(tv, i + 2) == Ok::<(Expr, int), ParseError>(
                    (*a, j),
                ));
            },
            ExprKind::Concatenate(a, b) | ExprKind::Position(a, b) => {
                let k = choose|k: int|
                    i + 2 < k < j - 2 && expr_at(tv, 8, i + 2, k, *a) && #[trigger] tok_is(
                        tv,
                        k,
                        Token::Comma,
                    ) && expr_at(tv, 8, k + 1, j - 1, *b);
                lemma_expr_complete(tv, 8, i + 2, k, *a);
                lemma_expr_complete(tv, 8, k + 1, j - 1, *b);
                assert(crate::parsing::parse_arg_at(tv, i + 2) == Ok::<
                    (Expr, int),
                    ParseError,
                >((*a, k + 1)));
                assert(parse_closed_at(tv, k + 1) == Ok::<(Expr, int), ParseError>(
                    (*b, j),
                ));
            },
            ExprKind::Substring(a, b, c) => {
                let (k1, k2) = choose|k1: int, k2: int|
                    i + 2 < k1 < k2 - 1 && k2 < j - 2 && expr_at(tv, 8, i + 2, k1, *a)
                        && #[trigger] tok_is(tv, k1, Token::Comma) && expr_at(tv, 8, k1 + 1, k2, *b)
                        && #[trigger] tok_is(tv, k2, Token::Comma) && expr_at(
                        tv,
                        8,
                        k2 + 1,
                        j - 1,
                        *c,
                    );
                lemma_expr_complete(tv, 8, i + 2, k1, *a);
                lemma_expr_complete(tv, 8, k1 + 1, k2, *b);
                lemma_expr_complete(tv, 8, k2 + 1, j - 1, *c);
                assert(crate::parsing::parse_arg_at(tv, i + 2) == Ok::<
                    (Expr, int),
                    ParseError,
                >((*a, k1 + 1)));
                assert(crate::parsing::parse_arg_at(tv, k1 + 1) == Ok::<
                    (Expr, int),
                    ParseError,
                >((*b, k2 + 1)));
                assert(parse_closed_at(tv, k2 + 1) == Ok::<(Expr, int), ParseError>(
                    (*c, j),
                ));
            },
            _ => {},
        }
    }
}


proof fn lemma_stmts_view_shape(v: Seq<Statement>, i: int)
    requires
        0 <= i <= v.len(),
    ensures
        stmts_view(v, i).len() == v.len() - i,
        forall|q: int| 0 <= q < v.len() - i ==> stmts_view(v, i)[q] == stmt_view(#[trigger] v[i + q]),
    decreases v.len() - i,
{
    if i < v.len() {
        lemma_stmts_view_shape(v, i + 1);
        assert forall|q: int| 0 <= q < v.len() - i implies stmts_view(v, i)[q] == stmt_view(
            #[trigger] v[i + q],
        ) by {
            if q > 0 {
                assert(v[i + q] == v[(i + 1) + (q - 1)]);
            }
        }
    }
}

proof fn lemma_elifs_view_shape(v: Seq<(Expr, Statement)>, i: int)
    requires
        0 <= i <= v.len(),
    ensures
        elifs_view(v, i).len() == v.len() - i,
        forall|q: int|
            0 <= q < v.len() - i ==> elifs_view(v, i)[q] == ((#[trigger] v[i + q]).0, stmt_view(
                v[i + q].1,
            )),
    decreases v.len() - i,
{
    if i < v.len() {
        lemma_elifs_view_shape(v, i + 1);
        assert forall|q: int| 0 <= q < v.len() - i implies elifs_view(v, i)[q] == (
        (#[trigger] v[i + q]).0, stmt_view(v[i + q].1)) by {
            if q > 0 {
                assert(v[i + q] == v[(i + 1) + (q - 1)]);
            }
        }
    }
}

/// What may follow a statement in a program: `;`, `elif` or `else`.
pub open spec fn follower(tv: Toks, j: int) -> bool {
    tok_is(tv, j, Token::Semicolon) || tok_is(tv, j, Token::Elif) || tok_is(tv, j, Token::Else)
}

/// A statement starts neither with `end` nor with a type.
proof fn lemma_stmt_first(tv: Toks, i: int, j: int, s: Statement)
    requires
        stmt_at(tv, i, j, s),
    ensures
        !tok_is(tv, i, Token::End),
        type_at(tv, i) is None,
{
}

/// The `else` branch, as the parser builds it.
pub open spec fn else_view(b: Option<Box<Statement>>) -> Option<Box<StmtNode>> {
    match b {
        Some(x) => Some(Box::new(stmt_view(*x))),
        None => None,
    }
}

/// A statement that the grammar derives over `i..j`, followed by what may
/// follow a statement, is what the parser's rules yield there.
pub proof fn lemma_stmt_complete(tv: Toks, i: int, j: int, s: Statement)
    requires
        stmt_at(tv, i, j, s),
        follower(tv, j),
    ensures
        parse_stmt_at(tv, i) == Ok::<(StmtNode, int), ParseError>((stmt_view(s), j)),
    decreases j - i, 2int,
{
    match s.kind {
        StmtKind::Assign(id, e) => {
            lemma_expr_complete(tv, 8, i + 2, j, *e);
        },
        StmtKind::Print(e) => {
            lemma_expr_complete(tv, 8, i + 2, j - 1, *e);
            assert(parse_closed_at(tv, i + 2) == Ok::<(Expr, int), ParseError>((*e, j)));
        },
        StmtKind::Block(v) => {
            lemma_block_complete(tv, i, v@, 0, i + 1, j - 1);
            assert(stmts_view(v@, 0).subrange(0, 0) =~= seq![]);
        },
        StmtKind::For { iterator, from, to, body } => {
            let (k1, k2) = choose|k1: int, k2: int|
                i + 3 < k1 < k2 - 1 && k2 < j - 1 && expr_at(tv, 8, i + 3, k1, *from)
                    && #[trigger] tok_is(tv, k1, Token::To) && expr_at(tv, 8, k1 + 1, k2, *to)
                    && #[trigger] tok_is(tv, k2, Token::Do) && stmt_at(tv, k2 + 1, j, *body);
            lemma_expr_complete(tv, 8, i + 3, k1, *from);
            lemma_expr_complete(tv, 8, k1 + 1, k2, *to);
            lemma_stmt_complete(tv, k2 + 1, j, *body);
        },
        StmtKind::If { condition, then_branch, elif_branches, else_branch } => {
            let (k1, k2) = choose|k1: int, k2: int|
                i + 1 < k1 < k2 - 1 && k2 <= j && expr_at(tv, 8, i + 1, k1, *condition)
                    && #[trigger] tok_is(tv, k1, Token::Then) && #[trigger] boundary(k2)
                    && stmt_at(tv, k1 + 1, k2, *then_branch) && if_rest(
                    tv,
                    elif_branches@,
                    else_branch,
                    0,
                    k2,
                    j,
                );
            lemma_expr_complete(tv, 8, i + 1, k1, *condition);
            assert(follower(tv, k2));
            lemma_stmt_complete(tv, k1 + 1, k2, *then_branch);
            lemma_if_complete(
                tv,
                i,
                *condition,
                stmt_view(*then_branch),
                elif_branches@,
                else_branch,
                0,
                k2,
                j,
            );
            assert(elifs_view(elif_branches@, 0).subrange(0, 0) =~= seq![]);
        },
        _ => {},
    }
}

proof fn lemma_block_complete(tv: Toks, i: int, v: Seq<Statement>, m: int, a: int, b: int)
    requires
        0 <= i < a,
        0 <= m <= v.len(),
        items_at(tv, v, m, a, b),
        tok_is(tv, b, Token::End),
    ensures
        parse_block_at(tv, i, stmts_view(v, 0).subrange(0, m), a) == Ok::<
            (StmtNode, int),
            ParseError,
        >((stmt_node_at(tv, StmtShape::Block(stmts_view(v, 0)), i, b + 1), b + 1)),
    decreases b - a, 3int,
{
    lemma_stmts_view_shape(v, 0);
    if m < v.len() {
        let k = choose|k: int|
            a < k < b && stmt_at(tv, a, k, v[m]) && #[trigger] tok_is(tv, k, Token::Semicolon)
                && items_at(tv, v, m + 1, k + 1, b);
        lemma_stmt_first(tv, a, k, v[m]);
        lemma_stmt_complete(tv, a, k, v[m]);
        lemma_block_complete(tv, i, v, m + 1, k + 1, b);
        assert(v[0 + m] == v[m]);
        assert(stmts_view(v, 0).subrange(0, m).push(stmt_view(v[m])) =~= stmts_view(
            v,
            0,
        ).subrange(0, m + 1));
    } else {
        assert(stmts_view(v, 0).subrange(0, m) =~= stmts_view(v, 0));
    }
}

proof fn lemma_if_complete(
    tv: Toks,
    i: int,
    c: Expr,
    t: StmtNode,
    elifs: Seq<(Expr, Statement)>,
    els: Option<Box<Statement>>,
    m: int,
    k: int,
    j: int,
)
    requires
        0 <= i < k,
        0 <= m <= elifs.len(),
        if_rest(tv, elifs, els, m, k, j),
        follower(tv, j),
    ensures
        parse_if_rest_at(tv, i, c, t, elifs_view(elifs, 0).subrange(0, m), k) == Ok::<
            (StmtNode, int),
            ParseError,
        >(
            (
                stmt_node_at(
                    tv,
                    StmtShape::If(c, Box::new(t), elifs_view(elifs, 0), else_view(els)),
                    i,
                    j,
                ),
                j,
            ),
        ),
    decreases j - k, 3int,
{
    lemma_elifs_view_shape(elifs, 0);
    if m < elifs.len() {
        let (a, b) = choose|a: int, b: int|
            k + 1 < a < b - 1 && b <= j && expr_at(tv, 8, k + 1, a, elifs[m].0) && #[trigger] tok_is(
                tv,
                a,
                Token::Then,
            ) && #[trigger] boundary(b) && stmt_at(tv, a + 1, b, elifs[m].1) && if_rest(
                tv,
                elifs,
                els,
                m + 1,
                b,
                j,
            );
        lemma_expr_complete(tv, 8, k + 1, a, elifs[m].0);
        assert(follower(tv, b));
        lemma_stmt_complete(tv, a + 1, b, elifs[m].1);
        lemma_if_complete(tv, i, c, t, elifs, els, m + 1, b, j);
        assert(elifs[0 + m] == elifs[m]);
        assert(elifs_view(elifs, 0).subrange(0, m).push((elifs[m].0, stmt_view(elifs[m].1)))
            =~= elifs_view(elifs, 0).subrange(0, m + 1));
    } else {
        assert(elifs_view(elifs, 0).subrange(0, m) =~= elifs_view(elifs, 0));
        if let Some(bb) = els {
            lemma_stmt_complete(tv, k + 1, j, *bb);
        }
    }
}

proof fn lemma_items_complete(
    tv: Toks,
    decls: Seq<Declaration>,
    v: Seq<Statement>,
    m: int,
    a: int,
)
    requires
        0 <= m <= v.len(),
        items_at(tv, v, m, a, tv.len() as int),
    ensures
        parse_items_at(tv, decls, stmts_view(v, 0).subrange(0, m), a) == Ok::<
            ProgramShape,
            ParseError,
        >(ProgramShape { declarations: decls, instructions: stmts_view(v, 0) }),
    decreases tv.len() - a,
{
    lemma_stmts_view_shape(v, 0);
    if m < v.len() {
        let k = choose|k: int|
            a < k < tv.len() && stmt_at(tv, a, k, v[m]) && #[trigger] tok_is(
                tv,
                k,
                Token::Semicolon,
            ) && items_at(tv, v, m + 1, k + 1, tv.len() as int);
        lemma_stmt_complete(tv, a, k, v[m]);
        lemma_items_complete(tv, decls, v, m + 1, k + 1);
        assert(v[0 + m] == v[m]);
        assert(stmts_view(v, 0).subrange(0, m).push(stmt_view(v[m])) =~= stmts_view(
            v,
            0,
        ).subrange(0, m + 1));
    } else {
        assert(stmts_view(v, 0).subrange(0, m) =~= stmts_view(v, 0));
    }
}

proof fn lemma_decls_complete(tv: Toks, p: Program, m: int)
    requires
        program_at(tv, p),
        0 <= m <= p.declarations@.len(),
    ensures
        parse_decls_at(tv, p.declarations@.take(m), 3 * m) == Ok::<ProgramShape, ParseError>(
            program_view(p),
        ),
    decreases p.declarations@.len() - m,
{
    let decls = p.declarations@;
    let n = decls.len() as int;
    if m < n {
        let d = decls[m];
        assert(decl_at(tv, d, 3 * m));
        assert(type_at(tv, 3 * m) == Some(d.var_type));
        let d2 = Declaration {
            var_type: d.var_type,
            identifier: tv[3 * m + 1]->Ok_0.1->Ident_0,
            span: Range { start: start_at(tv, 3 * m), end: end_at(tv, 3 * m + 1) },
        };
        assert(d2 == d);
        lemma_decls_complete(tv, p, m + 1);
        assert(decls.take(m).push(d) =~= decls.take(m + 1));
        assert(3 * m + 3 == 3 * (m + 1));
    } else {
        assert(decls.take(m) =~= decls);
        let v = p.instructions@;
        if v.len() > 0 {
            let k = choose|k: int|
                3 * n < k < tv.len() && stmt_at(tv, 3 * n, k, v[0]) && #[trigger] tok_is(
                    tv,
                    k,
                    Token::Semicolon,
                ) && items_at(tv, v, 1, k + 1, tv.len() as int);
            lemma_stmt_first(tv, 3 * n, k, v[0]);
        }
        assert(type_at(tv, 3 * n) is None);
        lemma_items_complete(tv, decls, v, 0, 3 * n);
        assert(stmts_view(v, 0).subrange(0, 0) =~= seq![]);
    }
}

/// The parser misses no program: whenever the grammar derives a program
/// from a run of tokens, the parser's rules yield that same program. So the
/// parser fails on a text only when its tokens make no program.
pub proof fn parser_finds_every_program(tv: Toks, p: Program)
    requires
        program_at(tv, p),
    ensures
        parse_program_spec(tv) == Ok::<ProgramShape, ParseError>(program_view(p)),
{
    lemma_decls_complete(tv, p, 0);
    assert(p.declarations@.take(0) =~= seq![]);
}

/// The parser misses no expression: whenever the grammar derives an
/// expression from a whole run of tokens, the parser's rules yield it.
pub proof fn parser_finds_every_expr(tv: Toks, e: Expr)
    requires
        expr_at(tv, 8, 0, tv.len() as int, e),
    ensures
        crate::grammar::whole_expr_spec(tv) == Ok::<Expr, ParseError>(e),
{
    lemma_expr_complete(tv, 8, 0, tv.len() as int, e);
}

} // verus!
