//! The grammar of the language, as relations between a run of tokens and
//! the syntax tree it stands for. Positions count tokens; the span of a
//! node runs from the first byte of its first token to the last byte of its
//! last token.
use crate::ast::{Declaration, Expr, ExprKind, Program, Statement, StmtKind, Type};
use crate::lexer::{agrees, lexemes, LexicalError, Token};
use std::ops::Range;
use vstd::prelude::*;

verus! {

/// The lexer's results for a text, one per lexeme.
pub type Toks = Seq<Result<(usize, Token, usize), LexicalError>>;

/// `tv` is what the lexer gives for the text `s`.
pub open spec fn lexed(s: Seq<char>, tv: Toks) -> bool {
    &&& tv.len() == lexemes(s).len()
    &&& forall|k: int|
        0 <= k < tv.len() ==> agrees(
            s,
            #[trigger] tv[k],
            lexemes(s)[k].0,
            lexemes(s)[k].1,
            lexemes(s)[k].2,
        )
}

/// Where the text ends, as far as the tokens tell: the end of the last one.
pub open spec fn text_end(tv: Toks) -> usize {
    if tv.len() == 0 {
        0
    } else {
        end_at(tv, tv.len() - 1)
    }
}

/// Where token `k` starts; past the last token, where the text ends.
pub open spec fn start_at(tv: Toks, k: int) -> usize {
    if 0 <= k < tv.len() {
        match tv[k] {
            Ok((a, _, _)) => a,
            Err(LexicalError::InvalidToken(r)) => r.start,
        }
    } else {
        text_end(tv)
    }
}

/// Where token `k` ends.
pub open spec fn end_at(tv: Toks, k: int) -> usize {
    match tv[k] {
        Ok((_, _, b)) => b,
        Err(LexicalError::InvalidToken(r)) => r.end,
    }
}

/// Token `k` is `t`.
pub open spec fn tok_is(tv: Toks, k: int, t: Token) -> bool {
    0 <= k < tv.len() && tv[k] is Ok && tv[k]->Ok_0.1 == t
}

/// Token `k` is the identifier `x`.
pub open spec fn ident_is(tv: Toks, k: int, x: String) -> bool {
    tok_is(tv, k, Token::Ident(x))
}

/// `sp` spans the tokens `i..j`.
pub open spec fn spans(tv: Toks, i: int, j: int, sp: Range<usize>) -> bool {
    sp.start == start_at(tv, i) && sp.end == end_at(tv, j - 1)
}

/// Token `k` is the comparison that builds a node of `kind`.
pub open spec fn relation_token(tv: Toks, k: int, kind: ExprKind) -> bool {
    match kind {
        ExprKind::Eq(_, _) => tok_is(tv, k, Token::NumEq) || tok_is(tv, k, Token::StrEq),
        ExprKind::Neq(_, _) => tok_is(tv, k, Token::NumNeq) || tok_is(tv, k, Token::StrNeq),
        ExprKind::Less(_, _) => tok_is(tv, k, Token::Less),
        ExprKind::LessEq(_, _) => tok_is(tv, k, Token::LessEq),
        ExprKind::Greater(_, _) => tok_is(tv, k, Token::Greater),
        ExprKind::GreaterEq(_, _) => tok_is(tv, k, Token::GreaterEq),
        _ => false,
    }
}

/// The operands of a binary node, if `kind` is one.
pub open spec fn operands(kind: ExprKind) -> Option<(Expr, Expr)> {
    match kind {
        ExprKind::Add(a, b) | ExprKind::Sub(a, b) | ExprKind::Mul(a, b) | ExprKind::Div(a, b)
        | ExprKind::Mod(a, b) | ExprKind::And(a, b) | ExprKind::Or(a, b) | ExprKind::Eq(a, b)
        | ExprKind::Neq(a, b) | ExprKind::Less(a, b) | ExprKind::LessEq(a, b)
        | ExprKind::Greater(a, b) | ExprKind::GreaterEq(a, b) | ExprKind::Concatenate(a, b)
        | ExprKind::Position(a, b) => Some((*a, *b)),
        _ => None,
    }
}

/// Token `k` is the operator of the binary node `kind` at level `lvl`.
pub open spec fn op_token(tv: Toks, lvl: int, k: int, kind: ExprKind) -> bool {
    if lvl == 7 {
        kind is Or && tok_is(tv, k, Token::Or)
    } else if lvl == 6 {
        kind is And && tok_is(tv, k, Token::And)
    } else if lvl == 4 {
        relation_token(tv, k, kind)
    } else if lvl == 3 {
        (kind is Add && tok_is(tv, k, Token::Plus)) || (kind is Sub && tok_is(tv, k, Token::Minus))
    } else if lvl == 2 {
        (kind is Mul && tok_is(tv, k, Token::Star)) || (kind is Div && tok_is(tv, k, Token::Slash))
            || (kind is Mod && tok_is(tv, k, Token::Percent))
    } else {
        false
    }
}

/// The level just tighter than `lvl`.
pub open spec fn next_lvl(lvl: int) -> int {
    if lvl == 5 {
        4
    } else {
        lvl - 1
    }
}

/// Levels whose operators are binary and group to the left.
pub open spec fn binary_lvl(lvl: int) -> bool {
    lvl == 7 || lvl == 6 || lvl == 4 || lvl == 3 || lvl == 2
}

/// A leaf expression made of the single token `k`.
pub open spec fn leaf(tv: Toks, k: int, e: Expr) -> bool {
    &&& 0 <= k < tv.len()
    &&& tv[k] is Ok
    &&& match (tv[k]->Ok_0.1, e.kind) {
        (Token::Num(n), ExprKind::Number(m)) => n == m,
        (Token::StringLit(x), ExprKind::StringLit(y)) => x == y,
        (Token::Ident(x), ExprKind::Identifier(y)) => x == y,
        (Token::True, ExprKind::True) => true,
        (Token::False, ExprKind::False) => true,
        (Token::ReadInt, ExprKind::ReadInt) => true,
        (Token::ReadStr, ExprKind::ReadStr) => true,
        (Token::ReadBool, ExprKind::ReadBool) => true,
        _ => false,
    }
}

/// The tokens `i..j` are the expression `e` at precedence level `lvl`,
/// from loosest to tightest: 8 a whole expression, 7 `or`, 6 `and`, 5
/// prefix `not`, 4 comparisons, 3 `+ -`, 2 `* / %`, 1 prefix `-` (read as
/// `0 - e`), 0 primaries. Binary operators group to the left; a
/// parenthesized expression keeps the span of what is inside.
pub open spec fn expr_at(tv: Toks, lvl: int, i: int, j: int, e: Expr) -> bool
    decreases j - i, lvl + 1,
{
    if !(0 <= i < j <= tv.len()) || lvl < 0 || lvl > 8 {
        false
    } else if lvl == 8 {
        expr_at(tv, 7, i, j, e)
    } else if lvl == 0 {
        ||| (j == i + 1 && leaf(tv, i, e) && spans(tv, i, j, e.span))
        ||| (tok_is(tv, i, Token::LParen) && tok_is(tv, j - 1, Token::RParen) && expr_at(
            tv,
            8,
            i + 1,
            j - 1,
            e,
        ))
        ||| (spans(tv, i, j, e.span) && tok_is(tv, i + 1, Token::LParen) && tok_is(
            tv,
            j - 1,
            Token::RParen,
        ) && call_args(tv, i, j, e.kind))
    } else {
        ||| expr_at(tv, next_lvl(lvl), i, j, e)
        ||| (lvl == 5 && tok_is(tv, i, Token::Not) && spans(tv, i, j, e.span) && match e.kind {
            ExprKind::Not(a) => expr_at(tv, 5, i + 1, j, *a),
            _ => false,
        })
        ||| (lvl == 1 && tok_is(tv, i, Token::Minus) && spans(tv, i, j, e.span) && match e.kind {
            ExprKind::Sub(z, a) => z.kind == ExprKind::Number(0) && spans(tv, i, i + 1, z.span)
                && expr_at(tv, 1, i + 1, j, *a),
            _ => false,
        })
        ||| (binary_lvl(lvl) && spans(tv, i, j, e.span) && match operands(e.kind) {
            Some((a, b)) => exists|k: int|
                i < k < j - 1 && #[trigger] op_token(tv, lvl, k, e.kind) && expr_at(tv, lvl, i, k, a)
                    && expr_at(tv, next_lvl(lvl), k + 1, j, b),
            None => false,
        })
    }
}

/// A binary node over `i..j` whose operator is token `k`.
pub proof fn lemma_binary_at(tv: Toks, lvl: int, i: int, k: int, j: int, e: Expr, a: Expr, b: Expr)
    requires
        binary_lvl(lvl),
        j <= tv.len(),
        i < k < j - 1,
        0 <= i,
        op_token(tv, lvl, k, e.kind),
        operands(e.kind) == Some((a, b)),
        spans(tv, i, j, e.span),
        expr_at(tv, lvl, i, k, a),
        expr_at(tv, next_lvl(lvl), k + 1, j, b),
    ensures
        expr_at(tv, lvl, i, j, e),
{
}

/// The call whose name is token `i` and whose parenthesized arguments end
/// at token `j - 1`, with the arguments separated by commas.
pub open spec fn call_args(tv: Toks, i: int, j: int, kind: ExprKind) -> bool
    decreases j - i, 0int,
{
    if !(0 <= i && i + 2 < j <= tv.len()) {
        false
    } else {
        match kind {
            ExprKind::Length(a) => tok_is(tv, i, Token::Length) && expr_at(tv, 8, i + 2, j - 1, *a),
            ExprKind::Concatenate(a, b) => tok_is(tv, i, Token::Concatenate) && exists|k: int|
                i + 2 < k < j - 2 && expr_at(tv, 8, i + 2, k, *a) && #[trigger] tok_is(
                    tv,
                    k,
                    Token::Comma,
                ) && expr_at(tv, 8, k + 1, j - 1, *b),
            ExprKind::Position(a, b) => tok_is(tv, i, Token::Position) && exists|k: int|
                i + 2 < k < j - 2 && expr_at(tv, 8, i + 2, k, *a) && #[trigger] tok_is(
                    tv,
                    k,
                    Token::Comma,
                ) && expr_at(tv, 8, k + 1, j - 1, *b),
            ExprKind::Substring(a, b, c) => tok_is(tv, i, Token::Substring) && exists|
                k1: int,
                k2: int,
            |
                i + 2 < k1 < k2 - 1 && k2 < j - 2 && expr_at(tv, 8, i + 2, k1, *a)
                    && #[trigger] tok_is(tv, k1, Token::Comma) && expr_at(tv, 8, k1 + 1, k2, *b)
                    && #[trigger] tok_is(tv, k2, Token::Comma) && expr_at(tv, 8, k2 + 1, j - 1, *c),
            _ => false,
        }
    }
}

/// Token position `k` is where one part of a statement ends and the next
/// begins.
pub open spec fn boundary(k: int) -> bool {
    0 <= k
}

/// The tokens `i..j` are the statement `s`.
pub open spec fn stmt_at(tv: Toks, i: int, j: int, s: Statement) -> bool
    decreases j - i, 1int,
{
    if !(0 <= i < j <= tv.len()) || !spans(tv, i, j, s.span) {
        false
    } else {
        match s.kind {
            StmtKind::Assign(id, e) => ident_is(tv, i, id) && tok_is(tv, i + 1, Token::Assign)
                && expr_at(tv, 8, i + 2, j, *e),
            StmtKind::Print(e) => tok_is(tv, i, Token::Print) && tok_is(tv, i + 1, Token::LParen)
                && expr_at(tv, 8, i + 2, j - 1, *e) && tok_is(tv, j - 1, Token::RParen),
            StmtKind::Block(v) => tok_is(tv, i, Token::Begin) && tok_is(tv, j - 1, Token::End)
                && items_at(tv, v@, 0, i + 1, j - 1),
            StmtKind::For { iterator, from, to, body } => {
                &&& tok_is(tv, i, Token::For)
                &&& ident_is(tv, i + 1, iterator)
                &&& tok_is(tv, i + 2, Token::Assign)
                &&& exists|k1: int, k2: int|
                    i + 3 < k1 < k2 - 1 && k2 < j - 1 && expr_at(tv, 8, i + 3, k1, *from)
                        && #[trigger] tok_is(tv, k1, Token::To) && expr_at(tv, 8, k1 + 1, k2, *to)
                        && #[trigger] tok_is(tv, k2, Token::Do) && stmt_at(tv, k2 + 1, j, *body)
            },
            StmtKind::If { condition, then_branch, elif_branches, else_branch } => {
                &&& tok_is(tv, i, Token::If)
                &&& exists|k1: int, k2: int|
                    i + 1 < k1 < k2 - 1 && k2 <= j && expr_at(tv, 8, i + 1, k1, *condition)
                        && #[trigger] tok_is(tv, k1, Token::Then) && #[trigger] boundary(k2)
                        && stmt_at(tv, k1 + 1, k2, *then_branch) && if_rest(
                        tv,
                        elif_branches@,
                        else_branch,
                        0,
                        k2,
                        j,
                    )
            },
            StmtKind::Break => j == i + 1 && tok_is(tv, i, Token::Break),
            StmtKind::Continue => j == i + 1 && tok_is(tv, i, Token::Continue),
            StmtKind::Exit => j == i + 1 && tok_is(tv, i, Token::Exit),
        }
    }
}

/// The tokens `k..j` are the `elif` branches from index `m` on, then the
/// `else` branch when there is one. An `if` without `else` is followed by
/// neither `elif` nor `else`: those belong to the nearest `if`.
pub open spec fn if_rest(
    tv: Toks,
    elifs: Seq<(Expr, Statement)>,
    else_branch: Option<Box<Statement>>,
    m: int,
    k: int,
    j: int,
) -> bool
    decreases j - k, 0int,
{
    if !(0 <= m <= elifs.len()) || !(0 <= k <= j) {
        false
    } else if m < elifs.len() {
        &&& tok_is(tv, k, Token::Elif)
        &&& exists|a: int, b: int|
            k + 1 < a < b - 1 && b <= j && expr_at(tv, 8, k + 1, a, elifs[m].0) && #[trigger] tok_is(
                tv,
                a,
                Token::Then,
            ) && #[trigger] boundary(b) && stmt_at(tv, a + 1, b, elifs[m].1) && if_rest(
                tv,
                elifs,
                else_branch,
                m + 1,
                b,
                j,
            )
    } else {
        match else_branch {
            Some(b) => k + 1 < j && tok_is(tv, k, Token::Else) && stmt_at(tv, k + 1, j, *b),
            None => k == j && !tok_is(tv, k, Token::Elif) && !tok_is(tv, k, Token::Else),
        }
    }
}

/// The tokens `i..j` are the statements from index `m` on, each followed by `;`.
pub open spec fn items_at(tv: Toks, stmts: Seq<Statement>, m: int, i: int, j: int) -> bool
    decreases j - i, 0int,
{
    if !(0 <= m <= stmts.len()) || !(0 <= i <= j) {
        false
    } else if m == stmts.len() {
        i == j
    } else {
        exists|k: int|
            i < k < j && stmt_at(tv, i, k, stmts[m]) && #[trigger] tok_is(tv, k, Token::Semicolon)
                && items_at(tv, stmts, m + 1, k + 1, j)
    }
}

/// The type keyword for `t`.
pub open spec fn type_token(t: Type) -> Token {
    match t {
        Type::Integer => Token::TypeInteger,
        Type::String => Token::TypeString,
        Type::Boolean => Token::TypeBoolean,
    }
}

/// The tokens `i..i + 3` are the declaration `d`: its type, its name and
/// `;`; the declaration spans its type and name.
pub open spec fn decl_at(tv: Toks, d: Declaration, i: int) -> bool {
    &&& tok_is(tv, i, type_token(d.var_type))
    &&& ident_is(tv, i + 1, d.identifier)
    &&& tok_is(tv, i + 2, Token::Semicolon)
    &&& spans(tv, i, i + 2, d.span)
}

/// The tokens `tv` are the program `p`: its declarations, then its
/// instructions, each followed by `;`, to the last token.
pub open spec fn program_at(tv: Toks, p: Program) -> bool {
    let n = 3 * (p.declarations@.len() as int);
    &&& forall|m: int|
        0 <= m < p.declarations@.len() ==> decl_at(tv, #[trigger] p.declarations@[m], 3 * m)
    &&& n <= tv.len()
    &&& items_at(tv, p.instructions@, 0, n, tv.len() as int)
}

/// The tokens `i..k` are the statement `s` followed by `;`.
pub open spec fn item_at(tv: Toks, i: int, k: int, s: Statement) -> bool {
    stmt_at(tv, i, k - 1, s) && tok_is(tv, k - 1, Token::Semicolon)
}

/// Statements that follow each other, each ended by `;`, from the token
/// positions `ps` on.
pub proof fn lemma_items_from(tv: Toks, stmts: Seq<Statement>, ps: Seq<int>, m: int)
    requires
        ps.len() == stmts.len() + 1,
        0 <= m <= stmts.len(),
        0 <= ps[m],
        forall|q: int| 0 <= q < stmts.len() ==> item_at(tv, ps[q], ps[q + 1], #[trigger] stmts[q]),
    ensures
        items_at(tv, stmts, m, ps[m], ps.last()),
    decreases stmts.len() - m,
{
    if m < stmts.len() {
        assert(stmt_at(tv, ps[m], ps[m + 1] - 1, stmts[m]));
        lemma_items_from(tv, stmts, ps, m + 1);
        assert(tok_is(tv, ps[m + 1] - 1, Token::Semicolon));
    }
}

/// The tokens from `k` to `b` are the branch `elif c then s`, with `then` at `a`.
pub open spec fn elif_at(tv: Toks, k: int, a: int, b: int, branch: (Expr, Statement)) -> bool {
    &&& tok_is(tv, k, Token::Elif)
    &&& expr_at(tv, 8, k + 1, a, branch.0)
    &&& tok_is(tv, a, Token::Then)
    &&& stmt_at(tv, a + 1, b, branch.1)
}

/// The `elif` branches from index `m` on, the `n`-th running from the
/// `elif` at `bs[n]` through the `then` at `as_[n]` to `bs[n + 1]`, then
/// the rest of the `if`.
pub proof fn lemma_if_rest_from(
    tv: Toks,
    elifs: Seq<(Expr, Statement)>,
    else_branch: Option<Box<Statement>>,
    bs: Seq<int>,
    as_: Seq<int>,
    m: int,
    j: int,
)
    requires
        bs.len() == elifs.len() + 1,
        as_.len() == elifs.len(),
        0 <= m <= elifs.len(),
        0 <= bs[m],
        if_rest(tv, elifs, else_branch, elifs.len() as int, bs.last(), j),
        forall|q: int|
            0 <= q < elifs.len() ==> elif_at(tv, bs[q], as_[q], bs[q + 1], #[trigger] elifs[q]),
    ensures
        if_rest(tv, elifs, else_branch, m, bs[m], j),
    decreases elifs.len() - m,
{
    if m < elifs.len() {
        let e = elifs[m];
        lemma_if_rest_from(tv, elifs, else_branch, bs, as_, m + 1, j);
        assert(boundary(bs[m + 1]));
        assert(tok_is(tv, as_[m], Token::Then));
    }
}

} // verus!
