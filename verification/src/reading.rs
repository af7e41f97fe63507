//! What a run reads of its input: a run that finds a line at every read
//! ends the same on any longer input, so a program can be run on the
//! input seen so far and run again once more has come.
use crate::ast::{Expr, ExprKind, Program, Statement, StmtKind};
use crate::semantics::{
    eval, exec, exec_block, exec_elifs, for_loop, initial_ctx, initial_state, line_end,
    read_line, run_from, run_program, Ctx, State,
};
use vstd::prelude::*;

verus! {

/// `c2` is `c1` with more input after a line break: the same names and
/// types, and an input that starts with all of `c1`'s, which is empty or
/// ends with `\n`.
pub open spec fn extends(c1: Ctx, c2: Ctx) -> bool {
    &&& c2.names == c1.names
    &&& c2.types == c1.types
    &&& c1.input.len() <= c2.input.len()
    &&& c2.input.subrange(0, c1.input.len() as int) == c1.input
    &&& (c1.input.len() == 0 || c1.input.last() == '\n')
}

proof fn lemma_line_end_same(c1: Ctx, c2: Ctx, pos: int)
    requires
        extends(c1, c2),
        0 <= pos < c1.input.len(),
    ensures
        line_end(c2.input, pos) == line_end(c1.input, pos),
        pos < line_end(c1.input, pos) <= c1.input.len(),
    decreases c1.input.len() - pos,
{
    assert(c2.input[pos] == c2.input.subrange(0, c1.input.len() as int)[pos]);
    if c1.input[pos] != '\n' {
        lemma_line_end_same(c1, c2, pos + 1);
    }
}

/// A line read where input is left is the same line on the longer input.
proof fn lemma_read_line_same(c1: Ctx, c2: Ctx, pos: int)
    requires
        extends(c1, c2),
        0 <= pos < c1.input.len(),
    ensures
        read_line(c2.input, pos) == read_line(c1.input, pos),
{
    lemma_line_end_same(c1, c2, pos);
    let j = line_end(c1.input, pos);
    assert(c2.input.subrange(pos, j) =~= c1.input.subrange(pos, j)) by {
        assert forall|q: int| pos <= q < j implies c2.input[q] == c1.input[q] by {
            assert(c2.input[q] == c2.input.subrange(0, c1.input.len() as int)[q]);
        }
    }
}

/// Evaluating `e` never moves the input position back and leaves a
/// starved state starved; and when the evaluation on `c1` is not starved,
/// it is the same on `c2`.
#[verifier::opaque]
pub open spec fn same_eval(c1: Ctx, c2: Ctx, st: State, e: Expr) -> bool {
    &&& eval(c1, st, e).1.pos >= st.pos
    &&& st.starved ==> eval(c1, st, e).1.starved
    &&& (!eval(c1, st, e).1.starved && st.pos >= 0) ==> eval(c2, st, e) == eval(c1, st, e)
}

proof fn lemma_same_add(c1: Ctx, c2: Ctx, st: State, e: Expr, a: Box<Expr>, b: Box<Expr>)
    requires
        e.kind == ExprKind::Add(a, b),
        same_eval(c1, c2, st, *a),
        same_eval(c1, c2, eval(c1, st, *a).1, *b),
    ensures
        same_eval(c1, c2, st, e),
{
    reveal(same_eval);
}

proof fn lemma_same_sub(c1: Ctx, c2: Ctx, st: State, e: Expr, a: Box<Expr>, b: Box<Expr>)
    requires
        e.kind == ExprKind::Sub(a, b),
        same_eval(c1, c2, st, *a),
        same_eval(c1, c2, eval(c1, st, *a).1, *b),
    ensures
        same_eval(c1, c2, st, e),
{
    reveal(same_eval);
}

proof fn lemma_same_mul(c1: Ctx, c2: Ctx, st: State, e: Expr, a: Box<Expr>, b: Box<Expr>)
    requires
        e.kind == ExprKind::Mul(a, b),
        same_eval(c1, c2, st, *a),
        same_eval(c1, c2, eval(c1, st, *a).1, *b),
    ensures
        same_eval(c1, c2, st, e),
{
    reveal(same_eval);
}

proof fn lemma_same_concatenate(c1: Ctx, c2: Ctx, st: State, e: Expr, a: Box<Expr>, b: Box<Expr>)
    requires
        e.kind == ExprKind::Concatenate(a, b),
        same_eval(c1, c2, st, *a),
        same_eval(c1, c2, eval(c1, st, *a).1, *b),
    ensures
        same_eval(c1, c2, st, e),
{
    reveal(same_eval);
}

proof fn lemma_same_position(c1: Ctx, c2: Ctx, st: State, e: Expr, a: Box<Expr>, b: Box<Expr>)
    requires
        e.kind == ExprKind::Position(a, b),
        same_eval(c1, c2, st, *a),
        same_eval(c1, c2, eval(c1, st, *a).1, *b),
    ensures
        same_eval(c1, c2, st, e),
{
    reveal(same_eval);
}

proof fn lemma_same_and(c1: Ctx, c2: Ctx, st: State, e: Expr, a: Box<Expr>, b: Box<Expr>)
    requires
        e.kind == ExprKind::And(a, b),
        same_eval(c1, c2, st, *a),
        same_eval(c1, c2, eval(c1, st, *a).1, *b),
    ensures
        same_eval(c1, c2, st, e),
{
    reveal(same_eval);
}

proof fn lemma_same_or(c1: Ctx, c2: Ctx, st: State, e: Expr, a: Box<Expr>, b: Box<Expr>)
    requires
        e.kind == ExprKind::Or(a, b),
        same_eval(c1, c2, st, *a),
        same_eval(c1, c2, eval(c1, st, *a).1, *b),
    ensures
        same_eval(c1, c2, st, e),
{
    reveal(same_eval);
}

proof fn lemma_same_eq(c1: Ctx, c2: Ctx, st: State, e: Expr, a: Box<Expr>, b: Box<Expr>)
    requires
        e.kind == ExprKind::Eq(a, b),
        same_eval(c1, c2, st, *a),
        same_eval(c1, c2, eval(c1, st, *a).1, *b),
    ensures
        same_eval(c1, c2, st, e),
{
    reveal(same_eval);
}

proof fn lemma_same_neq(c1: Ctx, c2: Ctx, st: State, e: Expr, a: Box<Expr>, b: Box<Expr>)
    requires
        e.kind == ExprKind::Neq(a, b),
        same_eval(c1, c2, st, *a),
        same_eval(c1, c2, eval(c1, st, *a).1, *b),
    ensures
        same_eval(c1, c2, st, e),
{
    reveal(same_eval);
}

proof fn lemma_same_less(c1: Ctx, c2: Ctx, st: State, e: Expr, a: Box<Expr>, b: Box<Expr>)
    requires
        e.kind == ExprKind::Less(a, b),
        same_eval(c1, c2, st, *a),
        same_eval(c1, c2, eval(c1, st, *a).1, *b),
    ensures
        same_eval(c1, c2, st, e),
{
    reveal(same_eval);
}

proof fn lemma_same_lesseq(c1: Ctx, c2: Ctx, st: State, e: Expr, a: Box<Expr>, b: Box<Expr>)
    requires
        e.kind == ExprKind::LessEq(a, b),
        same_eval(c1, c2, st, *a),
        same_eval(c1, c2, eval(c1, st, *a).1, *b),
    ensures
        same_eval(c1, c2, st, e),
{
    reveal(same_eval);
}

proof fn lemma_same_greater(c1: Ctx, c2: Ctx, st: State, e: Expr, a: Box<Expr>, b: Box<Expr>)
    requires
        e.kind == ExprKind::Greater(a, b),
        same_eval(c1, c2, st, *a),
        same_eval(c1, c2, eval(c1, st, *a).1, *b),
    ensures
        same_eval(c1, c2, st, e),
{
    reveal(same_eval);
}

proof fn lemma_same_greatereq(c1: Ctx, c2: Ctx, st: State, e: Expr, a: Box<Expr>, b: Box<Expr>)
    requires
        e.kind == ExprKind::GreaterEq(a, b),
        same_eval(c1, c2, st, *a),
        same_eval(c1, c2, eval(c1, st, *a).1, *b),
    ensures
        same_eval(c1, c2, st, e),
{
    reveal(same_eval);
}

proof fn lemma_same_div(c1: Ctx, c2: Ctx, st: State, e: Expr, a: Box<Expr>, b: Box<Expr>)
    requires
        e.kind == ExprKind::Div(a, b),
        same_eval(c1, c2, st, *b),
        same_eval(c1, c2, eval(c1, st, *b).1, *a),
    ensures
        same_eval(c1, c2, st, e),
{
    reveal(same_eval);
}

proof fn lemma_same_mod(c1: Ctx, c2: Ctx, st: State, e: Expr, a: Box<Expr>, b: Box<Expr>)
    requires
        e.kind == ExprKind::Mod(a, b),
        same_eval(c1, c2, st, *b),
        same_eval(c1, c2, eval(c1, st, *b).1, *a),
    ensures
        same_eval(c1, c2, st, e),
{
    reveal(same_eval);
}

proof fn lemma_same_substring(
    c1: Ctx,
    c2: Ctx,
    st: State,
    e: Expr,
    x: Box<Expr>,
    p: Box<Expr>,
    l: Box<Expr>,
)
    requires
        e.kind == ExprKind::Substring(x, p, l),
        same_eval(c1, c2, st, *x),
        same_eval(c1, c2, eval(c1, st, *x).1, *p),
        same_eval(c1, c2, eval(c1, eval(c1, st, *x).1, *p).1, *l),
    ensures
        same_eval(c1, c2, st, e),
{
    reveal(same_eval);
}

proof fn lemma_same_length(c1: Ctx, c2: Ctx, st: State, e: Expr, a: Box<Expr>)
    requires
        e.kind == ExprKind::Length(a),
        same_eval(c1, c2, st, *a),
    ensures
        same_eval(c1, c2, st, e),
{
    reveal(same_eval);
}

proof fn lemma_same_not(c1: Ctx, c2: Ctx, st: State, e: Expr, a: Box<Expr>)
    requires
        e.kind == ExprKind::Not(a),
        same_eval(c1, c2, st, *a),
    ensures
        same_eval(c1, c2, st, e),
{
    reveal(same_eval);
}

proof fn lemma_same_leaf(c1: Ctx, c2: Ctx, st: State, e: Expr)
    requires
        extends(c1, c2),
        match e.kind {
            ExprKind::Number(_) | ExprKind::StringLit(_) | ExprKind::Identifier(_)
            | ExprKind::True | ExprKind::False | ExprKind::ReadInt | ExprKind::ReadStr
            | ExprKind::ReadBool => true,
            _ => false,
        },
    ensures
        same_eval(c1, c2, st, e),
{
    reveal(same_eval);
    if 0 <= st.pos < c1.input.len() {
        lemma_read_line_same(c1, c2, st.pos);
    }
}

proof fn lemma_eval_same(c1: Ctx, c2: Ctx, st: State, e: Expr)
    requires
        extends(c1, c2),
    ensures
        same_eval(c1, c2, st, e),
    decreases e,
{
    match e.kind {
        ExprKind::Add(a, b) => {
            lemma_eval_same(c1, c2, st, *a);
            lemma_eval_same(c1, c2, eval(c1, st, *a).1, *b);
            lemma_same_add(c1, c2, st, e, a, b);
        },
        ExprKind::Sub(a, b) => {
            lemma_eval_same(c1, c2, st, *a);
            lemma_eval_same(c1, c2, eval(c1, st, *a).1, *b);
            lemma_same_sub(c1, c2, st, e, a, b);
        },
        ExprKind::Mul(a, b) => {
            lemma_eval_same(c1, c2, st, *a);
            lemma_eval_same(c1, c2, eval(c1, st, *a).1, *b);
            lemma_same_mul(c1, c2, st, e, a, b);
        },
        ExprKind::Concatenate(a, b) => {
            lemma_eval_same(c1, c2, st, *a);
            lemma_eval_same(c1, c2, eval(c1, st, *a).1, *b);
            lemma_same_concatenate(c1, c2, st, e, a, b);
        },
        ExprKind::Position(a, b) => {
            lemma_eval_same(c1, c2, st, *a);
            lemma_eval_same(c1, c2, eval(c1, st, *a).1, *b);
            lemma_same_position(c1, c2, st, e, a, b);
        },
        ExprKind::And(a, b) => {
            lemma_eval_same(c1, c2, st, *a);
            lemma_eval_same(c1, c2, eval(c1, st, *a).1, *b);
            lemma_same_and(c1, c2, st, e, a, b);
        },
        ExprKind::Or(a, b) => {
            lemma_eval_same(c1, c2, st, *a);
            lemma_eval_same(c1, c2, eval(c1, st, *a).1, *b);
            lemma_same_or(c1, c2, st, e, a, b);
        },
        ExprKind::Eq(a, b) => {
            lemma_eval_same(c1, c2, st, *a);
            lemma_eval_same(c1, c2, eval(c1, st, *a).1, *b);
            lemma_same_eq(c1, c2, st, e, a, b);
        },
        ExprKind::Neq(a, b) => {
            lemma_eval_same(c1, c2, st, *a);
            lemma_eval_same(c1, c2, eval(c1, st, *a).1, *b);
            lemma_same_neq(c1, c2, st, e, a, b);
        },
        ExprKind::Less(a, b) => {
            lemma_eval_same(c1, c2, st, *a);
            lemma_eval_same(c1, c2, eval(c1, st, *a).1, *b);
            lemma_same_less(c1, c2, st, e, a, b);
        },
        ExprKind::LessEq(a, b) => {
            lemma_eval_same(c1, c2, st, *a);
            lemma_eval_same(c1, c2, eval(c1, st, *a).1, *b);
            lemma_same_lesseq(c1, c2, st, e, a, b);
        },
        ExprKind::Greater(a, b) => {
            lemma_eval_same(c1, c2, st, *a);
            lemma_eval_same(c1, c2, eval(c1, st, *a).1, *b);
            lemma_same_greater(c1, c2, st, e, a, b);
        },
        ExprKind::GreaterEq(a, b) => {
            lemma_eval_same(c1, c2, st, *a);
            lemma_eval_same(c1, c2, eval(c1, st, *a).1, *b);
            lemma_same_greatereq(c1, c2, st, e, a, b);
        },
        ExprKind::Div(a, b) => {
            lemma_eval_same(c1, c2, st, *b);
            lemma_eval_same(c1, c2, eval(c1, st, *b).1, *a);
            lemma_same_div(c1, c2, st, e, a, b);
        },
        ExprKind::Mod(a, b) => {
            lemma_eval_same(c1, c2, st, *b);
            lemma_eval_same(c1, c2, eval(c1, st, *b).1, *a);
            lemma_same_mod(c1, c2, st, e, a, b);
        },
        ExprKind::Substring(x, p, l) => {
            lemma_eval_same(c1, c2, st, *x);
            let s1 = eval(c1, st, *x).1;
            lemma_eval_same(c1, c2, s1, *p);
            lemma_eval_same(c1, c2, eval(c1, s1, *p).1, *l);
            lemma_same_substring(c1, c2, st, e, x, p, l);
        },
        ExprKind::Length(a) => {
            lemma_eval_same(c1, c2, st, *a);
            lemma_same_length(c1, c2, st, e, a);
        },
        ExprKind::Not(a) => {
            lemma_eval_same(c1, c2, st, *a);
            lemma_same_not(c1, c2, st, e, a);
        },
        _ => {
            lemma_same_leaf(c1, c2, st, e);
        },
    }
}


/// Running `s` never moves the input position back and leaves a starved
/// state starved; and when the run on `c1` is not starved, it is the same
/// on `c2`.
#[verifier::opaque]
pub open spec fn same_exec(c1: Ctx, c2: Ctx, st: State, s: Statement) -> bool {
    &&& exec(c1, st, s).1.pos >= st.pos
    &&& st.starved ==> exec(c1, st, s).1.starved
    &&& (!exec(c1, st, s).1.starved && st.pos >= 0) ==> exec(c2, st, s) == exec(c1, st, s)
}

#[verifier::opaque]
pub open spec fn same_elifs(c1: Ctx, c2: Ctx, st: State, b: Seq<(Expr, Statement)>, i: int) -> bool {
    &&& exec_elifs(c1, st, b, i).1.pos >= st.pos
    &&& st.starved ==> exec_elifs(c1, st, b, i).1.starved
    &&& (!exec_elifs(c1, st, b, i).1.starved && st.pos >= 0) ==> exec_elifs(c2, st, b, i)
        == exec_elifs(c1, st, b, i)
}

#[verifier::opaque]
pub open spec fn same_block(c1: Ctx, c2: Ctx, st: State, v: Seq<Statement>, i: int) -> bool {
    &&& exec_block(c1, st, v, i).1.pos >= st.pos
    &&& st.starved ==> exec_block(c1, st, v, i).1.starved
    &&& (!exec_block(c1, st, v, i).1.starved && st.pos >= 0) ==> exec_block(c2, st, v, i)
        == exec_block(c1, st, v, i)
}

#[verifier::opaque]
pub open spec fn same_loop(
    c1: Ctx,
    c2: Ctx,
    st: State,
    k: int,
    cur: i32,
    hi: i32,
    body: Statement,
) -> bool {
    &&& for_loop(c1, st, k, cur, hi, body).1.pos >= st.pos
    &&& st.starved ==> for_loop(c1, st, k, cur, hi, body).1.starved
    &&& (!for_loop(c1, st, k, cur, hi, body).1.starved && st.pos >= 0) ==> for_loop(
        c2,
        st,
        k,
        cur,
        hi,
        body,
    ) == for_loop(c1, st, k, cur, hi, body)
}

proof fn lemma_same_assign(c1: Ctx, c2: Ctx, st: State, s: Statement, id: String, e: Box<Expr>)
    requires
        extends(c1, c2),
        s.kind == StmtKind::Assign(id, e),
        same_eval(c1, c2, st, *e),
    ensures
        same_exec(c1, c2, st, s),
{
    reveal(same_eval);
    reveal(same_exec);
}

proof fn lemma_same_print(c1: Ctx, c2: Ctx, st: State, s: Statement, e: Box<Expr>)
    requires
        s.kind == StmtKind::Print(e),
        same_eval(c1, c2, st, *e),
    ensures
        same_exec(c1, c2, st, s),
{
    reveal(same_eval);
    reveal(same_exec);
}

proof fn lemma_same_if(
    c1: Ctx,
    c2: Ctx,
    st: State,
    s: Statement,
    condition: Box<Expr>,
    then_branch: Box<Statement>,
    elif_branches: Vec<(Expr, Statement)>,
    else_branch: Option<Box<Statement>>,
)
    requires
        s.kind == (StmtKind::If { condition, then_branch, elif_branches, else_branch }),
        same_eval(c1, c2, st, *condition),
        same_exec(c1, c2, eval(c1, st, *condition).1, *then_branch),
        same_elifs(c1, c2, eval(c1, st, *condition).1, elif_branches@, 0),
        match else_branch {
            Some(b) => same_exec(
                c1,
                c2,
                exec_elifs(c1, eval(c1, st, *condition).1, elif_branches@, 0).1,
                *b,
            ),
            None => true,
        },
    ensures
        same_exec(c1, c2, st, s),
{
    reveal(same_eval);
    reveal(same_exec);
    reveal(same_elifs);
}

proof fn lemma_same_for(
    c1: Ctx,
    c2: Ctx,
    st: State,
    s: Statement,
    iterator: String,
    from: Box<Expr>,
    to: Box<Expr>,
    body: Box<Statement>,
)
    requires
        extends(c1, c2),
        s.kind == (StmtKind::For { iterator, from, to, body }),
        same_eval(c1, c2, st, *from),
        same_eval(c1, c2, eval(c1, st, *from).1, *to),
        ({
            let rf = crate::semantics::as_int(eval(c1, st, *from));
            let rt = crate::semantics::as_int(eval(c1, rf.1, *to));
            match (rf.0, rt.0) {
                (Ok(lo), Ok(hi)) => same_loop(
                    c1,
                    c2,
                    rt.1,
                    crate::semantics::slot_of(c1.names, iterator@),
                    lo,
                    hi,
                    *body,
                ),
                _ => true,
            }
        }),
    ensures
        same_exec(c1, c2, st, s),
{
    reveal(same_eval);
    reveal(same_exec);
    reveal(same_loop);
}

proof fn lemma_same_block(c1: Ctx, c2: Ctx, st: State, s: Statement, v: Vec<Statement>)
    requires
        s.kind == StmtKind::Block(v),
        same_block(c1, c2, st, v@, 0),
    ensures
        same_exec(c1, c2, st, s),
{
    reveal(same_exec);
    reveal(same_block);
}

proof fn lemma_exec_same(c1: Ctx, c2: Ctx, st: State, s: Statement)
    requires
        extends(c1, c2),
    ensures
        same_exec(c1, c2, st, s),
    decreases s, 0int,
{
    match s.kind {
        StmtKind::Assign(id, e) => {
            lemma_eval_same(c1, c2, st, *e);
            lemma_same_assign(c1, c2, st, s, id, e);
        },
        StmtKind::If { condition, then_branch, elif_branches, else_branch } => {
            lemma_eval_same(c1, c2, st, *condition);
            let s1 = eval(c1, st, *condition).1;
            lemma_exec_same(c1, c2, s1, *then_branch);
            lemma_elifs_same(c1, c2, s1, elif_branches@, 0);
            if let Some(b) = else_branch {
                lemma_exec_same(c1, c2, exec_elifs(c1, s1, elif_branches@, 0).1, *b);
            }
            lemma_same_if(c1, c2, st, s, condition, then_branch, elif_branches, else_branch);
        },
        StmtKind::For { iterator, from, to, body } => {
            lemma_eval_same(c1, c2, st, *from);
            let s1 = eval(c1, st, *from).1;
            lemma_eval_same(c1, c2, s1, *to);
            let rf = crate::semantics::as_int(eval(c1, st, *from));
            let rt = crate::semantics::as_int(eval(c1, rf.1, *to));
            if let (Ok(lo), Ok(hi)) = (rf.0, rt.0) {
                lemma_loop_same(
                    c1,
                    c2,
                    rt.1,
                    crate::semantics::slot_of(c1.names, iterator@),
                    lo,
                    hi,
                    *body,
                );
            }
            lemma_same_for(c1, c2, st, s, iterator, from, to, body);
        },
        StmtKind::Block(v) => {
            lemma_block_same(c1, c2, st, v@, 0);
            lemma_same_block(c1, c2, st, s, v);
        },
        StmtKind::Print(e) => {
            lemma_eval_same(c1, c2, st, *e);
            lemma_same_print(c1, c2, st, s, e);
        },
        _ => {
            reveal(same_exec);
        },
    }
}

proof fn lemma_elifs_same(c1: Ctx, c2: Ctx, st: State, b: Seq<(Expr, Statement)>, i: int)
    requires
        extends(c1, c2),
    ensures
        same_elifs(c1, c2, st, b, i),
    decreases b, b.len() - i,
{
    if 0 <= i < b.len() {
        lemma_eval_same(c1, c2, st, b[i].0);
        let s1 = eval(c1, st, b[i].0).1;
        lemma_exec_same(c1, c2, s1, b[i].1);
        lemma_elifs_same(c1, c2, s1, b, i + 1);
        reveal(same_eval);
        reveal(same_exec);
        reveal(same_elifs);
    } else {
        reveal(same_elifs);
    }
}

proof fn lemma_block_same(c1: Ctx, c2: Ctx, st: State, v: Seq<Statement>, i: int)
    requires
        extends(c1, c2),
    ensures
        same_block(c1, c2, st, v, i),
    decreases v, v.len() - i,
{
    if 0 <= i < v.len() {
        lemma_exec_same(c1, c2, st, v[i]);
        lemma_block_same(c1, c2, exec(c1, st, v[i]).1, v, i + 1);
        reveal(same_exec);
        reveal(same_block);
    } else {
        reveal(same_block);
    }
}

proof fn lemma_loop_same(c1: Ctx, c2: Ctx, st: State, k: int, cur: i32, hi: i32, body: Statement)
    requires
        extends(c1, c2),
    ensures
        same_loop(c1, c2, st, k, cur, hi, body),
    decreases body, hi - cur + 1,
{
    if cur <= hi {
        let st1 = crate::semantics::assign(st, k, crate::semantics::SpecValue::Int(cur));
        lemma_exec_same(c1, c2, st1, body);
        if cur < i32::MAX {
            lemma_loop_same(c1, c2, exec(c1, st1, body).1, k, (cur + 1) as i32, hi, body);
        }
        reveal(same_exec);
    }
    reveal(same_loop);
}

proof fn lemma_run_same(c1: Ctx, c2: Ctx, st: State, v: Seq<Statement>, i: int)
    requires
        extends(c1, c2),
        st.pos >= 0,
    ensures
        st.starved ==> run_from(c1, st, v, i).1.starved,
        !run_from(c1, st, v, i).1.starved ==> run_from(c2, st, v, i) == run_from(c1, st, v, i),
    decreases v.len() - i,
{
    if 0 <= i < v.len() {
        lemma_exec_same(c1, c2, st, v[i]);
        reveal(same_exec);
        lemma_run_same(c1, c2, exec(c1, st, v[i]).1, v, i + 1);
    }
}

/// A run that finds a line at every read ends the same on any longer
/// input, when the input it had ends at a line break (or is empty): the
/// same output, the same result, the same variables.
pub proof fn run_same_on_more_input(p: Program, input: Seq<char>, more: Seq<char>)
    requires
        input.len() == 0 || input.last() == '\n',
        !run_program(p, input).1.starved,
    ensures
        run_program(p, input + more) == run_program(p, input),
{
    let c1 = initial_ctx(p, input);
    let c2 = initial_ctx(p, input + more);
    assert((input + more).subrange(0, input.len() as int) =~= input);
    assert(extends(c1, c2));
    lemma_run_same(c1, c2, initial_state(p), p.instructions@, 0);
}

} // verus!
