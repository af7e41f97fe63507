//! What the checker guarantees about running a program: a program that it
//! accepts names only declared variables, and its run never fails on a
//! type mismatch.
use crate::ast::{Declaration, Expr, ExprKind, Program, Statement, StmtKind, Type};
use crate::checker::{
    check_elifs_spec, check_expr_spec, check_program_spec, check_stmt_spec, check_stmts_spec,
    declare_spec, expect_spec, lookup, program_symbols,
};
use crate::grammar::program_lits_ok;
use crate::interp::RuntimeError;
use crate::semantics::{
    as_int, assign, elifs_lits_ok, elifs_ok, eval, exec, exec_block, exec_elifs, expr_lits_ok,
    expr_ok, find_slot, for_loop, initial_ctx, initial_state, program_ok, run_from, run_program,
    slot_of, stmt_lits_ok, stmt_ok, stmts_lits_ok, stmts_ok, Ctx, Flow, SpecValue, State,
};
use vstd::prelude::*;

verus! {

/// `v` is a value of type `t`.
pub open spec fn has_type(v: SpecValue, t: Type) -> bool {
    match (v, t) {
        (SpecValue::Int(_), Type::Integer) => true,
        (SpecValue::Str(_), Type::String) => true,
        (SpecValue::Bool(_), Type::Boolean) => true,
        _ => false,
    }
}

/// The type of a well-typed expression: operands of the types that their
/// operator takes, declared variables, and `=`, `<>` on two values of one type.
pub open spec fn typed(syms: Seq<(Seq<char>, Type)>, e: Expr) -> Option<Type>
    decreases e,
{
    let t_int = Some(Type::Integer);
    let t_str = Some(Type::String);
    let t_bool = Some(Type::Boolean);
    match e.kind {
        ExprKind::Number(_) | ExprKind::ReadInt => t_int,
        ExprKind::StringLit(_) | ExprKind::ReadStr => t_str,
        ExprKind::True | ExprKind::False | ExprKind::ReadBool => t_bool,
        ExprKind::Identifier(id) => lookup(syms, id@),
        ExprKind::Add(a, b) | ExprKind::Sub(a, b) | ExprKind::Mul(a, b) | ExprKind::Div(a, b)
        | ExprKind::Mod(a, b) => if typed(syms, *a) == t_int && typed(syms, *b) == t_int {
            t_int
        } else {
            None
        },
        ExprKind::Concatenate(a, b) => if typed(syms, *a) == t_str && typed(syms, *b) == t_str {
            t_str
        } else {
            None
        },
        ExprKind::Substring(s, p, l) => if typed(syms, *s) == t_str && typed(syms, *p) == t_int
            && typed(syms, *l) == t_int {
            t_str
        } else {
            None
        },
        ExprKind::Length(s) => if typed(syms, *s) == t_str {
            t_int
        } else {
            None
        },
        ExprKind::Position(a, b) => if typed(syms, *a) == t_str && typed(syms, *b) == t_str {
            t_int
        } else {
            None
        },
        ExprKind::Not(a) => if typed(syms, *a) == t_bool {
            t_bool
        } else {
            None
        },
        ExprKind::And(a, b) | ExprKind::Or(a, b) => if typed(syms, *a) == t_bool && typed(
            syms,
            *b,
        ) == t_bool {
            t_bool
        } else {
            None
        },
        ExprKind::Eq(a, b) | ExprKind::Neq(a, b) => if typed(syms, *a) is Some && typed(syms, *a)
            == typed(syms, *b) {
            t_bool
        } else {
            None
        },
        ExprKind::Less(a, b) | ExprKind::LessEq(a, b) | ExprKind::Greater(a, b)
        | ExprKind::GreaterEq(a, b) => if typed(syms, *a) == t_int && typed(syms, *b) == t_int {
            t_bool
        } else {
            None
        },
    }
}

/// A well-typed statement: assignments of the variable's type, boolean
/// conditions, integer loop bounds and counters, and `break` or `continue`
/// only inside a loop.
pub open spec fn stmt_typed(syms: Seq<(Seq<char>, Type)>, in_loop: bool, s: Statement) -> bool
    decreases s, 0int,
{
    match s.kind {
        StmtKind::Assign(id, e) => lookup(syms, id@) is Some && typed(syms, *e) == lookup(syms, id@),
        StmtKind::If { condition, then_branch, elif_branches, else_branch } => {
            &&& typed(syms, *condition) == Some(Type::Boolean)
            &&& stmt_typed(syms, in_loop, *then_branch)
            &&& elifs_typed(syms, in_loop, elif_branches@, 0)
            &&& match else_branch {
                Some(b) => stmt_typed(syms, in_loop, *b),
                None => true,
            }
        },
        StmtKind::For { iterator, from, to, body } => {
            &&& lookup(syms, iterator@) == Some(Type::Integer)
            &&& typed(syms, *from) == Some(Type::Integer)
            &&& typed(syms, *to) == Some(Type::Integer)
            &&& stmt_typed(syms, true, *body)
        },
        StmtKind::Block(stmts) => stmts_typed(syms, in_loop, stmts@, 0),
        StmtKind::Print(e) => typed(syms, *e) is Some,
        StmtKind::Break | StmtKind::Continue => in_loop,
        StmtKind::Exit => true,
    }
}

pub open spec fn elifs_typed(
    syms: Seq<(Seq<char>, Type)>,
    in_loop: bool,
    branches: Seq<(Expr, Statement)>,
    i: int,
) -> bool
    decreases branches, branches.len() - i,
{
    if i < 0 || i >= branches.len() {
        true
    } else {
        &&& typed(syms, branches[i].0) == Some(Type::Boolean)
        &&& stmt_typed(syms, in_loop, branches[i].1)
        &&& elifs_typed(syms, in_loop, branches, i + 1)
    }
}

pub open spec fn stmts_typed(
    syms: Seq<(Seq<char>, Type)>,
    in_loop: bool,
    stmts: Seq<Statement>,
    i: int,
) -> bool
    decreases stmts, stmts.len() - i,
{
    if i < 0 || i >= stmts.len() {
        true
    } else {
        stmt_typed(syms, in_loop, stmts[i]) && stmts_typed(syms, in_loop, stmts, i + 1)
    }
}

// ---------------------------------------------------------------------------
// What the checker accepts is well typed.
pub(crate) proof fn lemma_check_expr_typed(syms: Seq<(Seq<char>, Type)>, e: Expr)
    requires
        check_expr_spec(syms, e).diags.len() == 0,
    ensures
        check_expr_spec(syms, e).ty is Some,
        typed(syms, e) == check_expr_spec(syms, e).ty,
    decreases e, 0nat,
{
    match e.kind {
        ExprKind::Add(a, b) | ExprKind::Sub(a, b) | ExprKind::Mul(a, b) | ExprKind::Div(a, b)
        | ExprKind::Mod(a, b) | ExprKind::Less(a, b) | ExprKind::LessEq(a, b)
        | ExprKind::Greater(a, b) | ExprKind::GreaterEq(a, b) => {
            lemma_expect_typed(syms, *a, Type::Integer);
            lemma_expect_typed(syms, *b, Type::Integer);
        },
        ExprKind::Concatenate(a, b) | ExprKind::Position(a, b) => {
            lemma_expect_typed(syms, *a, Type::String);
            lemma_expect_typed(syms, *b, Type::String);
        },
        ExprKind::And(a, b) | ExprKind::Or(a, b) => {
            lemma_expect_typed(syms, *a, Type::Boolean);
            lemma_expect_typed(syms, *b, Type::Boolean);
        },
        ExprKind::Substring(s, p, l) => {
            assert(expect_spec(syms, *s, Type::String).diags.len() == 0);
            lemma_expect_typed(syms, *s, Type::String);
            lemma_expect_typed(syms, *p, Type::Integer);
            lemma_expect_typed(syms, *l, Type::Integer);
        },
        ExprKind::Length(s) => {
            lemma_expect_typed(syms, *s, Type::String);
        },
        ExprKind::Not(a) => {
            lemma_expect_typed(syms, *a, Type::Boolean);
        },
        ExprKind::Eq(a, b) | ExprKind::Neq(a, b) => {
            let x = check_expr_spec(syms, *a);
            let y = check_expr_spec(syms, *b);
            assert((x.diags + y.diags).len() == 0);
            lemma_check_expr_typed(syms, *a);
            lemma_check_expr_typed(syms, *b);
        },
        _ => {},
    }
}

proof fn lemma_expect_typed(syms: Seq<(Seq<char>, Type)>, e: Expr, t: Type)
    requires
        expect_spec(syms, e, t).diags.len() == 0,
    ensures
        typed(syms, e) == Some(t),
    decreases e, 1nat,
{
    lemma_check_expr_typed(syms, e);
}

proof fn lemma_check_stmt_typed(syms: Seq<(Seq<char>, Type)>, in_loop: bool, s: Statement)
    requires
        check_stmt_spec(syms, in_loop, s).diags.len() == 0,
    ensures
        stmt_typed(syms, in_loop, s),
    decreases s, 0int,
{
    match s.kind {
        StmtKind::Assign(id, e) => {
            let c = check_expr_spec(syms, *e);
            assert(c.diags.len() == 0);
            lemma_check_expr_typed(syms, *e);
        },
        StmtKind::If { condition, then_branch, elif_branches, else_branch } => {
            let c = expect_spec(syms, *condition, Type::Boolean);
            let t = check_stmt_spec(syms, in_loop, *then_branch);
            let el = check_elifs_spec(syms, in_loop, elif_branches@, 0);
            assert(c.diags.len() == 0 && t.diags.len() == 0 && el.diags.len() == 0);
            lemma_expect_typed(syms, *condition, Type::Boolean);
            lemma_check_stmt_typed(syms, in_loop, *then_branch);
            lemma_check_elifs_typed(syms, in_loop, elif_branches@, 0);
            if let Some(b) = else_branch {
                lemma_check_stmt_typed(syms, in_loop, *b);
            }
        },
        StmtKind::For { iterator, from, to, body } => {
            let f = expect_spec(syms, *from, Type::Integer);
            let t = expect_spec(syms, *to, Type::Integer);
            let b = check_stmt_spec(syms, true, *body);
            assert(f.diags.len() == 0 && t.diags.len() == 0 && b.diags.len() == 0);
            lemma_expect_typed(syms, *from, Type::Integer);
            lemma_expect_typed(syms, *to, Type::Integer);
            lemma_check_stmt_typed(syms, true, *body);
        },
        StmtKind::Block(stmts) => {
            lemma_check_stmts_typed(syms, in_loop, stmts@, 0);
        },
        StmtKind::Print(e) => {
            lemma_check_expr_typed(syms, *e);
        },
        _ => {},
    }
}

proof fn lemma_check_elifs_typed(
    syms: Seq<(Seq<char>, Type)>,
    in_loop: bool,
    branches: Seq<(Expr, Statement)>,
    i: int,
)
    requires
        check_elifs_spec(syms, in_loop, branches, i).diags.len() == 0,
    ensures
        elifs_typed(syms, in_loop, branches, i),
    decreases branches, branches.len() - i,
{
    if 0 <= i < branches.len() {
        let c = expect_spec(syms, branches[i].0, Type::Boolean);
        let b = check_stmt_spec(syms, in_loop, branches[i].1);
        let rest = check_elifs_spec(syms, in_loop, branches, i + 1);
        assert(c.diags.len() == 0 && b.diags.len() == 0 && rest.diags.len() == 0);
        lemma_expect_typed(syms, branches[i].0, Type::Boolean);
        lemma_check_stmt_typed(syms, in_loop, branches[i].1);
        lemma_check_elifs_typed(syms, in_loop, branches, i + 1);
    }
}

pub(crate) proof fn lemma_check_stmts_typed(
    syms: Seq<(Seq<char>, Type)>,
    in_loop: bool,
    stmts: Seq<Statement>,
    i: int,
)
    requires
        check_stmts_spec(syms, in_loop, stmts, i).diags.len() == 0,
    ensures
        stmts_typed(syms, in_loop, stmts, i),
    decreases stmts, stmts.len() - i,
{
    if 0 <= i < stmts.len() {
        let b = check_stmt_spec(syms, in_loop, stmts[i]);
        let rest = check_stmts_spec(syms, in_loop, stmts, i + 1);
        assert(b.diags.len() == 0 && rest.diags.len() == 0);
        lemma_check_stmt_typed(syms, in_loop, stmts[i]);
        lemma_check_stmts_typed(syms, in_loop, stmts, i + 1);
    }
}


// ---------------------------------------------------------------------------
// Well-typed code does not go wrong.
/// The symbol table agrees with the interpreter's slots: a name is in the
/// table exactly when it has a slot, and with the type of that slot.
#[verifier::opaque]
pub open spec fn syms_match(syms: Seq<(Seq<char>, Type)>, ctx: Ctx) -> bool {
    &&& ctx.types.len() == ctx.names.len()
    &&& forall|n: Seq<char>|
        #[trigger] lookup(syms, n) == (if slot_of(ctx.names, n) >= 0 {
            Some(ctx.types[slot_of(ctx.names, n)])
        } else {
            None
        })
}

/// Every variable holds a value of its declared type.
#[verifier::opaque]
pub open spec fn env_ok(ctx: Ctx, env: Seq<SpecValue>) -> bool {
    &&& env.len() == ctx.names.len()
    &&& forall|i: int| 0 <= i < env.len() ==> has_type(#[trigger] env[i], ctx.types[i])
}

proof fn lemma_find_slot(names: Seq<Seq<char>>, n: Seq<char>, i: int)
    requires
        0 <= i,
    ensures
        find_slot(names, n, i) >= 0 ==> i <= find_slot(names, n, i) < names.len() && names[find_slot(names, n, i)] == n,
        find_slot(names, n, i) < 0 ==> find_slot(names, n, i) == -1,
    decreases names.len() - i,
{
    if i < names.len() && names[i] != n {
        lemma_find_slot(names, n, i + 1);
    }
}

/// Evaluating `e` of type `t` gives a value of that type or a division by
/// zero, and leaves the variables and the output as they were.
#[verifier::opaque]
pub open spec fn eval_ok(ctx: Ctx, st: State, e: Expr, t: Type) -> bool {
    let r = eval(ctx, st, e);
    &&& r.1.env == st.env
    &&& r.1.out == st.out
    &&& match r.0 {
        Ok(v) => has_type(v, t),
        Err(err) => err == RuntimeError::DivisionByZero,
    }
}

proof fn lemma_eval_ok_keeps(ctx: Ctx, st: State, e: Expr, t: Type)
    requires
        eval_ok(ctx, st, e, t),
    ensures
        eval(ctx, st, e).1.env == st.env,
        eval(ctx, st, e).1.out == st.out,
{
    reveal(eval_ok);
}

proof fn lemma_eval_add(ctx: Ctx, st: State, e: Expr, a: Box<Expr>, b: Box<Expr>)
    requires
        e.kind == ExprKind::Add(a, b),
        eval_ok(ctx, st, *a, Type::Integer),
        eval_ok(ctx, eval(ctx, st, *a).1, *b, Type::Integer),
    ensures
        eval_ok(ctx, st, e, Type::Integer),
{
    reveal(eval_ok);
}

proof fn lemma_eval_sub(ctx: Ctx, st: State, e: Expr, a: Box<Expr>, b: Box<Expr>)
    requires
        e.kind == ExprKind::Sub(a, b),
        eval_ok(ctx, st, *a, Type::Integer),
        eval_ok(ctx, eval(ctx, st, *a).1, *b, Type::Integer),
    ensures
        eval_ok(ctx, st, e, Type::Integer),
{
    reveal(eval_ok);
}

proof fn lemma_eval_mul(ctx: Ctx, st: State, e: Expr, a: Box<Expr>, b: Box<Expr>)
    requires
        e.kind == ExprKind::Mul(a, b),
        eval_ok(ctx, st, *a, Type::Integer),
        eval_ok(ctx, eval(ctx, st, *a).1, *b, Type::Integer),
    ensures
        eval_ok(ctx, st, e, Type::Integer),
{
    reveal(eval_ok);
}

proof fn lemma_eval_less(ctx: Ctx, st: State, e: Expr, a: Box<Expr>, b: Box<Expr>)
    requires
        e.kind == ExprKind::Less(a, b),
        eval_ok(ctx, st, *a, Type::Integer),
        eval_ok(ctx, eval(ctx, st, *a).1, *b, Type::Integer),
    ensures
        eval_ok(ctx, st, e, Type::Boolean),
{
    reveal(eval_ok);
}

proof fn lemma_eval_lesseq(ctx: Ctx, st: State, e: Expr, a: Box<Expr>, b: Box<Expr>)
    requires
        e.kind == ExprKind::LessEq(a, b),
        eval_ok(ctx, st, *a, Type::Integer),
        eval_ok(ctx, eval(ctx, st, *a).1, *b, Type::Integer),
    ensures
        eval_ok(ctx, st, e, Type::Boolean),
{
    reveal(eval_ok);
}

proof fn lemma_eval_greater(ctx: Ctx, st: State, e: Expr, a: Box<Expr>, b: Box<Expr>)
    requires
        e.kind == ExprKind::Greater(a, b),
        eval_ok(ctx, st, *a, Type::Integer),
        eval_ok(ctx, eval(ctx, st, *a).1, *b, Type::Integer),
    ensures
        eval_ok(ctx, st, e, Type::Boolean),
{
    reveal(eval_ok);
}

proof fn lemma_eval_greatereq(ctx: Ctx, st: State, e: Expr, a: Box<Expr>, b: Box<Expr>)
    requires
        e.kind == ExprKind::GreaterEq(a, b),
        eval_ok(ctx, st, *a, Type::Integer),
        eval_ok(ctx, eval(ctx, st, *a).1, *b, Type::Integer),
    ensures
        eval_ok(ctx, st, e, Type::Boolean),
{
    reveal(eval_ok);
}

proof fn lemma_eval_div(ctx: Ctx, st: State, e: Expr, a: Box<Expr>, b: Box<Expr>)
    requires
        e.kind == ExprKind::Div(a, b),
        eval_ok(ctx, st, *b, Type::Integer),
        eval_ok(ctx, eval(ctx, st, *b).1, *a, Type::Integer),
    ensures
        eval_ok(ctx, st, e, Type::Integer),
{
    reveal(eval_ok);
}

proof fn lemma_eval_mod(ctx: Ctx, st: State, e: Expr, a: Box<Expr>, b: Box<Expr>)
    requires
        e.kind == ExprKind::Mod(a, b),
        eval_ok(ctx, st, *b, Type::Integer),
        eval_ok(ctx, eval(ctx, st, *b).1, *a, Type::Integer),
    ensures
        eval_ok(ctx, st, e, Type::Integer),
{
    reveal(eval_ok);
}

proof fn lemma_eval_concatenate(ctx: Ctx, st: State, e: Expr, a: Box<Expr>, b: Box<Expr>)
    requires
        e.kind == ExprKind::Concatenate(a, b),
        eval_ok(ctx, st, *a, Type::String),
        eval_ok(ctx, eval(ctx, st, *a).1, *b, Type::String),
    ensures
        eval_ok(ctx, st, e, Type::String),
{
    reveal(eval_ok);
}

proof fn lemma_eval_position(ctx: Ctx, st: State, e: Expr, a: Box<Expr>, b: Box<Expr>)
    requires
        e.kind == ExprKind::Position(a, b),
        eval_ok(ctx, st, *a, Type::String),
        eval_ok(ctx, eval(ctx, st, *a).1, *b, Type::String),
    ensures
        eval_ok(ctx, st, e, Type::Integer),
{
    reveal(eval_ok);
}

proof fn lemma_eval_and(ctx: Ctx, st: State, e: Expr, a: Box<Expr>, b: Box<Expr>)
    requires
        e.kind == ExprKind::And(a, b),
        eval_ok(ctx, st, *a, Type::Boolean),
        eval_ok(ctx, eval(ctx, st, *a).1, *b, Type::Boolean),
    ensures
        eval_ok(ctx, st, e, Type::Boolean),
{
    reveal(eval_ok);
}

proof fn lemma_eval_or(ctx: Ctx, st: State, e: Expr, a: Box<Expr>, b: Box<Expr>)
    requires
        e.kind == ExprKind::Or(a, b),
        eval_ok(ctx, st, *a, Type::Boolean),
        eval_ok(ctx, eval(ctx, st, *a).1, *b, Type::Boolean),
    ensures
        eval_ok(ctx, st, e, Type::Boolean),
{
    reveal(eval_ok);
}

proof fn lemma_eval_eq(ctx: Ctx, st: State, e: Expr, a: Box<Expr>, b: Box<Expr>, ta: Type)
    requires
        e.kind == ExprKind::Eq(a, b),
        eval_ok(ctx, st, *a, ta),
        eval_ok(ctx, eval(ctx, st, *a).1, *b, ta),
    ensures
        eval_ok(ctx, st, e, Type::Boolean),
{
    reveal(eval_ok);
}

proof fn lemma_eval_neq(ctx: Ctx, st: State, e: Expr, a: Box<Expr>, b: Box<Expr>, ta: Type)
    requires
        e.kind == ExprKind::Neq(a, b),
        eval_ok(ctx, st, *a, ta),
        eval_ok(ctx, eval(ctx, st, *a).1, *b, ta),
    ensures
        eval_ok(ctx, st, e, Type::Boolean),
{
    reveal(eval_ok);
}

proof fn lemma_eval_substring(ctx: Ctx, st: State, e: Expr, x: Box<Expr>, p: Box<Expr>, l: Box<Expr>)
    requires
        e.kind == ExprKind::Substring(x, p, l),
        eval_ok(ctx, st, *x, Type::String),
        eval_ok(ctx, eval(ctx, st, *x).1, *p, Type::Integer),
        eval_ok(ctx, eval(ctx, eval(ctx, st, *x).1, *p).1, *l, Type::Integer),
    ensures
        eval_ok(ctx, st, e, Type::String),
{
    reveal(eval_ok);
}

proof fn lemma_eval_length(ctx: Ctx, st: State, e: Expr, a: Box<Expr>)
    requires
        e.kind == ExprKind::Length(a),
        eval_ok(ctx, st, *a, Type::String),
    ensures
        eval_ok(ctx, st, e, Type::Integer),
{
    reveal(eval_ok);
}

proof fn lemma_eval_not(ctx: Ctx, st: State, e: Expr, a: Box<Expr>)
    requires
        e.kind == ExprKind::Not(a),
        eval_ok(ctx, st, *a, Type::Boolean),
    ensures
        eval_ok(ctx, st, e, Type::Boolean),
{
    reveal(eval_ok);
}

proof fn lemma_eval_leaf(ctx: Ctx, syms: Seq<(Seq<char>, Type)>, st: State, e: Expr, t: Type)
    requires
        syms_match(syms, ctx),
        env_ok(ctx, st.env),
        typed(syms, e) == Some(t),
        match e.kind {
            ExprKind::Number(_) | ExprKind::StringLit(_) | ExprKind::Identifier(_)
            | ExprKind::True | ExprKind::False | ExprKind::ReadInt | ExprKind::ReadStr
            | ExprKind::ReadBool => true,
            _ => false,
        },
    ensures
        eval_ok(ctx, st, e, t),
{
    reveal(eval_ok);
    if let ExprKind::Identifier(id) = e.kind {
        reveal(syms_match);
        reveal(env_ok);
        lemma_find_slot(ctx.names, id@, 0);
    }
}

/// The result of a well-typed expression is a value of its type, or a
/// division by zero; variables and output stay as they were.
proof fn lemma_eval_typed(ctx: Ctx, syms: Seq<(Seq<char>, Type)>, st: State, e: Expr, t: Type)
    requires
        syms_match(syms, ctx),
        env_ok(ctx, st.env),
        typed(syms, e) == Some(t),
    ensures
        eval_ok(ctx, st, e, t),
    decreases e,
{
    match e.kind {
        ExprKind::Add(a, b) => {
            let ta = Type::Integer;
            lemma_eval_typed(ctx, syms, st, *a, ta);
            lemma_eval_ok_keeps(ctx, st, *a, ta);
            lemma_eval_typed(ctx, syms, eval(ctx, st, *a).1, *b, ta);
            lemma_eval_add(ctx, st, e, a, b);
        },
        ExprKind::Sub(a, b) => {
            let ta = Type::Integer;
            lemma_eval_typed(ctx, syms, st, *a, ta);
            lemma_eval_ok_keeps(ctx, st, *a, ta);
            lemma_eval_typed(ctx, syms, eval(ctx, st, *a).1, *b, ta);
            lemma_eval_sub(ctx, st, e, a, b);
        },
        ExprKind::Mul(a, b) => {
            let ta = Type::Integer;
            lemma_eval_typed(ctx, syms, st, *a, ta);
            lemma_eval_ok_keeps(ctx, st, *a, ta);
            lemma_eval_typed(ctx, syms, eval(ctx, st, *a).1, *b, ta);
            lemma_eval_mul(ctx, st, e, a, b);
        },
        ExprKind::Less(a, b) => {
            let ta = Type::Integer;
            lemma_eval_typed(ctx, syms, st, *a, ta);
            lemma_eval_ok_keeps(ctx, st, *a, ta);
            lemma_eval_typed(ctx, syms, eval(ctx, st, *a).1, *b, ta);
            lemma_eval_less(ctx, st, e, a, b);
        },
        ExprKind::LessEq(a, b) => {
            let ta = Type::Integer;
            lemma_eval_typed(ctx, syms, st, *a, ta);
            lemma_eval_ok_keeps(ctx, st, *a, ta);
            lemma_eval_typed(ctx, syms, eval(ctx, st, *a).1, *b, ta);
            lemma_eval_lesseq(ctx, st, e, a, b);
        },
        ExprKind::Greater(a, b) => {
            let ta = Type::Integer;
            lemma_eval_typed(ctx, syms, st, *a, ta);
            lemma_eval_ok_keeps(ctx, st, *a, ta);
            lemma_eval_typed(ctx, syms, eval(ctx, st, *a).1, *b, ta);
            lemma_eval_greater(ctx, st, e, a, b);
        },
        ExprKind::GreaterEq(a, b) => {
            let ta = Type::Integer;
            lemma_eval_typed(ctx, syms, st, *a, ta);
            lemma_eval_ok_keeps(ctx, st, *a, ta);
            lemma_eval_typed(ctx, syms, eval(ctx, st, *a).1, *b, ta);
            lemma_eval_greatereq(ctx, st, e, a, b);
        },
        ExprKind::Div(a, b) => {
            let ta = Type::Integer;
            lemma_eval_typed(ctx, syms, st, *b, ta);
            lemma_eval_ok_keeps(ctx, st, *b, ta);
            lemma_eval_typed(ctx, syms, eval(ctx, st, *b).1, *a, ta);
            lemma_eval_div(ctx, st, e, a, b);
        },
        ExprKind::Mod(a, b) => {
            let ta = Type::Integer;
            lemma_eval_typed(ctx, syms, st, *b, ta);
            lemma_eval_ok_keeps(ctx, st, *b, ta);
            lemma_eval_typed(ctx, syms, eval(ctx, st, *b).1, *a, ta);
            lemma_eval_mod(ctx, st, e, a, b);
        },
        ExprKind::Concatenate(a, b) => {
            let ta = Type::String;
            lemma_eval_typed(ctx, syms, st, *a, ta);
            lemma_eval_ok_keeps(ctx, st, *a, ta);
            lemma_eval_typed(ctx, syms, eval(ctx, st, *a).1, *b, ta);
            lemma_eval_concatenate(ctx, st, e, a, b);
        },
        ExprKind::Position(a, b) => {
            let ta = Type::String;
            lemma_eval_typed(ctx, syms, st, *a, ta);
            lemma_eval_ok_keeps(ctx, st, *a, ta);
            lemma_eval_typed(ctx, syms, eval(ctx, st, *a).1, *b, ta);
            lemma_eval_position(ctx, st, e, a, b);
        },
        ExprKind::And(a, b) => {
            let ta = Type::Boolean;
            lemma_eval_typed(ctx, syms, st, *a, ta);
            lemma_eval_ok_keeps(ctx, st, *a, ta);
            lemma_eval_typed(ctx, syms, eval(ctx, st, *a).1, *b, ta);
            lemma_eval_and(ctx, st, e, a, b);
        },
        ExprKind::Or(a, b) => {
            let ta = Type::Boolean;
            lemma_eval_typed(ctx, syms, st, *a, ta);
            lemma_eval_ok_keeps(ctx, st, *a, ta);
            lemma_eval_typed(ctx, syms, eval(ctx, st, *a).1, *b, ta);
            lemma_eval_or(ctx, st, e, a, b);
        },
        ExprKind::Eq(a, b) => {
            let ta = typed(syms, *a)->0;
            lemma_eval_typed(ctx, syms, st, *a, ta);
            lemma_eval_ok_keeps(ctx, st, *a, ta);
            lemma_eval_typed(ctx, syms, eval(ctx, st, *a).1, *b, ta);
            lemma_eval_eq(ctx, st, e, a, b, ta);
        },
        ExprKind::Neq(a, b) => {
            let ta = typed(syms, *a)->0;
            lemma_eval_typed(ctx, syms, st, *a, ta);
            lemma_eval_ok_keeps(ctx, st, *a, ta);
            lemma_eval_typed(ctx, syms, eval(ctx, st, *a).1, *b, ta);
            lemma_eval_neq(ctx, st, e, a, b, ta);
        },
        ExprKind::Substring(x, p, l) => {
            lemma_eval_typed(ctx, syms, st, *x, Type::String);
            lemma_eval_ok_keeps(ctx, st, *x, Type::String);
            let s1 = eval(ctx, st, *x).1;
            lemma_eval_typed(ctx, syms, s1, *p, Type::Integer);
            lemma_eval_ok_keeps(ctx, s1, *p, Type::Integer);
            let s2 = eval(ctx, s1, *p).1;
            lemma_eval_typed(ctx, syms, s2, *l, Type::Integer);
            lemma_eval_substring(ctx, st, e, x, p, l);
        },
        ExprKind::Length(a) => {
            lemma_eval_typed(ctx, syms, st, *a, Type::String);
            lemma_eval_length(ctx, st, e, a);
        },
        ExprKind::Not(a) => {
            lemma_eval_typed(ctx, syms, st, *a, Type::Boolean);
            lemma_eval_not(ctx, st, e, a);
        },
        _ => {
            lemma_eval_leaf(ctx, syms, st, e, t);
        },
    }
}


/// Evaluating a well-typed expression, with every variable holding a value
/// of its declared type, gives a value of the expression's type or stops on
/// a division by zero, never on a type mismatch; it changes no variable and
/// prints nothing.
pub proof fn well_typed_expr_has_no_type_mismatch(
    ctx: Ctx,
    syms: Seq<(Seq<char>, Type)>,
    st: State,
    e: Expr,
    t: Type,
)
    requires
        syms_match(syms, ctx),
        env_ok(ctx, st.env),
        typed(syms, e) == Some(t),
    ensures
        eval(ctx, st, e).1.env == st.env,
        eval(ctx, st, e).1.out == st.out,
        match eval(ctx, st, e).0 {
            Ok(v) => has_type(v, t),
            Err(err) => err == RuntimeError::DivisionByZero,
        },
{
    lemma_eval_typed(ctx, syms, st, e, t);
    reveal(eval_ok);
}

/// A variable that gets a value of its own type keeps every variable well typed.
proof fn lemma_env_update(ctx: Ctx, env: Seq<SpecValue>, i: int, v: SpecValue)
    requires
        env_ok(ctx, env),
        0 <= i < env.len(),
        has_type(v, ctx.types[i]),
    ensures
        env_ok(ctx, env.update(i, v)),
{
    reveal(env_ok);
}

/// Running `s` fails on no type mismatch and leaves every variable well typed.
#[verifier::opaque]
pub open spec fn exec_ok(ctx: Ctx, st: State, s: Statement) -> bool {
    let r = exec(ctx, st, s);
    env_ok(ctx, r.1.env) && r.0 != Err::<Flow, RuntimeError>(RuntimeError::TypeMismatch)
}

/// The `elif` branches from `i` on fail on no type mismatch and leave every
/// variable well typed.
#[verifier::opaque]
pub open spec fn elifs_run_ok(ctx: Ctx, st: State, branches: Seq<(Expr, Statement)>, i: int) -> bool {
    let r = exec_elifs(ctx, st, branches, i);
    env_ok(ctx, r.1.env) && r.0 != Err::<Option<Flow>, RuntimeError>(RuntimeError::TypeMismatch)
}

/// The statements of a block from `i` on fail on no type mismatch and leave
/// every variable well typed.
#[verifier::opaque]
pub open spec fn block_ok(ctx: Ctx, st: State, stmts: Seq<Statement>, i: int) -> bool {
    let r = exec_block(ctx, st, stmts, i);
    env_ok(ctx, r.1.env) && r.0 != Err::<Flow, RuntimeError>(RuntimeError::TypeMismatch)
}

/// A `for` loop fails on no type mismatch and leaves every variable well typed.
#[verifier::opaque]
pub open spec fn loop_ok(ctx: Ctx, st: State, i: int, cur: i32, hi: i32, body: Statement) -> bool {
    let r = for_loop(ctx, st, i, cur, hi, body);
    env_ok(ctx, r.1.env) && r.0 != Err::<Flow, RuntimeError>(RuntimeError::TypeMismatch)
}

proof fn lemma_exec_ok_env(ctx: Ctx, st: State, s: Statement)
    requires
        exec_ok(ctx, st, s),
    ensures
        env_ok(ctx, exec(ctx, st, s).1.env),
{
    reveal(exec_ok);
}

proof fn lemma_elifs_ok_env(ctx: Ctx, st: State, branches: Seq<(Expr, Statement)>, i: int)
    requires
        elifs_run_ok(ctx, st, branches, i),
    ensures
        env_ok(ctx, exec_elifs(ctx, st, branches, i).1.env),
{
    reveal(elifs_run_ok);
}

/// A declared variable has a slot, with the type the table gives it.
proof fn lemma_slot_typed(ctx: Ctx, syms: Seq<(Seq<char>, Type)>, n: Seq<char>, t: Type)
    requires
        syms_match(syms, ctx),
        lookup(syms, n) == Some(t),
    ensures
        0 <= slot_of(ctx.names, n) < ctx.names.len(),
        ctx.types.len() == ctx.names.len(),
        ctx.types[slot_of(ctx.names, n)] == t,
{
    reveal(syms_match);
    lemma_find_slot(ctx.names, n, 0);
    assert(lookup(syms, n) == Some(t));
}

proof fn lemma_exec_assign(ctx: Ctx, st: State, s: Statement, id: String, e: Box<Expr>, t: Type)
    requires
        s.kind == StmtKind::Assign(id, e),
        0 <= slot_of(ctx.names, id@) < ctx.names.len(),
        ctx.types[slot_of(ctx.names, id@)] == t,
        env_ok(ctx, st.env),
        eval_ok(ctx, st, *e, t),
    ensures
        exec_ok(ctx, st, s),
{
    reveal(exec_ok);
    reveal(eval_ok);
    let i = slot_of(ctx.names, id@);
    let r = eval(ctx, st, *e);
    reveal(env_ok);
    if let Ok(v) = r.0 {
        lemma_env_update(ctx, st.env, i, v);
    }
}

proof fn lemma_exec_print(ctx: Ctx, st: State, s: Statement, e: Box<Expr>, t: Type)
    requires
        s.kind == StmtKind::Print(e),
        env_ok(ctx, st.env),
        eval_ok(ctx, st, *e, t),
    ensures
        exec_ok(ctx, st, s),
{
    reveal(exec_ok);
    reveal(eval_ok);
}

proof fn lemma_exec_if(
    ctx: Ctx,
    st: State,
    s: Statement,
    condition: Box<Expr>,
    then_branch: Box<Statement>,
    elif_branches: Vec<(Expr, Statement)>,
    else_branch: Option<Box<Statement>>,
)
    requires
        s.kind == (StmtKind::If { condition, then_branch, elif_branches, else_branch }),
        env_ok(ctx, st.env),
        eval_ok(ctx, st, *condition, Type::Boolean),
        exec_ok(ctx, eval(ctx, st, *condition).1, *then_branch),
        elifs_run_ok(ctx, eval(ctx, st, *condition).1, elif_branches@, 0),
        match else_branch {
            Some(b) => exec_ok(
                ctx,
                exec_elifs(ctx, eval(ctx, st, *condition).1, elif_branches@, 0).1,
                *b,
            ),
            None => true,
        },
    ensures
        exec_ok(ctx, st, s),
{
    reveal(exec_ok);
    reveal(eval_ok);
    reveal(elifs_run_ok);
}

proof fn lemma_exec_for(
    ctx: Ctx,
    st: State,
    s: Statement,
    iterator: String,
    from: Box<Expr>,
    to: Box<Expr>,
    body: Box<Statement>,
)
    requires
        s.kind == (StmtKind::For { iterator, from, to, body }),
        env_ok(ctx, st.env),
        eval_ok(ctx, st, *from, Type::Integer),
        eval_ok(ctx, eval(ctx, st, *from).1, *to, Type::Integer),
        ({
            let rf = as_int(eval(ctx, st, *from));
            let rt = as_int(eval(ctx, rf.1, *to));
            match (rf.0, rt.0) {
                (Ok(lo), Ok(hi)) => loop_ok(ctx, rt.1, slot_of(ctx.names, iterator@), lo, hi, *body),
                _ => true,
            }
        }),
    ensures
        exec_ok(ctx, st, s),
{
    reveal(exec_ok);
    reveal(eval_ok);
    reveal(loop_ok);
}

proof fn lemma_exec_block(ctx: Ctx, st: State, s: Statement, stmts: Vec<Statement>)
    requires
        s.kind == StmtKind::Block(stmts),
        block_ok(ctx, st, stmts@, 0),
    ensures
        exec_ok(ctx, st, s),
{
    reveal(exec_ok);
    reveal(block_ok);
}

proof fn lemma_exec_jump(ctx: Ctx, st: State, s: Statement)
    requires
        env_ok(ctx, st.env),
        s.kind is Break || s.kind is Continue || s.kind is Exit,
    ensures
        exec_ok(ctx, st, s),
{
    reveal(exec_ok);
}

/// A well-typed statement never fails on a type mismatch, and it keeps
/// every variable well typed.
proof fn lemma_exec_typed(ctx: Ctx, syms: Seq<(Seq<char>, Type)>, st: State, in_loop: bool, s: Statement)
    requires
        syms_match(syms, ctx),
        env_ok(ctx, st.env),
        stmt_typed(syms, in_loop, s),
    ensures
        exec_ok(ctx, st, s),
    decreases s, 0int,
{
    match s.kind {
        StmtKind::Assign(id, e) => {
            let t = lookup(syms, id@)->0;
            lemma_slot_typed(ctx, syms, id@, t);
            lemma_eval_typed(ctx, syms, st, *e, t);
            lemma_exec_assign(ctx, st, s, id, e, t);
        },
        StmtKind::If { condition, then_branch, elif_branches, else_branch } => {
            lemma_eval_typed(ctx, syms, st, *condition, Type::Boolean);
            lemma_eval_ok_keeps(ctx, st, *condition, Type::Boolean);
            let s1 = eval(ctx, st, *condition).1;
            lemma_exec_typed(ctx, syms, s1, in_loop, *then_branch);
            lemma_elifs_typed(ctx, syms, s1, in_loop, elif_branches@, 0);
            if let Some(b) = else_branch {
                lemma_elifs_ok_env(ctx, s1, elif_branches@, 0);
                lemma_exec_typed(ctx, syms, exec_elifs(ctx, s1, elif_branches@, 0).1, in_loop, *b);
            }
            lemma_exec_if(ctx, st, s, condition, then_branch, elif_branches, else_branch);
        },
        StmtKind::For { iterator, from, to, body } => {
            lemma_slot_typed(ctx, syms, iterator@, Type::Integer);
            lemma_eval_typed(ctx, syms, st, *from, Type::Integer);
            lemma_eval_ok_keeps(ctx, st, *from, Type::Integer);
            let s1 = eval(ctx, st, *from).1;
            lemma_eval_typed(ctx, syms, s1, *to, Type::Integer);
            lemma_eval_ok_keeps(ctx, s1, *to, Type::Integer);
            let rf = as_int(eval(ctx, st, *from));
            let rt = as_int(eval(ctx, rf.1, *to));
            if let (Ok(lo), Ok(hi)) = (rf.0, rt.0) {
                lemma_loop_typed(ctx, syms, rt.1, slot_of(ctx.names, iterator@), lo, hi, *body);
            }
            lemma_exec_for(ctx, st, s, iterator, from, to, body);
        },
        StmtKind::Block(stmts) => {
            lemma_block_typed(ctx, syms, st, in_loop, stmts@, 0);
            lemma_exec_block(ctx, st, s, stmts);
        },
        StmtKind::Print(e) => {
            let t = typed(syms, *e)->0;
            lemma_eval_typed(ctx, syms, st, *e, t);
            lemma_exec_print(ctx, st, s, e, t);
        },
        _ => {
            lemma_exec_jump(ctx, st, s);
        },
    }
}

proof fn lemma_elifs_typed(
    ctx: Ctx,
    syms: Seq<(Seq<char>, Type)>,
    st: State,
    in_loop: bool,
    branches: Seq<(Expr, Statement)>,
    i: int,
)
    requires
        syms_match(syms, ctx),
        env_ok(ctx, st.env),
        elifs_typed(syms, in_loop, branches, i),
    ensures
        elifs_run_ok(ctx, st, branches, i),
    decreases branches, branches.len() - i,
{
    if 0 <= i < branches.len() {
        lemma_eval_typed(ctx, syms, st, branches[i].0, Type::Boolean);
        lemma_eval_ok_keeps(ctx, st, branches[i].0, Type::Boolean);
        let s1 = eval(ctx, st, branches[i].0).1;
        lemma_exec_typed(ctx, syms, s1, in_loop, branches[i].1);
        lemma_elifs_typed(ctx, syms, s1, in_loop, branches, i + 1);
        reveal(eval_ok);
        reveal(exec_ok);
        reveal(elifs_run_ok);
    } else {
        reveal(elifs_run_ok);
    }
}

proof fn lemma_block_typed(
    ctx: Ctx,
    syms: Seq<(Seq<char>, Type)>,
    st: State,
    in_loop: bool,
    stmts: Seq<Statement>,
    i: int,
)
    requires
        syms_match(syms, ctx),
        env_ok(ctx, st.env),
        stmts_typed(syms, in_loop, stmts, i),
    ensures
        block_ok(ctx, st, stmts, i),
    decreases stmts, stmts.len() - i,
{
    if 0 <= i < stmts.len() {
        lemma_exec_typed(ctx, syms, st, in_loop, stmts[i]);
        lemma_exec_ok_env(ctx, st, stmts[i]);
        lemma_block_typed(ctx, syms, exec(ctx, st, stmts[i]).1, in_loop, stmts, i + 1);
        reveal(exec_ok);
        reveal(block_ok);
    } else {
        reveal(block_ok);
    }
}

proof fn lemma_loop_typed(
    ctx: Ctx,
    syms: Seq<(Seq<char>, Type)>,
    st: State,
    i: int,
    cur: i32,
    hi: i32,
    body: Statement,
)
    requires
        syms_match(syms, ctx),
        env_ok(ctx, st.env),
        0 <= i < ctx.names.len(),
        ctx.types[i] == Type::Integer,
        stmt_typed(syms, true, body),
    ensures
        loop_ok(ctx, st, i, cur, hi, body),
    decreases body, hi - cur + 1,
{
    reveal(env_ok);
    lemma_env_update(ctx, st.env, i, SpecValue::Int(cur));
    if cur <= hi {
        let st1 = assign(st, i, SpecValue::Int(cur));
        lemma_exec_typed(ctx, syms, st1, true, body);
        lemma_exec_ok_env(ctx, st1, body);
        let r = exec(ctx, st1, body);
        lemma_env_update(ctx, r.1.env, i, SpecValue::Int(cur));
        if cur < i32::MAX {
            lemma_loop_typed(ctx, syms, r.1, i, (cur + 1) as i32, hi, body);
        }
        reveal(exec_ok);
    }
    reveal(loop_ok);
}

/// A program's instructions, once well typed, never fail on a type mismatch.
proof fn lemma_run_typed(
    ctx: Ctx,
    syms: Seq<(Seq<char>, Type)>,
    st: State,
    stmts: Seq<Statement>,
    i: int,
)
    requires
        syms_match(syms, ctx),
        env_ok(ctx, st.env),
        stmts_typed(syms, false, stmts, i),
    ensures
        run_from(ctx, st, stmts, i).0 != Err::<(), RuntimeError>(RuntimeError::TypeMismatch),
    decreases stmts.len() - i,
{
    if 0 <= i < stmts.len() {
        lemma_exec_typed(ctx, syms, st, false, stmts[i]);
        lemma_exec_ok_env(ctx, st, stmts[i]);
        lemma_run_typed(ctx, syms, exec(ctx, st, stmts[i]).1, stmts, i + 1);
        reveal(exec_ok);
    }
}


// ---------------------------------------------------------------------------
// The symbol table of an accepted program.
/// The declarations from index `i` on, as symbol-table entries.
pub open spec fn decl_symbols(decls: Seq<Declaration>, i: int) -> Seq<(Seq<char>, Type)> {
    Seq::new((decls.len() - i) as nat, |j: int| (decls[i + j].identifier@, decls[i + j].var_type))
}

/// Declarations that raise no error all enter the symbol table, in order.
proof fn lemma_declare_all(syms: Seq<(Seq<char>, Type)>, decls: Seq<Declaration>, i: int)
    requires
        0 <= i <= decls.len(),
        declare_spec(syms, decls, i).1.diags.len() == 0,
    ensures
        declare_spec(syms, decls, i).0 == syms + decl_symbols(decls, i),
    decreases decls.len() - i,
{
    if i < decls.len() {
        let d = decls[i];
        let rest = declare_spec(syms.push((d.identifier@, d.var_type)), decls, i + 1);
        if lookup(syms, d.identifier@) is Some {
            let r2 = declare_spec(syms, decls, i + 1);
            assert(declare_spec(syms, decls, i).1.diags.len() == 1 + r2.1.diags.len());
        } else {
            lemma_declare_all(syms.push((d.identifier@, d.var_type)), decls, i + 1);
            assert(syms.push((d.identifier@, d.var_type)) + decl_symbols(decls, i + 1) =~= syms
                + decl_symbols(decls, i));
        }
    } else {
        assert(syms + decl_symbols(decls, i) =~= syms);
    }
}

/// Looking a name up in a table whose entries pair `names` with `types`
/// finds the first slot that holds it.
proof fn lemma_lookup_slot(
    syms: Seq<(Seq<char>, Type)>,
    names: Seq<Seq<char>>,
    types: Seq<Type>,
    n: Seq<char>,
    k: int,
)
    requires
        0 <= k <= syms.len(),
        syms.len() == names.len(),
        syms.len() == types.len(),
        forall|j: int| 0 <= j < syms.len() ==> #[trigger] syms[j] == (names[j], types[j]),
    ensures
        lookup(syms.subrange(k, syms.len() as int), n) == (if find_slot(names, n, k) >= 0 {
            Some(types[find_slot(names, n, k)])
        } else {
            None
        }),
    decreases syms.len() - k,
{
    lemma_find_slot(names, n, k);
    if k < syms.len() {
        let sub = syms.subrange(k, syms.len() as int);
        assert(sub[0] == syms[k]);
        assert(sub.drop_first() =~= syms.subrange(k + 1, syms.len() as int));
        lemma_lookup_slot(syms, names, types, n, k + 1);
    }
}

/// The symbol table of a program whose declarations raise no error agrees
/// with the slots the interpreter gives its variables.
proof fn lemma_symbols_match(p: Program, input: Seq<char>)
    requires
        declare_spec(Seq::empty(), p.declarations@, 0).1.diags.len() == 0,
    ensures
        syms_match(program_symbols(p), initial_ctx(p, input)),
        env_ok(initial_ctx(p, input), initial_state(p).env),
{
    let decls = p.declarations@;
    let ctx = initial_ctx(p, input);
    let syms = program_symbols(p);
    lemma_declare_all(Seq::empty(), decls, 0);
    assert(syms =~= decl_symbols(decls, 0));
    reveal(syms_match);
    assert forall|n: Seq<char>|
        #[trigger] lookup(syms, n) == (if slot_of(ctx.names, n) >= 0 {
            Some(ctx.types[slot_of(ctx.names, n)])
        } else {
            None
        }) by {
        lemma_lookup_slot(syms, ctx.names, ctx.types, n, 0);
        assert(syms.subrange(0, syms.len() as int) =~= syms);
    }
    reveal(env_ok);
}

// ---------------------------------------------------------------------------
// Everything that a well-typed program names is declared.
proof fn lemma_typed_expr_ok(ctx: Ctx, syms: Seq<(Seq<char>, Type)>, e: Expr)
    requires
        syms_match(syms, ctx),
        typed(syms, e) is Some,
        expr_lits_ok(e),
    ensures
        expr_ok(ctx.names, e),
    decreases e,
{
    match e.kind {
        ExprKind::Identifier(id) => {
            lemma_slot_typed(ctx, syms, id@, typed(syms, e)->0);
        },
        ExprKind::Add(a, b) | ExprKind::Sub(a, b) | ExprKind::Mul(a, b) | ExprKind::Div(a, b)
        | ExprKind::Mod(a, b) | ExprKind::Concatenate(a, b) | ExprKind::Position(a, b)
        | ExprKind::And(a, b) | ExprKind::Or(a, b) | ExprKind::Eq(a, b) | ExprKind::Neq(a, b)
        | ExprKind::Less(a, b) | ExprKind::LessEq(a, b) | ExprKind::Greater(a, b)
        | ExprKind::GreaterEq(a, b) => {
            lemma_typed_expr_ok(ctx, syms, *a);
            lemma_typed_expr_ok(ctx, syms, *b);
        },
        ExprKind::Substring(a, b, c) => {
            lemma_typed_expr_ok(ctx, syms, *a);
            lemma_typed_expr_ok(ctx, syms, *b);
            lemma_typed_expr_ok(ctx, syms, *c);
        },
        ExprKind::Length(a) | ExprKind::Not(a) => {
            lemma_typed_expr_ok(ctx, syms, *a);
        },
        _ => {},
    }
}

proof fn lemma_typed_stmt_ok(ctx: Ctx, syms: Seq<(Seq<char>, Type)>, in_loop: bool, s: Statement)
    requires
        syms_match(syms, ctx),
        stmt_typed(syms, in_loop, s),
        stmt_lits_ok(s),
    ensures
        stmt_ok(ctx.names, s),
    decreases s, 0int,
{
    match s.kind {
        StmtKind::Assign(id, e) => {
            lemma_slot_typed(ctx, syms, id@, lookup(syms, id@)->0);
            lemma_typed_expr_ok(ctx, syms, *e);
        },
        StmtKind::If { condition, then_branch, elif_branches, else_branch } => {
            lemma_typed_expr_ok(ctx, syms, *condition);
            lemma_typed_stmt_ok(ctx, syms, in_loop, *then_branch);
            lemma_typed_elifs_ok(ctx, syms, in_loop, elif_branches@, 0);
            if let Some(b) = else_branch {
                lemma_typed_stmt_ok(ctx, syms, in_loop, *b);
            }
        },
        StmtKind::For { iterator, from, to, body } => {
            lemma_slot_typed(ctx, syms, iterator@, Type::Integer);
            lemma_typed_expr_ok(ctx, syms, *from);
            lemma_typed_expr_ok(ctx, syms, *to);
            lemma_typed_stmt_ok(ctx, syms, true, *body);
        },
        StmtKind::Block(stmts) => {
            lemma_typed_stmts_ok(ctx, syms, in_loop, stmts@, 0);
        },
        StmtKind::Print(e) => {
            lemma_typed_expr_ok(ctx, syms, *e);
        },
        _ => {},
    }
}

proof fn lemma_typed_elifs_ok(
    ctx: Ctx,
    syms: Seq<(Seq<char>, Type)>,
    in_loop: bool,
    branches: Seq<(Expr, Statement)>,
    i: int,
)
    requires
        syms_match(syms, ctx),
        elifs_typed(syms, in_loop, branches, i),
        elifs_lits_ok(branches, i),
    ensures
        elifs_ok(ctx.names, branches, i),
    decreases branches, branches.len() - i,
{
    if 0 <= i < branches.len() {
        lemma_typed_expr_ok(ctx, syms, branches[i].0);
        lemma_typed_stmt_ok(ctx, syms, in_loop, branches[i].1);
        lemma_typed_elifs_ok(ctx, syms, in_loop, branches, i + 1);
    }
}

proof fn lemma_typed_stmts_ok(
    ctx: Ctx,
    syms: Seq<(Seq<char>, Type)>,
    in_loop: bool,
    stmts: Seq<Statement>,
    i: int,
)
    requires
        syms_match(syms, ctx),
        stmts_typed(syms, in_loop, stmts, i),
        stmts_lits_ok(stmts, i),
    ensures
        stmts_ok(ctx.names, stmts, i),
    decreases stmts, stmts.len() - i,
{
    if 0 <= i < stmts.len() {
        lemma_typed_stmt_ok(ctx, syms, in_loop, stmts[i]);
        lemma_typed_stmts_ok(ctx, syms, in_loop, stmts, i + 1);
    }
}

// ---------------------------------------------------------------------------
/// A program that the checker accepts never stops on a type mismatch, on
/// any input: the checker's type rules are those the interpreter relies on.
pub proof fn accepted_program_has_no_type_mismatch(p: Program, input: Seq<char>)
    requires
        check_program_spec(p).diags.len() == 0,
    ensures
        run_program(p, input).0 != Err::<(), RuntimeError>(RuntimeError::TypeMismatch),
{
    let (syms, d) = declare_spec(Seq::empty(), p.declarations@, 0);
    let b = check_stmts_spec(syms, false, p.instructions@, 0);
    assert((d.diags + b.diags).len() == 0);
    lemma_symbols_match(p, input);
    lemma_check_stmts_typed(syms, false, p.instructions@, 0);
    lemma_run_typed(initial_ctx(p, input), syms, initial_state(p), p.instructions@, 0);
}

/// A parsed program that the checker accepts names only declared variables
/// and keeps the quotes of its string literals: the interpreter can run it.
pub proof fn accepted_program_can_run(p: Program)
    requires
        check_program_spec(p).diags.len() == 0,
        program_lits_ok(p),
    ensures
        program_ok(p),
{
    let (syms, d) = declare_spec(Seq::empty(), p.declarations@, 0);
    let b = check_stmts_spec(syms, false, p.instructions@, 0);
    assert((d.diags + b.diags).len() == 0);
    lemma_symbols_match(p, Seq::empty());
    lemma_check_stmts_typed(syms, false, p.instructions@, 0);
    lemma_typed_stmts_ok(initial_ctx(p, Seq::empty()), syms, false, p.instructions@, 0);
}

} // verus!
