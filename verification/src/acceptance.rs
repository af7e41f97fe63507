//! The checker's rules as laws, and what it accepts said without it: a
//! program passes exactly when its declarations name distinct variables
//! and its instructions are well typed under them.
use crate::ast::{Declaration, Expr, ExprKind, Program, Statement, StmtKind, Type};
use crate::checker::{
    check_elifs_spec, check_expr_spec, check_program_spec, check_stmt_spec, check_stmts_spec,
    declare_spec, diag, expect_spec, lookup, program_symbols, type_label,
};
use crate::soundness::{
    elifs_typed, lemma_check_expr_typed, lemma_check_stmts_typed, stmt_typed, stmts_typed, typed,
};
use vstd::prelude::*;

verus! {

/// No two declarations name the same variable.
pub open spec fn distinct_declarations(decls: Seq<Declaration>) -> bool {
    forall|j: int, k: int|
        0 <= j < k < decls.len() ==> #[trigger] decls[j].identifier@ != #[trigger] decls[k].identifier@
}

/// The type that the checker gives an expression, whatever the types of
/// its operands: that of the variable for a name (none when it is not
/// declared), otherwise the type of what the operator yields.
pub open spec fn result_type(syms: Seq<(Seq<char>, Type)>, e: Expr) -> Option<Type> {
    match e.kind {
        ExprKind::Identifier(id) => lookup(syms, id@),
        ExprKind::Number(_) | ExprKind::ReadInt | ExprKind::Add(..) | ExprKind::Sub(..)
        | ExprKind::Mul(..) | ExprKind::Div(..) | ExprKind::Mod(..) | ExprKind::Length(..)
        | ExprKind::Position(..) => Some(Type::Integer),
        ExprKind::StringLit(_) | ExprKind::ReadStr | ExprKind::Concatenate(..)
        | ExprKind::Substring(..) => Some(Type::String),
        _ => Some(Type::Boolean),
    }
}

/// The checker types an expression by its outermost operator alone: it
/// gives no type only to a name that is not declared.
pub proof fn checker_expr_type(syms: Seq<(Seq<char>, Type)>, e: Expr)
    ensures
        check_expr_spec(syms, e).ty == result_type(syms, e),
        check_expr_spec(syms, e).ty is None <==> (e.kind matches ExprKind::Identifier(id) && lookup(
            syms,
            id@,
        ) is None),
{
}

/// Where an expression must have type `t`, the checker keeps the errors
/// found in it and adds one more only when it has a type other than `t`;
/// the expression then gets no type. A missing type adds nothing.
pub proof fn checker_expect_rule(syms: Seq<(Seq<char>, Type)>, e: Expr, t: Type)
    ensures
        ({
            let c = check_expr_spec(syms, e);
            let r = expect_spec(syms, e, t);
            &&& r.ty == Some(t) <==> c.ty == Some(t)
            &&& r.ty is Some ==> r.ty == c.ty
            &&& r.occs == c.occs
            &&& r.diags.subrange(0, c.diags.len() as int) == c.diags
            &&& r.diags.len() == c.diags.len() + (if c.ty is Some && c.ty != Some(t) {
                1int
            } else {
                0int
            })
            &&& (c.ty is Some && c.ty != Some(t)) ==> r.diags.last() == diag(
                "Niezgodność typów: oczekiwano "@ + type_label(t) + ", otrzymano "@ + type_label(
                    c.ty->0,
                ),
                e.span,
                match e.kind {
                    ExprKind::Identifier(id) => Some(id@),
                    _ => None,
                },
            )
        }),
{
    let c = check_expr_spec(syms, e);
    let r = expect_spec(syms, e, t);
    assert(r.diags.subrange(0, c.diags.len() as int) =~= c.diags);
}

/// An assignment keeps the errors of its value and adds one more when the
/// variable is not declared (at the statement), or when the value has a
/// type other than the variable's (at the value); nothing else.
pub proof fn checker_assignment_rule(
    syms: Seq<(Seq<char>, Type)>,
    in_loop: bool,
    s: Statement,
    id: String,
    e: Box<Expr>,
)
    requires
        s.kind == StmtKind::Assign(id, e),
    ensures
        ({
            let c = check_expr_spec(syms, *e);
            let f = check_stmt_spec(syms, in_loop, s);
            let undeclared = lookup(syms, id@) is None;
            let mismatch = !undeclared && c.ty is Some && c.ty != lookup(syms, id@);
            &&& f.diags.subrange(0, c.diags.len() as int) == c.diags
            &&& f.diags.len() == c.diags.len() + (if undeclared || mismatch {
                1int
            } else {
                0int
            })
            &&& undeclared ==> f.diags.last() == diag(
                "Przypisanie do niezadeklarowanej zmiennej: "@ + id@,
                s.span,
                Some(id@),
            )
            &&& mismatch ==> f.diags.last() == diag(
                "Niezgodność typów: przypisujesz wartość typu "@ + type_label(c.ty->0)
                    + " do zmiennej '"@ + id@ + "' typu "@ + type_label(lookup(syms, id@)->0),
                e.span,
                Some(id@),
            )
        }),
{
    let c = check_expr_spec(syms, *e);
    let f = check_stmt_spec(syms, in_loop, s);
    assert(f.diags.subrange(0, c.diags.len() as int) =~= c.diags);
}

/// `=` and `<>` are boolean whatever their operands; beyond the errors of
/// the operands, one error comes when both have a type and the types
/// differ, naming the left operand's variable, else the right one's.
pub proof fn checker_comparison_rule(syms: Seq<(Seq<char>, Type)>, e: Expr, a: Box<Expr>, b: Box<Expr>)
    requires
        e.kind == ExprKind::Eq(a, b) || e.kind == ExprKind::Neq(a, b),
    ensures
        ({
            let x = check_expr_spec(syms, *a);
            let y = check_expr_spec(syms, *b);
            let f = check_expr_spec(syms, e);
            let mismatch = x.ty is Some && y.ty is Some && x.ty != y.ty;
            &&& f.ty == Some(Type::Boolean)
            &&& f.diags.subrange(0, (x.diags + y.diags).len() as int) == x.diags + y.diags
            &&& f.diags.len() == x.diags.len() + y.diags.len() + (if mismatch {
                1int
            } else {
                0int
            })
            &&& mismatch ==> f.diags.last() == diag(
                "Porównanie niezgodnych typów: "@ + type_label(x.ty->0) + " oraz "@ + type_label(
                    y.ty->0,
                ),
                e.span,
                match a.kind {
                    ExprKind::Identifier(id) => Some(id@),
                    _ => match b.kind {
                        ExprKind::Identifier(id) => Some(id@),
                        _ => None,
                    },
                },
            )
        }),
{
    let x = check_expr_spec(syms, *a);
    let y = check_expr_spec(syms, *b);
    let f = check_expr_spec(syms, e);
    assert(f.diags.subrange(0, (x.diags + y.diags).len() as int) =~= x.diags + y.diags);
}

/// `break` and `continue` add one error outside every loop and none inside
/// one; a `for` loop is checked the same whether or not it stands inside
/// another, so a jump in its body never counts as outside a loop.
pub proof fn checker_jump_rule(syms: Seq<(Seq<char>, Type)>, in_loop: bool, s: Statement)
    ensures
        (s.kind is Break || s.kind is Continue) ==> check_stmt_spec(syms, in_loop, s).diags.len()
            == (if in_loop {
            0int
        } else {
            1int
        }),
        s.kind is For ==> check_stmt_spec(syms, in_loop, s) == check_stmt_spec(syms, true, s),
{
}

proof fn lemma_typed_expr_checks(syms: Seq<(Seq<char>, Type)>, e: Expr)
    requires
        typed(syms, e) is Some,
    ensures
        check_expr_spec(syms, e).diags.len() == 0,
        check_expr_spec(syms, e).ty == typed(syms, e),
    decreases e, 0nat,
{
    match e.kind {
        ExprKind::Add(a, b) | ExprKind::Sub(a, b) | ExprKind::Mul(a, b) | ExprKind::Div(a, b)
        | ExprKind::Mod(a, b) | ExprKind::Less(a, b) | ExprKind::LessEq(a, b)
        | ExprKind::Greater(a, b) | ExprKind::GreaterEq(a, b) => {
            lemma_typed_expect_checks(syms, *a, Type::Integer);
            lemma_typed_expect_checks(syms, *b, Type::Integer);
        },
        ExprKind::Concatenate(a, b) | ExprKind::Position(a, b) => {
            lemma_typed_expect_checks(syms, *a, Type::String);
            lemma_typed_expect_checks(syms, *b, Type::String);
        },
        ExprKind::And(a, b) | ExprKind::Or(a, b) => {
            lemma_typed_expect_checks(syms, *a, Type::Boolean);
            lemma_typed_expect_checks(syms, *b, Type::Boolean);
        },
        ExprKind::Substring(s, p, l) => {
            lemma_typed_expect_checks(syms, *s, Type::String);
            lemma_typed_expect_checks(syms, *p, Type::Integer);
            lemma_typed_expect_checks(syms, *l, Type::Integer);
        },
        ExprKind::Length(s) => {
            lemma_typed_expect_checks(syms, *s, Type::String);
        },
        ExprKind::Not(a) => {
            lemma_typed_expect_checks(syms, *a, Type::Boolean);
        },
        ExprKind::Eq(a, b) | ExprKind::Neq(a, b) => {
            lemma_typed_expr_checks(syms, *a);
            lemma_typed_expr_checks(syms, *b);
        },
        _ => {},
    }
}

proof fn lemma_typed_expect_checks(syms: Seq<(Seq<char>, Type)>, e: Expr, t: Type)
    requires
        typed(syms, e) == Some(t),
    ensures
        expect_spec(syms, e, t).diags.len() == 0,
    decreases e, 1nat,
{
    lemma_typed_expr_checks(syms, e);
}

/// The checker finds no error in an expression exactly when it is well
/// typed, and then gives it its type.
pub proof fn checker_accepts_exactly_well_typed_expr(syms: Seq<(Seq<char>, Type)>, e: Expr)
    ensures
        check_expr_spec(syms, e).diags.len() == 0 <==> typed(syms, e) is Some,
        typed(syms, e) is Some ==> check_expr_spec(syms, e).ty == typed(syms, e),
{
    if typed(syms, e) is Some {
        lemma_typed_expr_checks(syms, e);
    }
    if check_expr_spec(syms, e).diags.len() == 0 {
        lemma_check_expr_typed(syms, e);
    }
}

proof fn lemma_typed_stmt_checks(syms: Seq<(Seq<char>, Type)>, in_loop: bool, s: Statement)
    requires
        stmt_typed(syms, in_loop, s),
    ensures
        check_stmt_spec(syms, in_loop, s).diags.len() == 0,
    decreases s, 0int,
{
    match s.kind {
        StmtKind::Assign(id, e) => {
            lemma_typed_expr_checks(syms, *e);
        },
        StmtKind::If { condition, then_branch, elif_branches, else_branch } => {
            lemma_typed_expect_checks(syms, *condition, Type::Boolean);
            lemma_typed_stmt_checks(syms, in_loop, *then_branch);
            lemma_typed_elifs_check(syms, in_loop, elif_branches@, 0);
            if let Some(b) = else_branch {
                lemma_typed_stmt_checks(syms, in_loop, *b);
            }
        },
        StmtKind::For { iterator, from, to, body } => {
            lemma_typed_expect_checks(syms, *from, Type::Integer);
            lemma_typed_expect_checks(syms, *to, Type::Integer);
            lemma_typed_stmt_checks(syms, true, *body);
        },
        StmtKind::Block(stmts) => {
            lemma_typed_stmts_check(syms, in_loop, stmts@, 0);
        },
        StmtKind::Print(e) => {
            lemma_typed_expr_checks(syms, *e);
        },
        _ => {},
    }
}

proof fn lemma_typed_elifs_check(
    syms: Seq<(Seq<char>, Type)>,
    in_loop: bool,
    branches: Seq<(Expr, Statement)>,
    i: int,
)
    requires
        elifs_typed(syms, in_loop, branches, i),
    ensures
        check_elifs_spec(syms, in_loop, branches, i).diags.len() == 0,
    decreases branches, branches.len() - i,
{
    if 0 <= i < branches.len() {
        lemma_typed_expect_checks(syms, branches[i].0, Type::Boolean);
        lemma_typed_stmt_checks(syms, in_loop, branches[i].1);
        lemma_typed_elifs_check(syms, in_loop, branches, i + 1);
    }
}

proof fn lemma_typed_stmts_check(
    syms: Seq<(Seq<char>, Type)>,
    in_loop: bool,
    stmts: Seq<Statement>,
    i: int,
)
    requires
        stmts_typed(syms, in_loop, stmts, i),
    ensures
        check_stmts_spec(syms, in_loop, stmts, i).diags.len() == 0,
    decreases stmts, stmts.len() - i,
{
    if 0 <= i < stmts.len() {
        lemma_typed_stmt_checks(syms, in_loop, stmts[i]);
        lemma_typed_stmts_check(syms, in_loop, stmts, i + 1);
    }
}

proof fn lemma_lookup_push(syms: Seq<(Seq<char>, Type)>, a: Seq<char>, t: Type, n: Seq<char>)
    ensures
        lookup(syms.push((a, t)), n) == (if lookup(syms, n) is Some {
            lookup(syms, n)
        } else if n == a {
            Some(t)
        } else {
            None
        }),
    decreases syms.len(),
{
    if syms.len() > 0 {
        assert(syms.push((a, t)).drop_first() =~= syms.drop_first().push((a, t)));
        lemma_lookup_push(syms.drop_first(), a, t, n);
        assert(syms.push((a, t))[0] == syms[0]);
    } else {
        assert(syms.push((a, t)).drop_first() =~= syms);
    }
}

/// The declarations from index `i` on add no error to the table `syms`
/// exactly when none of them names a variable of `syms` and no two of them
/// name the same variable.
proof fn lemma_declare_clean(syms: Seq<(Seq<char>, Type)>, decls: Seq<Declaration>, i: int)
    requires
        0 <= i <= decls.len(),
    ensures
        declare_spec(syms, decls, i).1.diags.len() == 0 <==> {
            &&& forall|j: int| i <= j < decls.len() ==> lookup(syms, #[trigger] decls[j].identifier@) is None
            &&& forall|j: int, k: int|
                i <= j < k < decls.len() ==> #[trigger] decls[j].identifier@
                    != #[trigger] decls[k].identifier@
        },
    decreases decls.len() - i,
{
    if i < decls.len() {
        let d = decls[i];
        if lookup(syms, d.identifier@) is Some {
            let r2 = declare_spec(syms, decls, i + 1);
            assert(declare_spec(syms, decls, i).1.diags.len() == 1 + r2.1.diags.len());
        } else {
            let syms2 = syms.push((d.identifier@, d.var_type));
            lemma_declare_clean(syms2, decls, i + 1);
            assert(declare_spec(syms, decls, i).1.diags =~= declare_spec(syms2, decls, i + 1).1.diags);
            assert forall|j: int| i + 1 <= j < decls.len() implies lookup(
                syms2,
                #[trigger] decls[j].identifier@,
            ) == (if lookup(syms, decls[j].identifier@) is Some {
                lookup(syms, decls[j].identifier@)
            } else if decls[j].identifier@ == d.identifier@ {
                Some(d.var_type)
            } else {
                None
            }) by {
                lemma_lookup_push(syms, d.identifier@, d.var_type, decls[j].identifier@);
            }
        }
    }
}

/// The checker accepts a program exactly when no two of its declarations
/// name the same variable and its instructions are well typed under them:
/// every variable used, assigned or counted is declared, each operand,
/// condition, assigned value and loop bound has the type its place asks
/// for, and `break` and `continue` stand only inside the body of a `for`.
pub proof fn checker_accepts_exactly_well_typed(p: Program)
    ensures
        check_program_spec(p).diags.len() == 0 <==> {
            &&& distinct_declarations(p.declarations@)
            &&& stmts_typed(program_symbols(p), false, p.instructions@, 0)
        },
{
    let decls = p.declarations@;
    let (syms, d) = declare_spec(Seq::empty(), decls, 0);
    let b = check_stmts_spec(syms, false, p.instructions@, 0);
    lemma_declare_clean(Seq::empty(), decls, 0);
    assert(check_program_spec(p).diags == d.diags + b.diags);
    if check_program_spec(p).diags.len() == 0 {
        assert(d.diags.len() == 0 && b.diags.len() == 0);
        lemma_check_stmts_typed(syms, false, p.instructions@, 0);
    }
    if distinct_declarations(decls) && stmts_typed(syms, false, p.instructions@, 0) {
        assert forall|j: int| 0 <= j < decls.len() implies lookup(
            Seq::empty(),
            #[trigger] decls[j].identifier@,
        ) is None by {}
        lemma_typed_stmts_check(syms, false, p.instructions@, 0);
    }
}

} // verus!
