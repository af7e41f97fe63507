//! The semantic checker: declarations, types of expressions, and `break` or
//! `continue` outside loops. It collects every error it finds, each with
//! the places in the source where the variable it concerns occurs.
use crate::ast::{Declaration, Expr, ExprKind, Program, Statement, StmtKind, Type};
use std::ops::Range;
use vstd::prelude::*;

verus! {

/// A label on a span of the source, with or without a text.
#[derive(Debug)]
pub struct Label {
    pub text: Option<String>,
    pub span: Range<usize>,
}

/// An error found by the checker: its message, the source it was found
/// in, and the labelled spans that show it (the first one carries the
/// message).
#[derive(Debug)]
pub struct SemanticError {
    pub message: String,
    pub source: String,
    pub labels: Vec<Label>,
}

/// All errors of a program that did not pass the checker.
#[derive(Debug)]
pub struct CheckerResult {
    pub errors: Vec<SemanticError>,
}

/// An error as the checker records it.
pub struct RawError {
    pub message: String,
    pub span: Range<usize>,
    pub related_var: Option<String>,
}

/// What a recorded error says.
pub struct Diag {
    pub message: Seq<char>,
    pub span: Range<usize>,
    pub related: Option<Seq<char>>,
}

impl View for RawError {
    type V = Diag;

    open spec fn view(&self) -> Diag {
        Diag {
            message: self.message@,
            span: self.span,
            related: match self.related_var {
                Some(v) => Some(v@),
                None => None,
            },
        }
    }
}

/// What checking a piece of the program finds: the type of an expression
/// (when it has one), the errors, and the occurrences of variables, in order.
pub struct Found {
    pub ty: Option<Type>,
    pub diags: Seq<Diag>,
    pub occs: Seq<(Seq<char>, Range<usize>)>,
}

/// The type declared for `name`, when it is declared.
pub open spec fn lookup(syms: Seq<(Seq<char>, Type)>, name: Seq<char>) -> Option<Type>
    decreases syms.len(),
{
    if syms.len() == 0 {
        None
    } else if syms[0].0 == name {
        Some(syms[0].1)
    } else {
        lookup(syms.drop_first(), name)
    }
}

/// How `{:?}` writes a type.
pub open spec fn type_label(t: Type) -> Seq<char> {
    match t {
        Type::Integer => "Integer"@,
        Type::String => "String"@,
        Type::Boolean => "Boolean"@,
    }
}

pub open spec fn diag(message: Seq<char>, span: Range<usize>, related: Option<Seq<char>>) -> Diag {
    Diag { message, span, related }
}

/// `e` must have type `t`: a mismatch adds an error about `e` (naming
/// the variable when `e` is one) and gives no type.
pub open spec fn expect_spec(syms: Seq<(Seq<char>, Type)>, e: Expr, t: Type) -> Found
    decreases e, 1nat,
{
    let c = check_expr_spec(syms, e);
    match c.ty {
        None => c,
        Some(a) => if a == t {
            c
        } else {
            let related = match e.kind {
                ExprKind::Identifier(id) => Some(id@),
                _ => None,
            };
            Found {
                ty: None,
                diags: c.diags.push(
                    diag(
                        "Niezgodność typów: oczekiwano "@ + type_label(t) + ", otrzymano "@
                            + type_label(a),
                        e.span,
                        related,
                    ),
                ),
                occs: c.occs,
            }
        },
    }
}

/// The type of `e`, the errors in it and the variables it names.
pub open spec fn check_expr_spec(syms: Seq<(Seq<char>, Type)>, e: Expr) -> Found
    decreases e, 0nat,
{
    let none = Seq::<Diag>::empty();
    let no_occ = Seq::<(Seq<char>, Range<usize>)>::empty();
    match e.kind {
        ExprKind::Number(_) | ExprKind::ReadInt => Found {
            ty: Some(Type::Integer),
            diags: none,
            occs: no_occ,
        },
        ExprKind::StringLit(_) | ExprKind::ReadStr => Found {
            ty: Some(Type::String),
            diags: none,
            occs: no_occ,
        },
        ExprKind::True | ExprKind::False | ExprKind::ReadBool => Found {
            ty: Some(Type::Boolean),
            diags: none,
            occs: no_occ,
        },
        ExprKind::Identifier(id) => {
            let occs = seq![(id@, e.span)];
            match lookup(syms, id@) {
                Some(t) => Found { ty: Some(t), diags: none, occs },
                None => Found {
                    ty: None,
                    diags: seq![diag("Niezadeklarowana zmienna: "@ + id@, e.span, Some(id@))],
                    occs,
                },
            }
        },
        ExprKind::Add(a, b) | ExprKind::Sub(a, b) | ExprKind::Mul(a, b) | ExprKind::Div(a, b)
        | ExprKind::Mod(a, b) => {
            let x = expect_spec(syms, *a, Type::Integer);
            let y = expect_spec(syms, *b, Type::Integer);
            Found { ty: Some(Type::Integer), diags: x.diags + y.diags, occs: x.occs + y.occs }
        },
        ExprKind::Concatenate(a, b) => {
            let x = expect_spec(syms, *a, Type::String);
            let y = expect_spec(syms, *b, Type::String);
            Found { ty: Some(Type::String), diags: x.diags + y.diags, occs: x.occs + y.occs }
        },
        ExprKind::Substring(s, p, l) => {
            let x = expect_spec(syms, *s, Type::String);
            let y = expect_spec(syms, *p, Type::Integer);
            let z = expect_spec(syms, *l, Type::Integer);
            Found {
                ty: Some(Type::String),
                diags: x.diags + y.diags + z.diags,
                occs: x.occs + y.occs + z.occs,
            }
        },
        ExprKind::Length(s) => {
            let x = expect_spec(syms, *s, Type::String);
            Found { ty: Some(Type::Integer), diags: x.diags, occs: x.occs }
        },
        ExprKind::Position(a, b) => {
            let x = expect_spec(syms, *a, Type::String);
            let y = expect_spec(syms, *b, Type::String);
            Found { ty: Some(Type::Integer), diags: x.diags + y.diags, occs: x.occs + y.occs }
        },
        ExprKind::Not(a) => {
            let x = expect_spec(syms, *a, Type::Boolean);
            Found { ty: Some(Type::Boolean), diags: x.diags, occs: x.occs }
        },
        ExprKind::And(a, b) | ExprKind::Or(a, b) => {
            let x = expect_spec(syms, *a, Type::Boolean);
            let y = expect_spec(syms, *b, Type::Boolean);
            Found { ty: Some(Type::Boolean), diags: x.diags + y.diags, occs: x.occs + y.occs }
        },
        ExprKind::Eq(a, b) | ExprKind::Neq(a, b) => {
            let x = check_expr_spec(syms, *a);
            let y = check_expr_spec(syms, *b);
            let mismatch = x.ty is Some && y.ty is Some && x.ty != y.ty;
            let related = match a.kind {
                ExprKind::Identifier(id) => Some(id@),
                _ => match b.kind {
                    ExprKind::Identifier(id) => Some(id@),
                    _ => None,
                },
            };
            let d = diag(
                "Porównanie niezgodnych typów: "@ + type_label(x.ty->0) + " oraz "@ + type_label(
                    y.ty->0,
                ),
                e.span,
                related,
            );
            Found {
                ty: Some(Type::Boolean),
                diags: if mismatch {
                    (x.diags + y.diags).push(d)
                } else {
                    x.diags + y.diags
                },
                occs: x.occs + y.occs,
            }
        },
        ExprKind::Less(a, b) | ExprKind::LessEq(a, b) | ExprKind::Greater(a, b)
        | ExprKind::GreaterEq(a, b) => {
            let x = expect_spec(syms, *a, Type::Integer);
            let y = expect_spec(syms, *b, Type::Integer);
            Found { ty: Some(Type::Boolean), diags: x.diags + y.diags, occs: x.occs + y.occs }
        },
    }
}

pub open spec fn no_found() -> Found {
    Found { ty: None, diags: Seq::empty(), occs: Seq::empty() }
}

/// The errors in `s` and the variables it names; `in_loop` tells whether
/// `s` stands inside a `for` loop.
pub open spec fn check_stmt_spec(syms: Seq<(Seq<char>, Type)>, in_loop: bool, s: Statement) -> Found
    decreases s, 0int,
{
    match s.kind {
        StmtKind::Assign(id, e) => {
            let c = check_expr_spec(syms, *e);
            let extra = match lookup(syms, id@) {
                Some(vt) => match c.ty {
                    Some(et) => if vt != et {
                        seq![
                            diag(
                                "Niezgodność typów: przypisujesz wartość typu "@ + type_label(et)
                                    + " do zmiennej '"@ + id@ + "' typu "@ + type_label(vt),
                                e.span,
                                Some(id@),
                            ),
                        ]
                    } else {
                        Seq::empty()
                    },
                    None => Seq::empty(),
                },
                None => seq![
                    diag("Przypisanie do niezadeklarowanej zmiennej: "@ + id@, s.span, Some(id@)),
                ],
            };
            Found { ty: None, diags: c.diags + extra, occs: seq![(id@, s.span)] + c.occs }
        },
        StmtKind::If { condition, then_branch, elif_branches, else_branch } => {
            let c = expect_spec(syms, *condition, Type::Boolean);
            let t = check_stmt_spec(syms, in_loop, *then_branch);
            let el = check_elifs_spec(syms, in_loop, elif_branches@, 0);
            let eb = match else_branch {
                Some(b) => check_stmt_spec(syms, in_loop, *b),
                None => no_found(),
            };
            Found {
                ty: None,
                diags: c.diags + t.diags + el.diags + eb.diags,
                occs: c.occs + t.occs + el.occs + eb.occs,
            }
        },
        StmtKind::For { iterator, from, to, body } => {
            let itd = match lookup(syms, iterator@) {
                Some(vt) => if vt != Type::Integer {
                    seq![
                        diag(
                            "Zmienna iterująca '"@ + iterator@ + "' w pętli for musi być typu Integer"@,
                            s.span,
                            Some(iterator@),
                        ),
                    ]
                } else {
                    Seq::empty()
                },
                None => seq![
                    diag(
                        "Niezadeklarowana zmienna iterująca w pętli: "@ + iterator@,
                        s.span,
                        Some(iterator@),
                    ),
                ],
            };
            let f = expect_spec(syms, *from, Type::Integer);
            let t = expect_spec(syms, *to, Type::Integer);
            let b = check_stmt_spec(syms, true, *body);
            Found {
                ty: None,
                diags: itd + f.diags + t.diags + b.diags,
                occs: seq![(iterator@, s.span)] + f.occs + t.occs + b.occs,
            }
        },
        StmtKind::Block(stmts) => check_stmts_spec(syms, in_loop, stmts@, 0),
        StmtKind::Print(e) => {
            let c = check_expr_spec(syms, *e);
            Found { ty: None, diags: c.diags, occs: c.occs }
        },
        StmtKind::Break => if in_loop {
            no_found()
        } else {
            Found {
                ty: None,
                diags: seq![diag("Instrukcja 'break' użyta poza pętlą"@, s.span, None)],
                occs: Seq::empty(),
            }
        },
        StmtKind::Continue => if in_loop {
            no_found()
        } else {
            Found {
                ty: None,
                diags: seq![diag("Instrukcja 'continue' użyta poza pętlą"@, s.span, None)],
                occs: Seq::empty(),
            }
        },
        StmtKind::Exit => no_found(),
    }
}

pub open spec fn check_elifs_spec(
    syms: Seq<(Seq<char>, Type)>,
    in_loop: bool,
    branches: Seq<(Expr, Statement)>,
    i: int,
) -> Found
    decreases branches, branches.len() - i,
{
    if i < 0 || i >= branches.len() {
        no_found()
    } else {
        let c = expect_spec(syms, branches[i].0, Type::Boolean);
        let b = check_stmt_spec(syms, in_loop, branches[i].1);
        let rest = check_elifs_spec(syms, in_loop, branches, i + 1);
        Found { ty: None, diags: c.diags + b.diags + rest.diags, occs: c.occs + b.occs + rest.occs }
    }
}

pub open spec fn check_stmts_spec(
    syms: Seq<(Seq<char>, Type)>,
    in_loop: bool,
    stmts: Seq<Statement>,
    i: int,
) -> Found
    decreases stmts, stmts.len() - i,
{
    if i < 0 || i >= stmts.len() {
        no_found()
    } else {
        let b = check_stmt_spec(syms, in_loop, stmts[i]);
        let rest = check_stmts_spec(syms, in_loop, stmts, i + 1);
        Found { ty: None, diags: b.diags + rest.diags, occs: b.occs + rest.occs }
    }
}

/// What the declarations from index `i` on add to the symbol table `syms`:
/// a name declared again is an error, otherwise it enters the table and
/// its declaration counts as an occurrence.
pub open spec fn declare_spec(syms: Seq<(Seq<char>, Type)>, decls: Seq<Declaration>, i: int) -> (
    Seq<(Seq<char>, Type)>,
    Found,
)
    decreases decls.len() - i,
{
    if i < 0 || i >= decls.len() {
        (syms, no_found())
    } else {
        let d = decls[i];
        let (syms2, here) = if lookup(syms, d.identifier@) is Some {
            (
                syms,
                Found {
                    ty: None,
                    diags: seq![
                        diag(
                            "Ponowna deklaracja zmiennej: "@ + d.identifier@,
                            d.span,
                            Some(d.identifier@),
                        ),
                    ],
                    occs: Seq::empty(),
                },
            )
        } else {
            (
                syms.push((d.identifier@, d.var_type)),
                Found { ty: None, diags: Seq::empty(), occs: seq![(d.identifier@, d.span)] },
            )
        };
        let (syms3, rest) = declare_spec(syms2, decls, i + 1);
        (syms3, Found { ty: None, diags: here.diags + rest.diags, occs: here.occs + rest.occs })
    }
}

/// The symbol table of `p`: the first declaration of each name.
pub open spec fn program_symbols(p: Program) -> Seq<(Seq<char>, Type)> {
    declare_spec(Seq::empty(), p.declarations@, 0).0
}

/// Everything the checker finds in `p`, in order: declaration errors first,
/// then the errors of the instructions.
pub open spec fn check_program_spec(p: Program) -> Found {
    let (syms, d) = declare_spec(Seq::empty(), p.declarations@, 0);
    let b = check_stmts_spec(syms, false, p.instructions@, 0);
    Found { ty: None, diags: d.diags + b.diags, occs: d.occs + b.occs }
}

/// The spans at which `v` occurs, in the order they were recorded.
pub open spec fn spans_of(occs: Seq<(Seq<char>, Range<usize>)>, v: Seq<char>) -> Seq<Range<usize>>
    decreases occs.len(),
{
    if occs.len() == 0 {
        Seq::empty()
    } else {
        let rest = spans_of(occs.drop_last(), v);
        if occs.last().0 == v {
            rest.push(occs.last().1)
        } else {
            rest
        }
    }
}

/// Inserts `x` into `sorted` after every span that does not start later.
pub open spec fn insert_by_start(sorted: Seq<Range<usize>>, x: Range<usize>) -> Seq<Range<usize>>
    decreases sorted.len(),
{
    if sorted.len() == 0 {
        seq![x]
    } else if sorted.last().start <= x.start {
        sorted.push(x)
    } else {
        insert_by_start(sorted.drop_last(), x).push(sorted.last())
    }
}

/// `spans` sorted by start; spans with equal starts keep their order.
pub open spec fn sort_by_start(spans: Seq<Range<usize>>) -> Seq<Range<usize>>
    decreases spans.len(),
{
    if spans.len() == 0 {
        Seq::empty()
    } else {
        insert_by_start(sort_by_start(spans.drop_last()), spans.last())
    }
}

/// Whether two spans share a position.
pub open spec fn overlaps(a: Range<usize>, b: Range<usize>) -> bool {
    a.start < b.end && b.start < a.end
}

pub open spec fn overlaps_any(accepted: Seq<Range<usize>>, x: Range<usize>) -> bool {
    exists|k: int| 0 <= k < accepted.len() && overlaps(accepted[k], x)
}

/// In order, each span that overlaps neither `accepted` nor a span taken before it.
pub open spec fn pick_spans(spans: Seq<Range<usize>>, accepted: Seq<Range<usize>>) -> Seq<Range<usize>>
    decreases spans.len(),
{
    if spans.len() == 0 {
        Seq::empty()
    } else if overlaps_any(accepted, spans[0]) {
        pick_spans(spans.drop_first(), accepted)
    } else {
        seq![spans[0]] + pick_spans(spans.drop_first(), accepted.push(spans[0]))
    }
}

/// The labels of an error: its span with its message, then the
/// occurrences of the variable it concerns, by position, each that
/// overlaps no span labelled before it.
pub open spec fn labels_spec(d: Diag, occs: Seq<(Seq<char>, Range<usize>)>) -> Seq<(Option<Seq<char>>, Range<usize>)> {
    let first = seq![(Some(d.message), d.span)];
    match d.related {
        Some(v) => first + pick_spans(sort_by_start(spans_of(occs, v)), seq![d.span]).map_values(
            |r: Range<usize>| (None::<Seq<char>>, r),
        ),
        None => first,
    }
}

/// What a label says.
pub open spec fn label_view(l: Label) -> (Option<Seq<char>>, Range<usize>) {
    (
        match l.text {
            Some(t) => Some(t@),
            None => None,
        },
        l.span,
    )
}

/// `e` reports the error `d` in `source`.
pub open spec fn reports(e: SemanticError, d: Diag, occs: Seq<(Seq<char>, Range<usize>)>, source: Seq<char>) -> bool {
    &&& e.message@ == d.message
    &&& e.source@ == source
    &&& e.labels@.len() == labels_spec(d, occs).len()
    &&& forall|k: int| 0 <= k < e.labels@.len() ==> label_view(#[trigger] e.labels@[k]) == labels_spec(d, occs)[k]
}

fn type_label_exec(t: Type) -> (r: &'static str)
    ensures
        r@ == type_label(t),
{
    match t {
        Type::Integer => "Integer",
        Type::String => "String",
        Type::Boolean => "Boolean",
    }
}

fn copy_range(r: &Range<usize>) -> (c: Range<usize>)
    ensures
        c == *r,
{
    Range { start: r.start, end: r.end }
}

/// The spans at which `v` occurs in `occs`.
fn spans_of_exec(occs: &Vec<(String, Range<usize>)>, v: &String) -> (r: Vec<Range<usize>>)
    ensures
        r@ == spans_of(Seq::new(occs@.len(), |i: int| (occs@[i].0@, occs@[i].1)), v@),
{
    let ghost all = Seq::new(occs@.len(), |i: int| (occs@[i].0@, occs@[i].1));
    let mut r: Vec<Range<usize>> = Vec::new();
    let mut i: usize = 0;
    while i < occs.len()
        invariant
            i <= occs@.len(),
            all == Seq::new(occs@.len(), |i: int| (occs@[i].0@, occs@[i].1)),
            r@ == spans_of(all.take(i as int), v@),
        decreases occs@.len() - i,
    {
        assert(all.take(i + 1).drop_last() =~= all.take(i as int));
        if occs[i].0 == *v {
            r.push(copy_range(&occs[i].1));
        }
        i = i + 1;
    }
    assert(all.take(i as int) =~= all);
    r
}

fn insert_by_start_exec(sorted: &mut Vec<Range<usize>>, x: Range<usize>)
    ensures
        final(sorted)@ == insert_by_start(old(sorted)@, x),
{
    let ghost s0 = sorted@;
    let mut j = sorted.len();
    assert(s0.subrange(0, j as int) =~= s0);
    assert(s0.subrange(j as int, s0.len() as int) =~= Seq::<Range<usize>>::empty());
    while j > 0 && sorted[j - 1].start > x.start
        invariant
            sorted@ == s0,
            j <= s0.len(),
            insert_by_start(s0, x) == insert_by_start(s0.subrange(0, j as int), x) + s0.subrange(
                j as int,
                s0.len() as int,
            ),
        decreases j,
    {
        let ghost pre = s0.subrange(0, j as int);
        assert(pre.drop_last() =~= s0.subrange(0, j - 1));
        assert(s0.subrange(j - 1, s0.len() as int) =~= seq![pre.last()] + s0.subrange(
            j as int,
            s0.len() as int,
        ));
        assert(insert_by_start(pre, x) == insert_by_start(pre.drop_last(), x).push(pre.last()));
        assert(insert_by_start(pre.drop_last(), x).push(pre.last()) + s0.subrange(j as int, s0.len() as int)
            =~= insert_by_start(pre.drop_last(), x) + s0.subrange(j - 1, s0.len() as int));
        j = j - 1;
    }
    let ghost pre = s0.subrange(0, j as int);
    sorted.insert(j, x);
    assert(sorted@ =~= insert_by_start(pre, x) + s0.subrange(j as int, s0.len() as int));
}

fn sort_by_start_exec(spans: &Vec<Range<usize>>) -> (r: Vec<Range<usize>>)
    ensures
        r@ == sort_by_start(spans@),
{
    let mut r: Vec<Range<usize>> = Vec::new();
    let mut i: usize = 0;
    while i < spans.len()
        invariant
            i <= spans@.len(),
            r@ == sort_by_start(spans@.take(i as int)),
        decreases spans@.len() - i,
    {
        assert(spans@.take(i + 1).drop_last() =~= spans@.take(i as int));
        insert_by_start_exec(&mut r, copy_range(&spans[i]));
        i = i + 1;
    }
    assert(spans@.take(i as int) =~= spans@);
    r
}

fn overlaps_any_exec(accepted: &Vec<Range<usize>>, x: &Range<usize>) -> (r: bool)
    ensures
        r == overlaps_any(accepted@, *x),
{
    let mut k: usize = 0;
    while k < accepted.len()
        invariant
            k <= accepted@.len(),
            forall|m: int| 0 <= m < k ==> !overlaps(accepted@[m], *x),
        decreases accepted@.len() - k,
    {
        if accepted[k].start < x.end && x.start < accepted[k].end {
            assert(overlaps(accepted@[k as int], *x));
            return true;
        }
        k = k + 1;
    }
    false
}

/// The labels of the error `err`, given all recorded occurrences.
fn labels_of(err: &RawError, occs: &Vec<(String, Range<usize>)>) -> (r: Vec<Label>)
    ensures
        r@.len() == labels_spec(err@, Seq::new(occs@.len(), |i: int| (occs@[i].0@, occs@[i].1))).len(),
        forall|k: int|
            0 <= k < r@.len() ==> label_view(#[trigger] r@[k]) == labels_spec(
                err@,
                Seq::new(occs@.len(), |i: int| (occs@[i].0@, occs@[i].1)),
            )[k],
{
    let ghost all = Seq::new(occs@.len(), |i: int| (occs@[i].0@, occs@[i].1));
    let mut labels: Vec<Label> = Vec::new();
    labels.push(Label { text: Some(err.message.clone()), span: copy_range(&err.span) });
    match &err.related_var {
        None => {
            assert(label_view(labels@[0]) == labels_spec(err@, all)[0]);
            labels
        },
        Some(v) => {
            let spans = spans_of_exec(occs, v);
            let sorted = sort_by_start_exec(&spans);
            let ghost want = pick_spans(sorted@, seq![err.span]);
            let mut accepted: Vec<Range<usize>> = Vec::new();
            accepted.push(copy_range(&err.span));
            let mut i: usize = 0;
            let ghost mut got = Seq::<Range<usize>>::empty();
            assert(sorted@.skip(0) =~= sorted@);
            assert(want =~= got + pick_spans(sorted@.skip(0), accepted@));
            while i < sorted.len()
                invariant
                    i <= sorted@.len(),
                    labels@.len() == 1 + got.len(),
                    label_view(labels@[0]) == (Some(err.message@), err.span),
                    forall|k: int| 0 <= k < got.len() ==> label_view(#[trigger] labels@[k + 1]) == (None::<Seq<char>>, got[k]),
                    want == got + pick_spans(sorted@.skip(i as int), accepted@),
                decreases sorted@.len() - i,
            {
                let ghost rest = sorted@.skip(i as int);
                assert(rest.drop_first() =~= sorted@.skip(i + 1));
                assert(rest[0] == sorted@[i as int]);
                if !overlaps_any_exec(&accepted, &sorted[i]) {
                    labels.push(Label { text: None, span: copy_range(&sorted[i]) });
                    accepted.push(copy_range(&sorted[i]));
                    proof {
                        assert(got + (seq![rest[0]] + pick_spans(rest.drop_first(), accepted@)) =~= got.push(rest[0]) + pick_spans(rest.drop_first(), accepted@));
                        got = got.push(rest[0]);
                    }
                }
                i = i + 1;
            }
            assert(sorted@.skip(i as int) =~= Seq::<Range<usize>>::empty());
            assert(want =~= got);
            let ghost spec = labels_spec(err@, all);
            assert(spec.len() == labels@.len());
            assert forall|k: int| 0 <= k < labels@.len() implies label_view(#[trigger] labels@[k]) == spec[k] by {
                if k > 0 {
                    assert(label_view(labels@[(k - 1) + 1]) == (None::<Seq<char>>, got[k - 1]));
                }
            }
            labels
        },
    }
}

/// Checks programs.
pub struct Checker {
    symbol_table: Vec<(String, Type)>,
    in_loop: bool,
    errors: Vec<RawError>,
    var_occurrences: Vec<(String, Range<usize>)>,
}

impl Checker {
    /// The declared names and their types.
    pub closed spec fn symbols(&self) -> Seq<(Seq<char>, Type)> {
        Seq::new(self.symbol_table@.len(), |i: int| (self.symbol_table@[i].0@, self.symbol_table@[i].1))
    }

    /// The errors recorded so far.
    pub closed spec fn diags(&self) -> Seq<Diag> {
        Seq::new(self.errors@.len(), |i: int| self.errors@[i]@)
    }

    /// The occurrences of variables recorded so far.
    pub closed spec fn occs(&self) -> Seq<(Seq<char>, Range<usize>)> {
        Seq::new(
            self.var_occurrences@.len(),
            |i: int| (self.var_occurrences@[i].0@, self.var_occurrences@[i].1),
        )
    }

    /// Whether the checker stands inside a `for` loop.
    pub closed spec fn inside_loop(&self) -> bool {
        self.in_loop
    }

    /// A checker that has seen nothing yet.
    pub fn new() -> (r: Checker)
        ensures
            r.symbols() == Seq::<(Seq<char>, Type)>::empty(),
            r.diags() == Seq::<Diag>::empty(),
            r.occs() == Seq::<(Seq<char>, Range<usize>)>::empty(),
            !r.inside_loop(),
    {
        let r = Checker {
            symbol_table: Vec::new(),
            in_loop: false,
            errors: Vec::new(),
            var_occurrences: Vec::new(),
        };
        assert(r.symbols() =~= Seq::<(Seq<char>, Type)>::empty());
        assert(r.diags() =~= Seq::<Diag>::empty());
        assert(r.occs() =~= Seq::<(Seq<char>, Range<usize>)>::empty());
        r
    }

    /// Checks `program`, whose text is `source`: `Ok` when nothing is
    /// wrong, otherwise every error found, in order, each with its labels.
    pub fn check_program(self, program: &Program, source: &str) -> (r: Result<(), CheckerResult>)
        requires
            self.symbols() == Seq::<(Seq<char>, Type)>::empty(),
            self.diags() == Seq::<Diag>::empty(),
            self.occs() == Seq::<(Seq<char>, Range<usize>)>::empty(),
            !self.inside_loop(),
        ensures
            r is Ok <==> check_program_spec(*program).diags.len() == 0,
            r matches Err(res) ==> {
                &&& res.errors@.len() == check_program_spec(*program).diags.len()
                &&& forall|k: int|
                    0 <= k < res.errors@.len() ==> reports(
                        #[trigger] res.errors@[k],
                        check_program_spec(*program).diags[k],
                        check_program_spec(*program).occs,
                        source@,
                    )
            },
    {
        let mut this = self;
        let decls = &program.declarations;
        let ghost total = declare_spec(Seq::empty(), decls@, 0);
        let ghost mut d_acc = Seq::<Diag>::empty();
        let ghost mut o_acc = Seq::<(Seq<char>, Range<usize>)>::empty();
        let mut i: usize = 0;
        assert(this.diags() =~= d_acc);
        assert(this.occs() =~= o_acc);
        assert(total.1.diags =~= d_acc + total.1.diags);
        assert(total.1.occs =~= o_acc + total.1.occs);
        while i < decls.len()
            invariant
                i <= decls@.len(),
                total == declare_spec(Seq::empty(), decls@, 0),
                !this.in_loop,
                this.diags() == d_acc,
                this.occs() == o_acc,
                declare_spec(this.symbols(), decls@, i as int).0 == total.0,
                total.1.diags == d_acc + declare_spec(this.symbols(), decls@, i as int).1.diags,
                total.1.occs == o_acc + declare_spec(this.symbols(), decls@, i as int).1.occs,
            decreases decls@.len() - i,
        {
            let decl = &decls[i];
            let ghost syms0 = this.symbols();
            let ghost rest = declare_spec(syms0, decls@, i as int);
            match this.lookup(&decl.identifier) {
                Some(_) => {
                    let mut m = String::from_str("Ponowna deklaracja zmiennej: ");
                    m.append(decl.identifier.as_str());
                    this.report(m, &decl.span, Some(&decl.identifier));
                    proof {
                        let here = seq![diag(m@, decl.span, Some(decl.identifier@))];
                        let next = declare_spec(syms0, decls@, i + 1);
                        assert(rest.1.diags == here + next.1.diags);
                        assert(d_acc + (here + next.1.diags) =~= (d_acc + here) + next.1.diags);
                        assert(o_acc + (Seq::<(Seq<char>, Range<usize>)>::empty() + next.1.occs) =~= o_acc + next.1.occs);
                        d_acc = d_acc + here;
                        assert(this.occs() =~= o_acc);
                    }
                },
                None => {
                    this.symbol_table.push((decl.identifier.clone(), decl.var_type));
                    assert(this.symbols() =~= syms0.push((decl.identifier@, decl.var_type)));
                    assert(this.diags() =~= d_acc);
                    this.note(&decl.identifier, &decl.span);
                    proof {
                        let here = seq![(decl.identifier@, decl.span)];
                        let next = declare_spec(this.symbols(), decls@, i + 1);
                        assert(rest.1.occs == here + next.1.occs);
                        assert(o_acc + (here + next.1.occs) =~= (o_acc + here) + next.1.occs);
                        assert(d_acc + (Seq::<Diag>::empty() + next.1.diags) =~= d_acc + next.1.diags);
                        assert(this.diags() =~= d_acc);
                        o_acc = o_acc + here;
                    }
                },
            }
            i = i + 1;
        }
        assert(d_acc =~= total.1.diags);
        assert(o_acc =~= total.1.occs);
        let ghost syms = this.symbols();
        let stmts = &program.instructions;
        let ghost all = check_stmts_spec(syms, false, stmts@, 0);
        let ghost d1 = d_acc;
        let ghost o1 = o_acc;
        let ghost mut d2 = Seq::<Diag>::empty();
        let ghost mut o2 = Seq::<(Seq<char>, Range<usize>)>::empty();
        assert(this.diags() =~= d1 + d2);
        assert(this.occs() =~= o1 + o2);
        assert(all.diags =~= d2 + all.diags);
        assert(all.occs =~= o2 + all.occs);
        let mut j: usize = 0;
        while j < stmts.len()
            invariant
                j <= stmts@.len(),
                syms == this.symbols(),
                !this.in_loop,
                stmts@ == program.instructions@,
                all == check_stmts_spec(syms, false, stmts@, 0),
                this.diags() == d1 + d2,
                this.occs() == o1 + o2,
                all.diags == d2 + check_stmts_spec(syms, false, stmts@, j as int).diags,
                all.occs == o2 + check_stmts_spec(syms, false, stmts@, j as int).occs,
            decreases stmts@.len() - j,
        {
            let ghost f = check_stmt_spec(syms, false, stmts@[j as int]);
            let ghost rest = check_stmts_spec(syms, false, stmts@, j + 1);
            this.check_statement(&stmts[j]);
            proof {
                assert(d2 + (f.diags + rest.diags) =~= (d2 + f.diags) + rest.diags);
                assert(o2 + (f.occs + rest.occs) =~= (o2 + f.occs) + rest.occs);
                assert(this.diags() =~= d1 + (d2 + f.diags));
                assert(this.occs() =~= o1 + (o2 + f.occs));
                d2 = d2 + f.diags;
                o2 = o2 + f.occs;
            }
            j = j + 1;
        }
        assert(d2 =~= all.diags);
        assert(o2 =~= all.occs);
        assert(this.diags() =~= check_program_spec(*program).diags);
        assert(this.occs() =~= check_program_spec(*program).occs);
        if this.errors.len() == 0 {
            return Ok(());
        }
        let ghost occs = this.occs();
        let mut errors: Vec<SemanticError> = Vec::new();
        let mut k: usize = 0;
        while k < this.errors.len()
            invariant
                k <= this.errors@.len(),
                occs == this.occs(),
                this.diags() == check_program_spec(*program).diags,
                occs == check_program_spec(*program).occs,
                errors@.len() == k,
                forall|m: int|
                    0 <= m < k ==> reports(#[trigger] errors@[m], this.diags()[m], occs, source@),
            decreases this.errors@.len() - k,
        {
            let err = &this.errors[k];
            let labels = labels_of(err, &this.var_occurrences);
            let e = SemanticError {
                message: err.message.clone(),
                source: String::from_str(source),
                labels,
            };
            assert(reports(e, this.diags()[k as int], occs, source@));
            errors.push(e);
            k = k + 1;
        }
        Err(CheckerResult { errors })
    }

    spec fn adds(&self, old: &Checker, f: Found) -> bool {
        &&& self.symbol_table == old.symbol_table
        &&& self.in_loop == old.in_loop
        &&& self.diags() == old.diags() + f.diags
        &&& self.occs() == old.occs() + f.occs
    }

    fn lookup(&self, name: &String) -> (r: Option<Type>)
        ensures
            r == lookup(self.symbols(), name@),
    {
        let mut i: usize = 0;
        assert(self.symbols().skip(0) =~= self.symbols());
        while i < self.symbol_table.len()
            invariant
                i <= self.symbol_table@.len(),
                lookup(self.symbols(), name@) == lookup(self.symbols().skip(i as int), name@),
            decreases self.symbol_table@.len() - i,
        {
            let ghost rest = self.symbols().skip(i as int);
            assert(rest.drop_first() =~= self.symbols().skip(i + 1));
            if self.symbol_table[i].0 == *name {
                return Some(self.symbol_table[i].1);
            }
            i = i + 1;
        }
        assert(self.symbols().skip(i as int) =~= Seq::<(Seq<char>, Type)>::empty());
        None
    }

    fn note(&mut self, name: &String, span: &Range<usize>)
        ensures
            final(self).adds(
                old(self),
                Found { ty: None, diags: Seq::empty(), occs: seq![(name@, *span)] },
            ),
    {
        self.var_occurrences.push((name.clone(), copy_range(span)));
        assert(self.occs() =~= old(self).occs() + seq![(name@, *span)]);
        assert(self.diags() =~= old(self).diags() + Seq::<Diag>::empty());
    }

    fn report(&mut self, message: String, span: &Range<usize>, related: Option<&String>)
        ensures
            final(self).adds(
                old(self),
                Found {
                    ty: None,
                    diags: seq![
                        diag(
                            message@,
                            *span,
                            match related {
                                Some(v) => Some(v@),
                                None => None,
                            },
                        ),
                    ],
                    occs: Seq::empty(),
                },
            ),
    {
        let related_var = match related {
            Some(v) => Some(v.clone()),
            None => None,
        };
        self.errors.push(RawError { message, span: copy_range(span), related_var });
        assert(self.occs() =~= old(self).occs() + Seq::<(Seq<char>, Range<usize>)>::empty());
        assert(self.diags() =~= old(self).diags() + seq![
            diag(
                message@,
                *span,
                match related {
                    Some(v) => Some(v@),
                    None => None,
                },
            ),
        ]);
    }

    #[verifier::spinoff_prover]
    #[verifier::rlimit(100)]
    fn check_expr(&mut self, expr: &Expr) -> (r: Option<Type>)
        ensures
            final(self).adds(old(self), check_expr_spec(old(self).symbols(), *expr)),
            r == check_expr_spec(old(self).symbols(), *expr).ty,
        decreases expr, 0nat,
    {
        match &expr.kind {
            ExprKind::Number(_) | ExprKind::ReadInt => {
                assert(self.diags() =~= old(self).diags() + Seq::<Diag>::empty());
                assert(self.occs() =~= old(self).occs() + Seq::<(Seq<char>, Range<usize>)>::empty());
                Some(Type::Integer)
            },
            ExprKind::StringLit(_) | ExprKind::ReadStr => {
                assert(self.diags() =~= old(self).diags() + Seq::<Diag>::empty());
                assert(self.occs() =~= old(self).occs() + Seq::<(Seq<char>, Range<usize>)>::empty());
                Some(Type::String)
            },
            ExprKind::True | ExprKind::False | ExprKind::ReadBool => {
                assert(self.diags() =~= old(self).diags() + Seq::<Diag>::empty());
                assert(self.occs() =~= old(self).occs() + Seq::<(Seq<char>, Range<usize>)>::empty());
                Some(Type::Boolean)
            },
            ExprKind::Identifier(id) => {
                self.note(id, &expr.span);
                match self.lookup(id) {
                    Some(t) => {
                        assert(self.diags() =~= old(self).diags() + Seq::<Diag>::empty());
                        Some(t)
                    },
                    None => {
                        let mut m = String::from_str("Niezadeklarowana zmienna: ");
                        m.append(id.as_str());
                        self.report(m, &expr.span, Some(id));
                        assert(self.diags() =~= old(self).diags() + check_expr_spec(
                            old(self).symbols(),
                            *expr,
                        ).diags);
                        None
                    },
                }
            },
            ExprKind::Add(a, b) | ExprKind::Sub(a, b) | ExprKind::Mul(a, b) | ExprKind::Div(a, b)
            | ExprKind::Mod(a, b) => {
                self.expect_type(a, Type::Integer);
                self.expect_type(b, Type::Integer);
                assert(self.diags() =~= old(self).diags() + check_expr_spec(old(self).symbols(), *expr).diags);
                assert(self.occs() =~= old(self).occs() + check_expr_spec(old(self).symbols(), *expr).occs);
                Some(Type::Integer)
            },
            ExprKind::Concatenate(a, b) => {
                self.expect_type(a, Type::String);
                self.expect_type(b, Type::String);
                assert(self.diags() =~= old(self).diags() + check_expr_spec(old(self).symbols(), *expr).diags);
                assert(self.occs() =~= old(self).occs() + check_expr_spec(old(self).symbols(), *expr).occs);
                Some(Type::String)
            },
            ExprKind::Substring(sx, p, l) => {
                self.expect_type(sx, Type::String);
                self.expect_type(p, Type::Integer);
                self.expect_type(l, Type::Integer);
                assert(self.diags() =~= old(self).diags() + check_expr_spec(old(self).symbols(), *expr).diags);
                assert(self.occs() =~= old(self).occs() + check_expr_spec(old(self).symbols(), *expr).occs);
                Some(Type::String)
            },
            ExprKind::Length(sx) => {
                self.expect_type(sx, Type::String);
                Some(Type::Integer)
            },
            ExprKind::Position(a, b) => {
                self.expect_type(a, Type::String);
                self.expect_type(b, Type::String);
                assert(self.diags() =~= old(self).diags() + check_expr_spec(old(self).symbols(), *expr).diags);
                assert(self.occs() =~= old(self).occs() + check_expr_spec(old(self).symbols(), *expr).occs);
                Some(Type::Integer)
            },
            ExprKind::Not(a) => {
                self.expect_type(a, Type::Boolean);
                Some(Type::Boolean)
            },
            ExprKind::And(a, b) | ExprKind::Or(a, b) => {
                self.expect_type(a, Type::Boolean);
                self.expect_type(b, Type::Boolean);
                assert(self.diags() =~= old(self).diags() + check_expr_spec(old(self).symbols(), *expr).diags);
                assert(self.occs() =~= old(self).occs() + check_expr_spec(old(self).symbols(), *expr).occs);
                Some(Type::Boolean)
            },
            ExprKind::Eq(l, r) | ExprKind::Neq(l, r) => {
                let lt = self.check_expr(l);
                let rt = self.check_expr(r);
                let ghost mid = self.diags();
                if let (Some(lt_val), Some(rt_val)) = (lt, rt) {
                    if lt_val != rt_val {
                        let related: Option<&String> = match &l.kind {
                            ExprKind::Identifier(id) => Some(id),
                            _ => match &r.kind {
                                ExprKind::Identifier(id) => Some(id),
                                _ => None,
                            },
                        };
                        let mut m = String::from_str("Porównanie niezgodnych typów: ");
                        m.append(type_label_exec(lt_val));
                        m.append(" oraz ");
                        m.append(type_label_exec(rt_val));
                        self.report(m, &expr.span, related);
                    }
                }
                assert(self.diags() =~= old(self).diags() + check_expr_spec(old(self).symbols(), *expr).diags);
                assert(self.occs() =~= old(self).occs() + check_expr_spec(old(self).symbols(), *expr).occs);
                Some(Type::Boolean)
            },
            ExprKind::Less(a, b) | ExprKind::LessEq(a, b) | ExprKind::Greater(a, b)
            | ExprKind::GreaterEq(a, b) => {
                self.expect_type(a, Type::Integer);
                self.expect_type(b, Type::Integer);
                assert(self.diags() =~= old(self).diags() + check_expr_spec(old(self).symbols(), *expr).diags);
                assert(self.occs() =~= old(self).occs() + check_expr_spec(old(self).symbols(), *expr).occs);
                Some(Type::Boolean)
            },
        }
    }

    fn expect_type(&mut self, expr: &Expr, expected: Type) -> (r: Option<Type>)
        ensures
            final(self).adds(old(self), expect_spec(old(self).symbols(), *expr, expected)),
            r == expect_spec(old(self).symbols(), *expr, expected).ty,
        decreases expr, 1nat,
    {
        let actual = match self.check_expr(expr) {
            Some(t) => t,
            None => {
                return None;
            },
        };
        if actual != expected {
            let related: Option<&String> = match &expr.kind {
                ExprKind::Identifier(id) => Some(id),
                _ => None,
            };
            let mut m = String::from_str("Niezgodność typów: oczekiwano ");
            m.append(type_label_exec(expected));
            m.append(", otrzymano ");
            m.append(type_label_exec(actual));
            self.report(m, &expr.span, related);
            assert(self.diags() =~= old(self).diags() + expect_spec(old(self).symbols(), *expr, expected).diags);
            assert(self.occs() =~= old(self).occs() + expect_spec(old(self).symbols(), *expr, expected).occs);
            return None;
        }
        Some(actual)
    }

    #[verifier::loop_isolation(false)]
    fn check_statement(&mut self, stmt: &Statement)
        ensures
            final(self).adds(old(self), check_stmt_spec(old(self).symbols(), old(self).in_loop, *stmt)),
        decreases stmt, 1nat,
    {
        match &stmt.kind {
            StmtKind::Assign(..) => self.check_assign(stmt),
            StmtKind::If { .. } => self.check_if(stmt),
            StmtKind::For { .. } => self.check_for(stmt),
            StmtKind::Block(stmts) => {
                let ghost syms = old(self).symbols();
                let ghost in_loop = old(self).in_loop;
                let ghost mut d_acc = Seq::<Diag>::empty();
                let ghost mut o_acc = Seq::<(Seq<char>, Range<usize>)>::empty();
                let mut i: usize = 0;
                assert(self.diags() =~= old(self).diags() + d_acc);
                assert(self.occs() =~= old(self).occs() + o_acc);
                assert(check_stmts_spec(syms, in_loop, stmts@, 0).diags =~= d_acc + check_stmts_spec(syms, in_loop, stmts@, 0).diags);
                assert(check_stmts_spec(syms, in_loop, stmts@, 0).occs =~= o_acc + check_stmts_spec(syms, in_loop, stmts@, 0).occs);
                while i < stmts.len()
                    invariant
                        i <= stmts@.len(),
                        syms == old(self).symbols(),
                        in_loop == old(self).in_loop,
                        self.symbol_table == old(self).symbol_table,
                        self.in_loop == old(self).in_loop,
                        self.diags() == old(self).diags() + d_acc,
                        self.occs() == old(self).occs() + o_acc,
                        check_stmts_spec(syms, in_loop, stmts@, 0).diags == d_acc + check_stmts_spec(syms, in_loop, stmts@, i as int).diags,
                        check_stmts_spec(syms, in_loop, stmts@, 0).occs == o_acc + check_stmts_spec(syms, in_loop, stmts@, i as int).occs,
                    decreases stmts@.len() - i,
                {
                    let ghost f = check_stmt_spec(syms, in_loop, stmts@[i as int]);
                    let ghost rest = check_stmts_spec(syms, in_loop, stmts@, i + 1);
                    self.check_statement(&stmts[i]);
                    proof {
                        assert(d_acc + (f.diags + rest.diags) =~= (d_acc + f.diags) + rest.diags);
                        assert(o_acc + (f.occs + rest.occs) =~= (o_acc + f.occs) + rest.occs);
                        assert(self.diags() =~= old(self).diags() + (d_acc + f.diags));
                        assert(self.occs() =~= old(self).occs() + (o_acc + f.occs));
                        d_acc = d_acc + f.diags;
                        o_acc = o_acc + f.occs;
                    }
                    i = i + 1;
                }
                assert(d_acc =~= d_acc + check_stmts_spec(syms, in_loop, stmts@, i as int).diags);
                assert(o_acc =~= o_acc + check_stmts_spec(syms, in_loop, stmts@, i as int).occs);
            },
            StmtKind::Print(expr) => {
                self.check_expr(expr);
            },
            StmtKind::Break | StmtKind::Continue => {
                if !self.in_loop {
                    let m = if let StmtKind::Break = &stmt.kind {
                        String::from_str("Instrukcja 'break' użyta poza pętlą")
                    } else {
                        String::from_str("Instrukcja 'continue' użyta poza pętlą")
                    };
                    self.report(m, &stmt.span, None);
                } else {
                    assert(self.diags() =~= old(self).diags() + Seq::<Diag>::empty());
                    assert(self.occs() =~= old(self).occs() + Seq::<(Seq<char>, Range<usize>)>::empty());
                }
            },
            StmtKind::Exit => {
                assert(self.diags() =~= old(self).diags() + Seq::<Diag>::empty());
                assert(self.occs() =~= old(self).occs() + Seq::<(Seq<char>, Range<usize>)>::empty());
            },
        }
    }

    fn check_assign(&mut self, stmt: &Statement)
        requires
            stmt.kind is Assign,
        ensures
            final(self).adds(old(self), check_stmt_spec(old(self).symbols(), old(self).in_loop, *stmt)),
        decreases stmt, 0nat,
    {
        if let StmtKind::Assign(id, expr) = &stmt.kind {
            self.note(id, &stmt.span);
            let ghost after_note = self.diags();
            let expr_type = self.check_expr(expr);
            if let Some(var_type) = self.lookup(id) {
                if let Some(et) = expr_type {
                    if var_type != et {
                        let mut m = String::from_str("Niezgodność typów: przypisujesz wartość typu ");
                        m.append(type_label_exec(et));
                        m.append(" do zmiennej '");
                        m.append(id.as_str());
                        m.append("' typu ");
                        m.append(type_label_exec(var_type));
                        self.report(m, &expr.span, Some(id));
                    }
                }
            } else {
                let mut m = String::from_str("Przypisanie do niezadeklarowanej zmiennej: ");
                m.append(id.as_str());
                self.report(m, &stmt.span, Some(id));
            }
            assert(self.diags() =~= old(self).diags() + check_stmt_spec(old(self).symbols(), old(self).in_loop, *stmt).diags);
            assert(self.occs() =~= old(self).occs() + check_stmt_spec(old(self).symbols(), old(self).in_loop, *stmt).occs);
        }
    }

    #[verifier::loop_isolation(false)]
    #[verifier::spinoff_prover]
    #[verifier::rlimit(80)]
    fn check_if(&mut self, stmt: &Statement)
        requires
            stmt.kind is If,
        ensures
            final(self).adds(old(self), check_stmt_spec(old(self).symbols(), old(self).in_loop, *stmt)),
        decreases stmt, 0nat,
    {
        if let StmtKind::If { condition, then_branch, elif_branches, else_branch } = &stmt.kind {
            let ghost syms = old(self).symbols();
            let ghost in_loop = old(self).in_loop;
            self.expect_type(condition, Type::Boolean);
            self.check_statement(then_branch);
            let ghost d0 = self.diags();
            let ghost o0 = self.occs();
            let ghost mut d_acc = Seq::<Diag>::empty();
            let ghost mut o_acc = Seq::<(Seq<char>, Range<usize>)>::empty();
            let ghost all = check_elifs_spec(syms, in_loop, elif_branches@, 0);
            assert(self.diags() =~= d0 + d_acc);
            assert(self.occs() =~= o0 + o_acc);
            assert(all.diags =~= d_acc + all.diags);
            assert(all.occs =~= o_acc + all.occs);
            let mut i: usize = 0;
            while i < elif_branches.len()
                invariant
                    i <= elif_branches@.len(),
                    syms == old(self).symbols(),
                    in_loop == old(self).in_loop,
                    all == check_elifs_spec(syms, in_loop, elif_branches@, 0),
                    self.symbol_table == old(self).symbol_table,
                    self.in_loop == old(self).in_loop,
                    self.diags() == d0 + d_acc,
                    self.occs() == o0 + o_acc,
                    all.diags == d_acc + check_elifs_spec(syms, in_loop, elif_branches@, i as int).diags,
                    all.occs == o_acc + check_elifs_spec(syms, in_loop, elif_branches@, i as int).occs,
                decreases elif_branches@.len() - i,
            {
                let ghost c = expect_spec(syms, elif_branches@[i as int].0, Type::Boolean);
                let ghost b = check_stmt_spec(syms, in_loop, elif_branches@[i as int].1);
                let ghost rest = check_elifs_spec(syms, in_loop, elif_branches@, i + 1);
                let (cond, body) = &elif_branches[i];
                self.expect_type(cond, Type::Boolean);
                self.check_statement(body);
                proof {
                    assert(d_acc + (c.diags + b.diags + rest.diags) =~= (d_acc + c.diags + b.diags) + rest.diags);
                    assert(o_acc + (c.occs + b.occs + rest.occs) =~= (o_acc + c.occs + b.occs) + rest.occs);
                    assert(self.diags() =~= d0 + (d_acc + c.diags + b.diags));
                    assert(self.occs() =~= o0 + (o_acc + c.occs + b.occs));
                    d_acc = d_acc + c.diags + b.diags;
                    o_acc = o_acc + c.occs + b.occs;
                }
                i = i + 1;
            }
            assert(d_acc =~= all.diags);
            assert(o_acc =~= all.occs);
            match else_branch {
                Some(b) => {
                    self.check_statement(b);
                },
                None => {},
            }
            assert(self.diags() =~= old(self).diags() + check_stmt_spec(old(self).symbols(), old(self).in_loop, *stmt).diags);
            assert(self.occs() =~= old(self).occs() + check_stmt_spec(old(self).symbols(), old(self).in_loop, *stmt).occs);
        }
    }

    fn check_for(&mut self, stmt: &Statement)
        requires
            stmt.kind is For,
        ensures
            final(self).adds(old(self), check_stmt_spec(old(self).symbols(), old(self).in_loop, *stmt)),
        decreases stmt, 0nat,
    {
        if let StmtKind::For { iterator, from, to, body } = &stmt.kind {
            self.note(iterator, &stmt.span);
            if let Some(var_type) = self.lookup(iterator) {
                if var_type != Type::Integer {
                    let mut m = String::from_str("Zmienna iterująca '");
                    m.append(iterator.as_str());
                    m.append("' w pętli for musi być typu Integer");
                    self.report(m, &stmt.span, Some(iterator));
                }
            } else {
                let mut m = String::from_str("Niezadeklarowana zmienna iterująca w pętli: ");
                m.append(iterator.as_str());
                self.report(m, &stmt.span, Some(iterator));
            }
            self.expect_type(from, Type::Integer);
            self.expect_type(to, Type::Integer);
            let saved = self.in_loop;
            self.in_loop = true;
            self.check_statement(body);
            self.in_loop = saved;
            assert(self.diags() =~= old(self).diags() + check_stmt_spec(old(self).symbols(), old(self).in_loop, *stmt).diags);
            assert(self.occs() =~= old(self).occs() + check_stmt_spec(old(self).symbols(), old(self).in_loop, *stmt).occs);
        }
    }
}

} // verus!
