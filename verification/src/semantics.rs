//! The meaning of a program: how expressions evaluate and statements execute,
//! written as spec functions over a machine state. The interpreter is proved
//! to compute exactly these.
use crate::ast::{Expr, ExprKind, Program, Statement, StmtKind, Type};
use crate::interp::RuntimeError;
use crate::text::{int_text, literal_ok, parse_i32, trim, unescape};
use vstd::prelude::*;

verus! {

/// A value of the language.
pub enum SpecValue {
    Int(i32),
    Str(Seq<char>),
    Bool(bool),
}

/// How a statement hands control back.
#[derive(Debug, Clone, Copy, PartialEq, Eq, Structural)]
pub enum Flow {
    Normal,
    Break,
    Continue,
    Exit,
}

/// What stays fixed while a program runs: the declared names and types,
/// and the whole input.
pub struct Ctx {
    pub names: Seq<Seq<char>>,
    pub types: Seq<Type>,
    pub input: Seq<char>,
}

/// What changes while a program runs: the variables, how much input has
/// been read, what has been printed, and whether a read found the input
/// used up.
pub struct State {
    pub env: Seq<SpecValue>,
    pub pos: int,
    pub out: Seq<char>,
    pub starved: bool,
}

/// The first index at or after `i` that holds `name`, or -1.
pub open spec fn find_slot(names: Seq<Seq<char>>, name: Seq<char>, i: int) -> int
    decreases names.len() - i,
{
    if i < 0 || i >= names.len() {
        -1
    } else if names[i] == name {
        i
    } else {
        find_slot(names, name, i + 1)
    }
}

/// The slot of the first declaration of `name`, or -1 when there is none.
pub open spec fn slot_of(names: Seq<Seq<char>>, name: Seq<char>) -> int {
    find_slot(names, name, 0)
}

/// The value a variable of type `t` starts with.
pub open spec fn default_value(t: Type) -> SpecValue {
    match t {
        Type::Integer => SpecValue::Int(0),
        Type::String => SpecValue::Str(Seq::empty()),
        Type::Boolean => SpecValue::Bool(false),
    }
}

/// One past the end of the line that starts at `pos`: after its `\n`, or
/// at the end of the input.
pub open spec fn line_end(input: Seq<char>, pos: int) -> int
    decreases input.len() - pos,
{
    if pos < 0 || pos >= input.len() {
        input.len() as int
    } else if input[pos] == '\n' {
        pos + 1
    } else {
        line_end(input, pos + 1)
    }
}

/// What `read_line` reads at `pos`: the line with its `\n`, empty at the end of the input.
pub open spec fn read_line(input: Seq<char>, pos: int) -> Seq<char> {
    input.subrange(pos, line_end(input, pos))
}

/// `readint`: the trimmed line as an `i32`, or 0 at the end of the input or when it is no number.
pub open spec fn read_int_value(line: Seq<char>) -> i32 {
    if line.len() == 0 {
        0
    } else {
        match parse_i32(trim(line)) {
            Some(n) => n,
            None => 0,
        }
    }
}

/// `line` without one trailing `\n`, then without one trailing `\r`.
pub open spec fn strip_newline(line: Seq<char>) -> Seq<char> {
    let a = if line.len() > 0 && line.last() == '\n' {
        line.drop_last()
    } else {
        line
    };
    if a.len() > 0 && a.last() == '\r' {
        a.drop_last()
    } else {
        a
    }
}

/// `readbool`: whether the trimmed line is `true`.
pub open spec fn read_bool_value(line: Seq<char>) -> bool {
    line.len() > 0 && trim(line) == seq!['t', 'r', 'u', 'e']
}

/// Rust's `/` on integers, rounding toward zero.
pub open spec fn trunc_div(x: int, d: int) -> int {
    if x == 0 {
        0
    } else if x > 0 && d > 0 {
        x / d
    } else if x < 0 && d < 0 {
        (-x) / (-d)
    } else if x < 0 {
        -((-x) / d)
    } else {
        -(x / (-d))
    }
}

/// Rust's `%` on integers, taking the sign of the dividend.
pub open spec fn trunc_rem(x: int, d: int) -> int {
    if x == 0 {
        0
    } else if x > 0 && d > 0 {
        x % d
    } else if x < 0 && d < 0 {
        -((-x) % (-d))
    } else if x < 0 {
        -((-x) % d)
    } else {
        x % (-d)
    }
}

/// `i32::wrapping_div`: the quotient, and `i32::MIN` where it does not fit.
pub open spec fn div_wrapping(x: i32, y: i32) -> i32 {
    let q = trunc_div(x as int, y as int);
    if q < i32::MIN || q > i32::MAX {
        i32::MIN
    } else {
        q as i32
    }
}

/// `i32::wrapping_rem`: the remainder, and 0 for `i32::MIN % -1`.
pub open spec fn rem_wrapping(x: i32, y: i32) -> i32 {
    let r = trunc_rem(x as int, y as int);
    if (x == i32::MIN && y == -1) || r < i32::MIN || r > i32::MAX {
        0
    } else {
        r as i32
    }
}

pub open spec fn add_wrapping(x: i32, y: i32) -> i32 {
    vstd::wrapping::i32_specs::wrapping_add(x, y)
}

pub open spec fn sub_wrapping(x: i32, y: i32) -> i32 {
    vstd::wrapping::i32_specs::wrapping_sub(x, y)
}

pub open spec fn mul_wrapping(x: i32, y: i32) -> i32 {
    vstd::wrapping::i32_specs::wrapping_mul(x, y)
}

/// `substring(s, pos, len)`: up to `len` characters from the 1-based
/// position `pos`; empty when `pos < 1`, `len <= 0` or `pos` is past the end.
pub open spec fn substring_spec(s: Seq<char>, pos: i32, len: i32) -> Seq<char> {
    let start = pos - 1;
    let stop = if start + len < s.len() {
        start + len
    } else {
        s.len() as int
    };
    if pos < 1 || len <= 0 || start >= s.len() {
        Seq::empty()
    } else {
        s.subrange(start, stop)
    }
}

/// Whether `needle` occurs in `hay` at index `i`.
pub open spec fn occurs_at(hay: Seq<char>, needle: Seq<char>, i: int) -> bool {
    0 <= i && i + needle.len() <= hay.len() && hay.subrange(i, i + needle.len()) == needle
}

/// The first index at or after `i` where `needle` occurs in `hay`, or -1.
pub open spec fn find_from(hay: Seq<char>, needle: Seq<char>, i: int) -> int
    decreases hay.len() + 1 - i,
{
    if i < 0 || i + needle.len() > hay.len() {
        -1
    } else if occurs_at(hay, needle, i) {
        i
    } else {
        find_from(hay, needle, i + 1)
    }
}

/// `position(hay, needle)`: the 1-based position of the first occurrence, or 0.
pub open spec fn position_spec(hay: Seq<char>, needle: Seq<char>) -> i32 {
    let i = find_from(hay, needle, 0);
    if i < 0 {
        0
    } else {
        (i + 1) as i32
    }
}

/// `=` and `==`: equal values of one type.
pub open spec fn values_equal(l: SpecValue, r: SpecValue) -> bool {
    match (l, r) {
        (SpecValue::Int(a), SpecValue::Int(b)) => a == b,
        (SpecValue::Str(a), SpecValue::Str(b)) => a == b,
        (SpecValue::Bool(a), SpecValue::Bool(b)) => a == b,
        _ => false,
    }
}

/// How `print` writes a value.
pub open spec fn value_text(v: SpecValue) -> Seq<char> {
    match v {
        SpecValue::Int(n) => int_text(n as int),
        SpecValue::Str(s) => s,
        SpecValue::Bool(b) => if b {
            seq!['t', 'r', 'u', 'e']
        } else {
            seq!['f', 'a', 'l', 's', 'e']
        },
    }
}

/// The state after reading `line` at the input position; a read with no
/// input left marks the state as starved.
pub open spec fn after_read(ctx: Ctx, st: State, line: Seq<char>) -> State {
    State { pos: st.pos + line.len(), starved: st.starved || st.pos >= ctx.input.len(), ..st }
}

/// The integer in an evaluation's result, else a type mismatch.
pub open spec fn as_int(r: (Result<SpecValue, RuntimeError>, State)) -> (Result<i32, RuntimeError>, State) {
    match r.0 {
        Ok(SpecValue::Int(n)) => (Ok(n), r.1),
        Ok(_) => (Err(RuntimeError::TypeMismatch), r.1),
        Err(e) => (Err(e), r.1),
    }
}

/// The boolean in an evaluation's result, else a type mismatch.
pub open spec fn as_bool(r: (Result<SpecValue, RuntimeError>, State)) -> (Result<bool, RuntimeError>, State) {
    match r.0 {
        Ok(SpecValue::Bool(b)) => (Ok(b), r.1),
        Ok(_) => (Err(RuntimeError::TypeMismatch), r.1),
        Err(e) => (Err(e), r.1),
    }
}

/// The string in an evaluation's result, else a type mismatch.
pub open spec fn as_str(r: (Result<SpecValue, RuntimeError>, State)) -> (Result<Seq<char>, RuntimeError>, State) {
    match r.0 {
        Ok(SpecValue::Str(s)) => (Ok(s), r.1),
        Ok(_) => (Err(RuntimeError::TypeMismatch), r.1),
        Err(e) => (Err(e), r.1),
    }
}

/// Two evaluations in a row: the first error, else `f` of both results.
pub open spec fn both<A, B>(
    ra: (Result<A, RuntimeError>, State),
    rb: (Result<B, RuntimeError>, State),
    f: spec_fn(A, B) -> SpecValue,
) -> (Result<SpecValue, RuntimeError>, State) {
    match ra.0 {
        Err(e) => (Err(e), ra.1),
        Ok(a) => match rb.0 {
            Err(e) => (Err(e), rb.1),
            Ok(b) => (Ok(f(a, b)), rb.1),
        },
    }
}

/// Evaluates `e` in `st`. Only the input position changes; operands are
/// evaluated left to right, except that `/` and `%` evaluate the divisor
/// first and stop there when it is zero; `and` and `or` stop early.
pub open spec fn eval(ctx: Ctx, st: State, e: Expr) -> (Result<SpecValue, RuntimeError>, State)
    decreases e,
{
    match e.kind {
        ExprKind::Number(n) => (Ok(SpecValue::Int(n)), st),
        ExprKind::StringLit(s) => (Ok(SpecValue::Str(unescape(s@))), st),
        ExprKind::Identifier(id) => (Ok(st.env[slot_of(ctx.names, id@)]), st),
        ExprKind::True => (Ok(SpecValue::Bool(true)), st),
        ExprKind::False => (Ok(SpecValue::Bool(false)), st),
        ExprKind::ReadInt => {
            let line = read_line(ctx.input, st.pos);
            (Ok(SpecValue::Int(read_int_value(line))), after_read(ctx, st, line))
        },
        ExprKind::ReadStr => {
            let line = read_line(ctx.input, st.pos);
            (Ok(SpecValue::Str(strip_newline(line))), after_read(ctx, st, line))
        },
        ExprKind::ReadBool => {
            let line = read_line(ctx.input, st.pos);
            (Ok(SpecValue::Bool(read_bool_value(line))), after_read(ctx, st, line))
        },
        ExprKind::Add(a, b) => {
            let ra = as_int(eval(ctx, st, *a));
            let rb = as_int(eval(ctx, ra.1, *b));
            both(ra, rb, |x: i32, y: i32| SpecValue::Int(add_wrapping(x, y)))
        },
        ExprKind::Sub(a, b) => {
            let ra = as_int(eval(ctx, st, *a));
            let rb = as_int(eval(ctx, ra.1, *b));
            both(ra, rb, |x: i32, y: i32| SpecValue::Int(sub_wrapping(x, y)))
        },
        ExprKind::Mul(a, b) => {
            let ra = as_int(eval(ctx, st, *a));
            let rb = as_int(eval(ctx, ra.1, *b));
            both(ra, rb, |x: i32, y: i32| SpecValue::Int(mul_wrapping(x, y)))
        },
        ExprKind::Div(a, b) => {
            let rb = as_int(eval(ctx, st, *b));
            let ra = as_int(eval(ctx, rb.1, *a));
            match rb.0 {
                Err(err) => (Err(err), rb.1),
                Ok(0i32) => (Err(RuntimeError::DivisionByZero), rb.1),
                Ok(d) => match ra.0 {
                    Err(err) => (Err(err), ra.1),
                    Ok(x) => (Ok(SpecValue::Int(div_wrapping(x, d))), ra.1),
                },
            }
        },
        ExprKind::Mod(a, b) => {
            let rb = as_int(eval(ctx, st, *b));
            let ra = as_int(eval(ctx, rb.1, *a));
            match rb.0 {
                Err(err) => (Err(err), rb.1),
                Ok(0i32) => (Err(RuntimeError::DivisionByZero), rb.1),
                Ok(d) => match ra.0 {
                    Err(err) => (Err(err), ra.1),
                    Ok(x) => (Ok(SpecValue::Int(rem_wrapping(x, d))), ra.1),
                },
            }
        },
        ExprKind::Concatenate(a, b) => {
            let ra = as_str(eval(ctx, st, *a));
            let rb = as_str(eval(ctx, ra.1, *b));
            both(ra, rb, |x: Seq<char>, y: Seq<char>| SpecValue::Str(x + y))
        },
        ExprKind::Substring(s, p, l) => {
            let rs = as_str(eval(ctx, st, *s));
            let rp = as_int(eval(ctx, rs.1, *p));
            let rl = as_int(eval(ctx, rp.1, *l));
            match rs.0 {
                Err(err) => (Err(err), rs.1),
                Ok(sv) => both(rp, rl, |pv: i32, lv: i32| SpecValue::Str(substring_spec(sv, pv, lv))),
            }
        },
        ExprKind::Length(s) => {
            let rs = as_str(eval(ctx, st, *s));
            match rs.0 {
                Err(err) => (Err(err), rs.1),
                Ok(sv) => (Ok(SpecValue::Int(sv.len() as i32)), rs.1),
            }
        },
        ExprKind::Position(h, n) => {
            let rh = as_str(eval(ctx, st, *h));
            let rn = as_str(eval(ctx, rh.1, *n));
            both(rh, rn, |x: Seq<char>, y: Seq<char>| SpecValue::Int(position_spec(x, y)))
        },
        ExprKind::Not(a) => {
            let ra = as_bool(eval(ctx, st, *a));
            match ra.0 {
                Err(err) => (Err(err), ra.1),
                Ok(x) => (Ok(SpecValue::Bool(!x)), ra.1),
            }
        },
        ExprKind::And(a, b) => {
            let ra = as_bool(eval(ctx, st, *a));
            let rb = as_bool(eval(ctx, ra.1, *b));
            match ra.0 {
                Err(err) => (Err(err), ra.1),
                Ok(false) => (Ok(SpecValue::Bool(false)), ra.1),
                Ok(true) => match rb.0 {
                    Err(err) => (Err(err), rb.1),
                    Ok(y) => (Ok(SpecValue::Bool(y)), rb.1),
                },
            }
        },
        ExprKind::Or(a, b) => {
            let ra = as_bool(eval(ctx, st, *a));
            let rb = as_bool(eval(ctx, ra.1, *b));
            match ra.0 {
                Err(err) => (Err(err), ra.1),
                Ok(true) => (Ok(SpecValue::Bool(true)), ra.1),
                Ok(false) => match rb.0 {
                    Err(err) => (Err(err), rb.1),
                    Ok(y) => (Ok(SpecValue::Bool(y)), rb.1),
                },
            }
        },
        ExprKind::Eq(a, b) => {
            let ra = eval(ctx, st, *a);
            let rb = eval(ctx, ra.1, *b);
            both(ra, rb, |x: SpecValue, y: SpecValue| SpecValue::Bool(values_equal(x, y)))
        },
        ExprKind::Neq(a, b) => {
            let ra = eval(ctx, st, *a);
            let rb = eval(ctx, ra.1, *b);
            both(ra, rb, |x: SpecValue, y: SpecValue| SpecValue::Bool(!values_equal(x, y)))
        },
        ExprKind::Less(a, b) => {
            let ra = as_int(eval(ctx, st, *a));
            let rb = as_int(eval(ctx, ra.1, *b));
            both(ra, rb, |x: i32, y: i32| SpecValue::Bool(x < y))
        },
        ExprKind::LessEq(a, b) => {
            let ra = as_int(eval(ctx, st, *a));
            let rb = as_int(eval(ctx, ra.1, *b));
            both(ra, rb, |x: i32, y: i32| SpecValue::Bool(x <= y))
        },
        ExprKind::Greater(a, b) => {
            let ra = as_int(eval(ctx, st, *a));
            let rb = as_int(eval(ctx, ra.1, *b));
            both(ra, rb, |x: i32, y: i32| SpecValue::Bool(x > y))
        },
        ExprKind::GreaterEq(a, b) => {
            let ra = as_int(eval(ctx, st, *a));
            let rb = as_int(eval(ctx, ra.1, *b));
            both(ra, rb, |x: i32, y: i32| SpecValue::Bool(x >= y))
        },
    }
}

/// Stores `v` in slot `i`.
pub open spec fn assign(st: State, i: int, v: SpecValue) -> State {
    State { env: st.env.update(i, v), ..st }
}

/// Executes `s` in `st`.
pub open spec fn exec(ctx: Ctx, st: State, s: Statement) -> (Result<Flow, RuntimeError>, State)
    decreases s, 0int,
{
    match s.kind {
        StmtKind::Assign(id, e) => {
            let i = slot_of(ctx.names, id@);
            match ctx.types[i] {
                Type::Integer => {
                    let r = as_int(eval(ctx, st, *e));
                    match r.0 {
                        Err(err) => (Err(err), r.1),
                        Ok(n) => (Ok(Flow::Normal), assign(r.1, i, SpecValue::Int(n))),
                    }
                },
                Type::String => {
                    let r = as_str(eval(ctx, st, *e));
                    match r.0 {
                        Err(err) => (Err(err), r.1),
                        Ok(t) => (Ok(Flow::Normal), assign(r.1, i, SpecValue::Str(t))),
                    }
                },
                Type::Boolean => {
                    let r = as_bool(eval(ctx, st, *e));
                    match r.0 {
                        Err(err) => (Err(err), r.1),
                        Ok(b) => (Ok(Flow::Normal), assign(r.1, i, SpecValue::Bool(b))),
                    }
                },
            }
        },
        StmtKind::If { condition, then_branch, elif_branches, else_branch } => {
            let rc = as_bool(eval(ctx, st, *condition));
            match rc.0 {
                Err(err) => (Err(err), rc.1),
                Ok(true) => exec(ctx, rc.1, *then_branch),
                Ok(false) => {
                    let re = exec_elifs(ctx, rc.1, elif_branches@, 0);
                    match re.0 {
                        Err(err) => (Err(err), re.1),
                        Ok(Some(flow)) => (Ok(flow), re.1),
                        Ok(None) => match else_branch {
                            Some(b) => exec(ctx, re.1, *b),
                            None => (Ok(Flow::Normal), re.1),
                        },
                    }
                },
            }
        },
        StmtKind::For { iterator, from, to, body } => {
            let rf = as_int(eval(ctx, st, *from));
            let rt = as_int(eval(ctx, rf.1, *to));
            match rf.0 {
                Err(err) => (Err(err), rf.1),
                Ok(lo) => match rt.0 {
                    Err(err) => (Err(err), rt.1),
                    Ok(hi) => for_loop(ctx, rt.1, slot_of(ctx.names, iterator@), lo, hi, *body),
                },
            }
        },
        StmtKind::Block(stmts) => exec_block(ctx, st, stmts@, 0),
        StmtKind::Print(e) => {
            let r = eval(ctx, st, *e);
            match r.0 {
                Err(err) => (Err(err), r.1),
                Ok(v) => (Ok(Flow::Normal), State { out: r.1.out + value_text(v), ..r.1 }),
            }
        },
        StmtKind::Break => (Ok(Flow::Break), st),
        StmtKind::Continue => (Ok(Flow::Continue), st),
        StmtKind::Exit => (Ok(Flow::Exit), st),
    }
}

/// Tries the `elif` branches from index `i` on: the first whose condition
/// holds runs (`Some` of its flow); `None` when none holds.
pub open spec fn exec_elifs(ctx: Ctx, st: State, branches: Seq<(Expr, Statement)>, i: int) -> (
    Result<Option<Flow>, RuntimeError>,
    State,
)
    decreases branches, branches.len() - i,
{
    if i < 0 || i >= branches.len() {
        (Ok(None), st)
    } else {
        let rc = as_bool(eval(ctx, st, branches[i].0));
        match rc.0 {
            Err(err) => (Err(err), rc.1),
            Ok(true) => {
                let r = exec(ctx, rc.1, branches[i].1);
                match r.0 {
                    Err(err) => (Err(err), r.1),
                    Ok(flow) => (Ok(Some(flow)), r.1),
                }
            },
            Ok(false) => exec_elifs(ctx, rc.1, branches, i + 1),
        }
    }
}

/// The statements of a block from index `i` on, until one does not end normally.
pub open spec fn exec_block(ctx: Ctx, st: State, stmts: Seq<Statement>, i: int) -> (
    Result<Flow, RuntimeError>,
    State,
)
    decreases stmts, stmts.len() - i,
{
    if i < 0 || i >= stmts.len() {
        (Ok(Flow::Normal), st)
    } else {
        let r = exec(ctx, st, stmts[i]);
        match r.0 {
            Ok(Flow::Normal) => exec_block(ctx, r.1, stmts, i + 1),
            _ => r,
        }
    }
}

/// A `for` loop from counter value `cur` up to `hi` inclusive. Each round
/// stores the counter in slot `i` before the body runs; when the loop ends
/// without `exit` or an error, the slot holds the counter's last value: one
/// past `hi`, the value at `break`, or `i32::MAX` where the counter cannot grow.
pub open spec fn for_loop(ctx: Ctx, st: State, i: int, cur: i32, hi: i32, body: Statement) -> (
    Result<Flow, RuntimeError>,
    State,
)
    decreases body, hi - cur + 1,
{
    if cur > hi {
        (Ok(Flow::Normal), assign(st, i, SpecValue::Int(cur)))
    } else {
        let r = exec(ctx, assign(st, i, SpecValue::Int(cur)), body);
        match r.0 {
            Err(err) => (Err(err), r.1),
            Ok(Flow::Exit) => (Ok(Flow::Exit), r.1),
            Ok(Flow::Break) => (Ok(Flow::Normal), assign(r.1, i, SpecValue::Int(cur))),
            Ok(_) => if cur == i32::MAX {
                (Ok(Flow::Normal), assign(r.1, i, SpecValue::Int(cur)))
            } else {
                for_loop(ctx, r.1, i, (cur + 1) as i32, hi, body)
            },
        }
    }
}

/// The state after `n` rounds of a `for` loop whose counter, held in slot
/// `i`, starts at `cur`: each round stores the counter and runs the body.
pub open spec fn rounds(ctx: Ctx, st: State, i: int, cur: int, n: nat, body: Statement) -> State
    decreases n,
{
    if n == 0 {
        st
    } else {
        let st1 = assign(st, i, SpecValue::Int(cur as i32));
        rounds(ctx, exec(ctx, st1, body).1, i, cur + 1, (n - 1) as nat, body)
    }
}

/// The state in which round `k` of a `for` loop starts its body: the
/// state after the `k` rounds before it, with the counter set to `cur + k`.
pub open spec fn round_start(ctx: Ctx, st: State, i: int, cur: int, k: nat, body: Statement) -> State {
    assign(rounds(ctx, st, i, cur, k, body), i, SpecValue::Int((cur + k) as i32))
}

/// A `for` loop from `cur` to `hi`, below `i32::MAX`, whose body ends
/// normally or with `continue` in each round it runs, runs the body once
/// for each counter value from `cur` to `hi` in turn (not at all when
/// `cur > hi`) and ends normally, with the counter one past `hi`, or at
/// `cur` when the body never ran.
pub proof fn for_loop_rounds(ctx: Ctx, st: State, i: int, cur: i32, hi: i32, body: Statement)
    requires
        hi < i32::MAX,
        forall|k: nat|
            cur + k <= hi ==> #[trigger] exec(ctx, round_start(ctx, st, i, cur as int, k, body), body).0
                == Ok::<Flow, RuntimeError>(Flow::Normal) || exec(
                ctx,
                round_start(ctx, st, i, cur as int, k, body),
                body,
            ).0 == Ok::<Flow, RuntimeError>(Flow::Continue),
    ensures
        for_loop(ctx, st, i, cur, hi, body) == (
            Ok::<Flow, RuntimeError>(Flow::Normal),
            assign(
                rounds(
                    ctx,
                    st,
                    i,
                    cur as int,
                    if cur <= hi {
                        (hi - cur + 1) as nat
                    } else {
                        0
                    },
                    body,
                ),
                i,
                SpecValue::Int(
                    if cur <= hi {
                        (hi + 1) as i32
                    } else {
                        cur
                    },
                ),
            ),
        ),
    decreases hi - cur + 1,
{
    if cur <= hi {
        let st1 = assign(st, i, SpecValue::Int(cur));
        let r = exec(ctx, st1, body);
        assert(rounds(ctx, st, i, cur as int, 0, body) == st);
        assert(round_start(ctx, st, i, cur as int, 0, body) == st1);
        assert(exec(ctx, round_start(ctx, st, i, cur as int, 0, body), body).0 == r.0);
        assert(r.0 == Ok::<Flow, RuntimeError>(Flow::Normal) || r.0 == Ok::<Flow, RuntimeError>(
            Flow::Continue,
        ));
        let next = (cur + 1) as i32;
        assert forall|k: nat|
            next + k <= hi implies #[trigger] exec(
                ctx,
                round_start(ctx, r.1, i, next as int, k, body),
                body,
            ).0 == Ok::<Flow, RuntimeError>(Flow::Normal) || exec(
                ctx,
                round_start(ctx, r.1, i, next as int, k, body),
                body,
            ).0 == Ok::<Flow, RuntimeError>(Flow::Continue) by {
            let k1: nat = k + 1;
            assert(rounds(ctx, st, i, cur as int, k1, body) == rounds(
                ctx,
                r.1,
                i,
                cur + 1,
                k,
                body,
            ));
            assert(round_start(ctx, st, i, cur as int, k1, body) == round_start(
                ctx,
                r.1,
                i,
                next as int,
                k,
                body,
            ));
            assert(cur + k1 <= hi);
            assert(exec(ctx, round_start(ctx, st, i, cur as int, k1, body), body).0 == Ok::<
                Flow,
                RuntimeError,
            >(Flow::Normal) || exec(ctx, round_start(ctx, st, i, cur as int, k1, body), body).0
                == Ok::<Flow, RuntimeError>(Flow::Continue));
        }
        for_loop_rounds(ctx, r.1, i, next, hi, body);
        assert(rounds(ctx, st, i, cur as int, (hi - cur + 1) as nat, body) == rounds(
            ctx,
            r.1,
            i,
            cur + 1,
            (hi - cur) as nat,
            body,
        ));
        if cur + 1 > hi {
            assert(rounds(ctx, r.1, i, cur + 1, 0, body) == r.1);
        }
    }
}

/// The program's instructions from index `i` on: `exit` ends the run, an
/// error stops it, `break` and `continue` outside a loop do nothing.
pub open spec fn run_from(ctx: Ctx, st: State, stmts: Seq<Statement>, i: int) -> (
    Result<(), RuntimeError>,
    State,
)
    decreases stmts.len() - i,
{
    if i < 0 || i >= stmts.len() {
        (Ok(()), st)
    } else {
        let r = exec(ctx, st, stmts[i]);
        match r.0 {
            Err(err) => (Err(err), r.1),
            Ok(Flow::Exit) => (Ok(()), r.1),
            Ok(_) => run_from(ctx, r.1, stmts, i + 1),
        }
    }
}

/// The declared names, in order.
pub open spec fn decl_names(p: Program) -> Seq<Seq<char>> {
    Seq::new(p.declarations@.len(), |i: int| p.declarations@[i].identifier@)
}

/// The declared types, in order.
pub open spec fn decl_types(p: Program) -> Seq<Type> {
    Seq::new(p.declarations@.len(), |i: int| p.declarations@[i].var_type)
}

/// The context in which `p` runs on `input`.
pub open spec fn initial_ctx(p: Program, input: Seq<char>) -> Ctx {
    Ctx { names: decl_names(p), types: decl_types(p), input }
}

/// Every variable starts with its type's default; nothing is read or printed.
pub open spec fn initial_state(p: Program) -> State {
    State {
        env: Seq::new(p.declarations@.len(), |i: int| default_value(p.declarations@[i].var_type)),
        pos: 0,
        out: Seq::empty(),
        starved: false,
    }
}

/// What running `p` on `input` does, from its start.
pub open spec fn run_program(p: Program, input: Seq<char>) -> (Result<(), RuntimeError>, State) {
    run_from(initial_ctx(p, input), initial_state(p), p.instructions@, 0)
}

// ---------------------------------------------------------------------------
// Programs that the interpreter can run without failing on a name or a literal.
/// Every name in `e` is declared, and every string literal keeps its quotes.
pub open spec fn expr_ok(names: Seq<Seq<char>>, e: Expr) -> bool
    decreases e,
{
    match e.kind {
        ExprKind::StringLit(s) => literal_ok(s@),
        ExprKind::Identifier(id) => slot_of(names, id@) >= 0,
        ExprKind::Add(a, b) | ExprKind::Sub(a, b) | ExprKind::Mul(a, b) | ExprKind::Div(a, b)
        | ExprKind::Mod(a, b) | ExprKind::Concatenate(a, b) | ExprKind::Position(a, b)
        | ExprKind::And(a, b) | ExprKind::Or(a, b) | ExprKind::Eq(a, b) | ExprKind::Neq(a, b)
        | ExprKind::Less(a, b) | ExprKind::LessEq(a, b) | ExprKind::Greater(a, b)
        | ExprKind::GreaterEq(a, b) => expr_ok(names, *a) && expr_ok(names, *b),
        ExprKind::Substring(a, b, c) => expr_ok(names, *a) && expr_ok(names, *b) && expr_ok(
            names,
            *c,
        ),
        ExprKind::Length(a) | ExprKind::Not(a) => expr_ok(names, *a),
        _ => true,
    }
}

/// Every name in `s` is declared, and every string literal keeps its quotes.
pub open spec fn stmt_ok(names: Seq<Seq<char>>, s: Statement) -> bool
    decreases s, 0int,
{
    match s.kind {
        StmtKind::Assign(id, e) => slot_of(names, id@) >= 0 && expr_ok(names, *e),
        StmtKind::If { condition, then_branch, elif_branches, else_branch } => {
            &&& expr_ok(names, *condition)
            &&& stmt_ok(names, *then_branch)
            &&& elifs_ok(names, elif_branches@, 0)
            &&& match else_branch {
                Some(b) => stmt_ok(names, *b),
                None => true,
            }
        },
        StmtKind::For { iterator, from, to, body } => {
            &&& slot_of(names, iterator@) >= 0
            &&& expr_ok(names, *from)
            &&& expr_ok(names, *to)
            &&& stmt_ok(names, *body)
        },
        StmtKind::Block(stmts) => stmts_ok(names, stmts@, 0),
        StmtKind::Print(e) => expr_ok(names, *e),
        _ => true,
    }
}

pub open spec fn elifs_ok(names: Seq<Seq<char>>, branches: Seq<(Expr, Statement)>, i: int) -> bool
    decreases branches, branches.len() - i,
{
    if i < 0 || i >= branches.len() {
        true
    } else {
        expr_ok(names, branches[i].0) && stmt_ok(names, branches[i].1) && elifs_ok(
            names,
            branches,
            i + 1,
        )
    }
}

pub open spec fn stmts_ok(names: Seq<Seq<char>>, stmts: Seq<Statement>, i: int) -> bool
    decreases stmts, stmts.len() - i,
{
    if i < 0 || i >= stmts.len() {
        true
    } else {
        stmt_ok(names, stmts[i]) && stmts_ok(names, stmts, i + 1)
    }
}

/// Every name that `p`'s instructions use is declared, and every string literal keeps its quotes.
pub open spec fn program_ok(p: Program) -> bool {
    stmts_ok(decl_names(p), p.instructions@, 0)
}


/// Every string literal in `e` keeps its quotes.
pub open spec fn expr_lits_ok(e: Expr) -> bool
    decreases e,
{
    match e.kind {
        ExprKind::StringLit(s) => literal_ok(s@),
        ExprKind::Add(a, b) | ExprKind::Sub(a, b) | ExprKind::Mul(a, b) | ExprKind::Div(a, b)
        | ExprKind::Mod(a, b) | ExprKind::Concatenate(a, b) | ExprKind::Position(a, b)
        | ExprKind::And(a, b) | ExprKind::Or(a, b) | ExprKind::Eq(a, b) | ExprKind::Neq(a, b)
        | ExprKind::Less(a, b) | ExprKind::LessEq(a, b) | ExprKind::Greater(a, b)
        | ExprKind::GreaterEq(a, b) => expr_lits_ok(*a) && expr_lits_ok(*b),
        ExprKind::Substring(a, b, c) => expr_lits_ok(*a) && expr_lits_ok(*b) && expr_lits_ok(*c),
        ExprKind::Length(a) | ExprKind::Not(a) => expr_lits_ok(*a),
        _ => true,
    }
}

/// Every string literal in `s` keeps its quotes.
pub open spec fn stmt_lits_ok(s: Statement) -> bool
    decreases s, 0int,
{
    match s.kind {
        StmtKind::Assign(_, e) => expr_lits_ok(*e),
        StmtKind::If { condition, then_branch, elif_branches, else_branch } => {
            &&& expr_lits_ok(*condition)
            &&& stmt_lits_ok(*then_branch)
            &&& elifs_lits_ok(elif_branches@, 0)
            &&& match else_branch {
                Some(b) => stmt_lits_ok(*b),
                None => true,
            }
        },
        StmtKind::For { iterator, from, to, body } => {
            &&& expr_lits_ok(*from)
            &&& expr_lits_ok(*to)
            &&& stmt_lits_ok(*body)
        },
        StmtKind::Block(stmts) => stmts_lits_ok(stmts@, 0),
        StmtKind::Print(e) => expr_lits_ok(*e),
        _ => true,
    }
}

pub open spec fn elifs_lits_ok(branches: Seq<(Expr, Statement)>, i: int) -> bool
    decreases branches, branches.len() - i,
{
    if i < 0 || i >= branches.len() {
        true
    } else {
        expr_lits_ok(branches[i].0) && stmt_lits_ok(branches[i].1) && elifs_lits_ok(branches, i + 1)
    }
}

pub open spec fn stmts_lits_ok(stmts: Seq<Statement>, i: int) -> bool
    decreases stmts, stmts.len() - i,
{
    if i < 0 || i >= stmts.len() {
        true
    } else {
        stmt_lits_ok(stmts[i]) && stmts_lits_ok(stmts, i + 1)
    }
}

} // verus!
