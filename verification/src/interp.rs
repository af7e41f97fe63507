//! The tree-walking interpreter.
use crate::ast::{Expr, ExprKind, Program, Statement, StmtKind, Type};
use crate::semantics::{
    as_bool, as_int, as_str, assign, default_value, div_wrapping, eval, exec, exec_block, exec_elifs,
    expr_ok, find_from, find_slot, for_loop, initial_ctx, initial_state, decl_names, decl_types,
    line_end, occurs_at, position_spec, read_bool_value, read_int_value, read_line, rem_wrapping,
    run_from, slot_of, stmt_ok, stmts_ok, elifs_ok, strip_newline, substring_spec, value_text,
    values_equal, Ctx, Flow, SpecValue, State,
};
use crate::text::{string_of, chars_of, parse_i32_range, push_all, push_int_text, trim_bounds, unescape_string};
use vstd::prelude::*;

verus! {

/// What a runtime failure is.
#[derive(Debug, Clone, Copy, PartialEq, Eq, Structural)]
pub enum RuntimeError {
    DivisionByZero,
    TypeMismatch,
}

/// A runtime value.
#[derive(Debug, Clone, PartialEq)]
pub enum Value {
    Integer(i32),
    Str(Vec<char>),
    Boolean(bool),
}

impl View for Value {
    type V = SpecValue;

    open spec fn view(&self) -> SpecValue {
        match self {
            Value::Integer(n) => SpecValue::Int(*n),
            Value::Str(s) => SpecValue::Str(s@),
            Value::Boolean(b) => SpecValue::Bool(*b),
        }
    }
}

impl Value {
    /// A copy of this value.
    pub fn duplicate(&self) -> (r: Value)
        ensures
            r@ == self@,
    {
        match self {
            Value::Integer(n) => Value::Integer(*n),
            Value::Str(s) => {
                let mut t: Vec<char> = Vec::new();
                push_all(&mut t, s);
                Value::Str(t)
            },
            Value::Boolean(b) => Value::Boolean(*b),
        }
    }
}

/// What the result of a string evaluation stands for.
pub open spec fn chars_result(r: Result<Vec<char>, RuntimeError>) -> Result<Seq<char>, RuntimeError> {
    match r {
        Ok(v) => Ok(v@),
        Err(e) => Err(e),
    }
}

/// What the result of an evaluation stands for.
pub open spec fn value_result(r: Result<Value, RuntimeError>) -> Result<SpecValue, RuntimeError> {
    match r {
        Ok(v) => Ok(v@),
        Err(e) => Err(e),
    }
}

impl RuntimeError {
    /// The message that describes this error.
    pub fn message(&self) -> (r: &'static str)
        ensures
            *self == RuntimeError::DivisionByZero ==> r@ == "dzielenie przez zero"@,
            *self == RuntimeError::TypeMismatch ==> r@ == "niezgodność typów"@,
    {
        match self {
            RuntimeError::DivisionByZero => "dzielenie przez zero",
            RuntimeError::TypeMismatch => "niezgodność typów",
        }
    }
}

/// Whether `l` and `r` are equal values of one type.
pub fn value_eq(l: &Value, r: &Value) -> (b: bool)
    ensures
        b == values_equal(l@, r@),
{
    match (l, r) {
        (Value::Integer(a), Value::Integer(b)) => *a == *b,
        (Value::Str(a), Value::Str(b)) => chars_eq(a, b),
        (Value::Boolean(a), Value::Boolean(b)) => *a == *b,
        _ => false,
    }
}

fn chars_eq(a: &Vec<char>, b: &Vec<char>) -> (r: bool)
    ensures
        r == (a@ == b@),
{
    if a.len() != b.len() {
        return false;
    }
    let mut i: usize = 0;
    while i < a.len()
        invariant
            a@.len() == b@.len(),
            i <= a@.len(),
            forall|j: int| 0 <= j < i ==> a@[j] == b@[j],
        decreases a@.len() - i,
    {
        if a[i] != b[i] {
            return false;
        }
        i = i + 1;
    }
    assert(a@ =~= b@);
    true
}

/// `substring(s, pos, len)`.
pub fn substring(s: &Vec<char>, pos: i32, len: i32) -> (r: Vec<char>)
    ensures
        r@ == substring_spec(s@, pos, len),
{
    let mut out: Vec<char> = Vec::new();
    if pos < 1 || len <= 0 {
        return out;
    }
    let start = (pos - 1) as usize;
    if start >= s.len() {
        return out;
    }
    let max_len = len as usize;
    let stop = if start + max_len < s.len() {
        start + max_len
    } else {
        s.len()
    };
    let mut i = start;
    while i < stop
        invariant
            start <= i <= stop <= s@.len(),
            out@ == s@.subrange(start as int, i as int),
        decreases stop - i,
    {
        out.push(s[i]);
        i = i + 1;
        assert(out@ =~= s@.subrange(start as int, i as int));
    }
    out
}

fn occurs_at_exec(hay: &Vec<char>, needle: &Vec<char>, i: usize) -> (r: bool)
    requires
        i + needle@.len() <= hay@.len(),
    ensures
        r == occurs_at(hay@, needle@, i as int),
{
    let hl = hay.len();
    let mut k: usize = 0;
    while k < needle.len()
        invariant
            i + needle@.len() <= hay@.len(),
            hay@.len() == hl,
            k <= needle@.len(),
            forall|j: int| 0 <= j < k ==> hay@[i + j] == needle@[j],
        decreases needle@.len() - k,
    {
        if hay[i + k] != needle[k] {
            assert(hay@.subrange(i as int, i + needle@.len())[k as int] != needle@[k as int]);
            return false;
        }
        k = k + 1;
    }
    assert(hay@.subrange(i as int, i + needle@.len()) =~= needle@);
    true
}

/// `position(hay, needle)`.
pub fn position(hay: &Vec<char>, needle: &Vec<char>) -> (r: i32)
    ensures
        r == position_spec(hay@, needle@),
{
    if needle.len() > hay.len() {
        return 0;
    }
    let last = hay.len() - needle.len();
    let mut i: usize = 0;
    loop
        invariant
            last == hay@.len() - needle@.len(),
            i <= last,
            find_from(hay@, needle@, 0) == find_from(hay@, needle@, i as int),
        decreases last - i,
    {
        if occurs_at_exec(hay, needle, i) {
            return #[verifier::truncate] ((i as u128 + 1) as i32);
        }
        if i == last {
            assert(find_from(hay@, needle@, i + 1) == -1);
            return 0;
        }
        i = i + 1;
    }
}

fn div_wrapping_exec(x: i32, y: i32) -> (r: i32)
    requires
        y != 0,
    ensures
        r == div_wrapping(x, y),
{
    match x.checked_div(y) {
        Some(q) => q,
        None => i32::MIN,
    }
}

fn rem_wrapping_exec(x: i32, y: i32) -> (r: i32)
    requires
        y != 0,
    ensures
        r == rem_wrapping(x, y),
{
    match x.checked_rem(y) {
        Some(q) => q,
        None => 0,
    }
}

/// Runs programs. The input is given whole at the start; the output
/// collects until `flush` hands it over.
pub struct Interpreter {
    env: Vec<Value>,
    names: Vec<String>,
    var_types: Vec<Type>,
    input: Vec<char>,
    pos: usize,
    output: Vec<char>,
    starved: bool,
}

impl Interpreter {
    /// The declared names and types and the input.
    pub closed spec fn ctx(&self) -> Ctx {
        Ctx {
            names: Seq::new(self.names@.len(), |i: int| self.names@[i]@),
            types: self.var_types@,
            input: self.input@,
        }
    }

    /// The variables, the input position, the output not yet flushed, and
    /// whether a read found the input used up.
    pub closed spec fn state(&self) -> State {
        State {
            env: Seq::new(self.env@.len(), |i: int| self.env@[i]@),
            pos: self.pos as int,
            out: self.output@,
            starved: self.starved,
        }
    }

    /// One slot per declared name, and an input position within the input.
    pub closed spec fn wf(&self) -> bool {
        &&& self.env@.len() == self.names@.len()
        &&& self.var_types@.len() == self.names@.len()
        &&& self.pos <= self.input@.len()
    }

    /// An interpreter for `program` that reads `input`: the declared
    /// variables hold their types' defaults.
    pub fn new(program: &Program, input: &str) -> (r: Interpreter)
        ensures
            r.wf(),
            r.ctx() == initial_ctx(*program, input@),
            r.state() == initial_state(*program),
    {
        let n = program.declarations.len();
        let mut names: Vec<String> = Vec::new();
        let mut env: Vec<Value> = Vec::new();
        let mut var_types: Vec<Type> = Vec::new();
        let mut i: usize = 0;
        while i < n
            invariant
                n == program.declarations@.len(),
                i <= n,
                names@.len() == i,
                env@.len() == i,
                var_types@.len() == i,
                forall|j: int| 0 <= j < i ==> names@[j]@ == program.declarations@[j].identifier@,
                forall|j: int| 0 <= j < i ==> var_types@[j] == program.declarations@[j].var_type,
                forall|j: int|
                    0 <= j < i ==> env@[j]@ == default_value(program.declarations@[j].var_type),
            decreases n - i,
        {
            let decl = &program.declarations[i];
            names.push(decl.identifier.clone());
            var_types.push(decl.var_type);
            env.push(
                match decl.var_type {
                    Type::Integer => Value::Integer(0),
                    Type::String => Value::Str(Vec::new()),
                    Type::Boolean => Value::Boolean(false),
                },
            );
            i = i + 1;
        }
        let r = Interpreter {
            env,
            names,
            var_types,
            input: chars_of(input),
            pos: 0,
            output: Vec::new(),
            starved: false,
        };
        assert(r.ctx().names =~= decl_names(*program));
        assert(r.ctx().types =~= decl_types(*program));
        assert(r.state().env =~= initial_state(*program).env);
        assert(r.state().out =~= initial_state(*program).out);
        r
    }

    /// Runs the instructions of `program`, which must name only variables
    /// that this interpreter declares and hold only string literals that
    /// keep their quotes.
    #[verifier::rlimit(50)]
    pub fn run(&mut self, program: &Program) -> (r: Result<(), RuntimeError>)
        requires
            old(self).wf(),
            stmts_ok(old(self).ctx().names, program.instructions@, 0),
        ensures
            final(self).wf(),
            final(self).ctx() == old(self).ctx(),
            (r, final(self).state()) == run_from(
                old(self).ctx(),
                old(self).state(),
                program.instructions@,
                0,
            ),
    {
        let stmts = &program.instructions;
        let mut i: usize = 0;
        while i < stmts.len()
            invariant
                self.wf(),
                self.ctx() == old(self).ctx(),
                stmts@ == program.instructions@,
                i <= stmts@.len(),
                stmts_ok(self.ctx().names, stmts@, i as int),
                run_from(old(self).ctx(), old(self).state(), stmts@, 0) == run_from(
                    self.ctx(),
                    self.state(),
                    stmts@,
                    i as int,
                ),
            decreases stmts@.len() - i,
        {
            let ghost before = self.state();
            let r = self.exec(&stmts[i]);
            assert(run_from(self.ctx(), before, stmts@, i as int) == match r {
                Err(e) => (Err(e), self.state()),
                Ok(Flow::Exit) => (Ok(()), self.state()),
                Ok(_) => run_from(self.ctx(), self.state(), stmts@, i + 1),
            });
            match r {
                Err(e) => {
                    return Err(e);
                },
                Ok(Flow::Exit) => {
                    return Ok(());
                },
                Ok(_) => {},
            }
            i = i + 1;
        }
        Ok(())
    }

    fn set_slot(&mut self, slot: usize, v: Value)
        requires
            old(self).wf(),
            slot < old(self).env@.len(),
        ensures
            final(self).wf(),
            final(self).ctx() == old(self).ctx(),
            final(self).state() == assign(old(self).state(), slot as int, v@),
    {
        self.env.set(slot, v);
        assert(self.state().env =~= old(self).state().env.update(slot as int, v@));
        assert(self.ctx() =~= old(self).ctx());
    }

    fn exec(&mut self, stmt: &Statement) -> (r: Result<Flow, RuntimeError>)
        requires
            old(self).wf(),
            stmt_ok(old(self).ctx().names, *stmt),
        ensures
            final(self).wf(),
            final(self).ctx() == old(self).ctx(),
            (r, final(self).state()) == exec(old(self).ctx(), old(self).state(), *stmt),
        decreases stmt, 1nat,
    {
        match &stmt.kind {
            StmtKind::Assign(..) => self.exec_assign(stmt),
            StmtKind::If { .. } => self.exec_if(stmt),
            StmtKind::For { .. } => self.exec_for(stmt),
            StmtKind::Block(..) => self.exec_block(stmt),
            StmtKind::Print(..) => self.exec_print(stmt),
            StmtKind::Break => Ok(Flow::Break),
            StmtKind::Continue => Ok(Flow::Continue),
            StmtKind::Exit => Ok(Flow::Exit),
        }
    }

    fn exec_assign(&mut self, stmt: &Statement) -> (r: Result<Flow, RuntimeError>)
        requires
            old(self).wf(),
            stmt_ok(old(self).ctx().names, *stmt),
            stmt.kind is Assign,
        ensures
            final(self).wf(),
            final(self).ctx() == old(self).ctx(),
            (r, final(self).state()) == exec(old(self).ctx(), old(self).state(), *stmt),
        decreases stmt, 0nat,
    {
        if let StmtKind::Assign(id, expr) = &stmt.kind {
            let slot = self.slot(id);
            let val = match self.var_types[slot] {
                Type::Integer => Value::Integer(self.eval_int(expr)?),
                Type::String => Value::Str(self.eval_str(expr)?),
                Type::Boolean => Value::Boolean(self.eval_bool(expr)?),
            };
            self.set_slot(slot, val);
            Ok(Flow::Normal)
        } else {
            Ok(Flow::Normal)
        }
    }

    #[verifier::loop_isolation(false)]
    fn exec_if(&mut self, stmt: &Statement) -> (r: Result<Flow, RuntimeError>)
        requires
            old(self).wf(),
            stmt_ok(old(self).ctx().names, *stmt),
            stmt.kind is If,
        ensures
            final(self).wf(),
            final(self).ctx() == old(self).ctx(),
            (r, final(self).state()) == exec(old(self).ctx(), old(self).state(), *stmt),
        decreases stmt, 0nat,
    {
        if let StmtKind::If { condition, then_branch, elif_branches, else_branch } = &stmt.kind {
            if self.eval_bool(condition)? {
                return self.exec(then_branch);
            }
            let ghost mid = self.state();
            let mut i: usize = 0;
            while i < elif_branches.len()
                invariant
                    self.wf(),
                    self.ctx() == old(self).ctx(),
                    i <= elif_branches@.len(),
                    elifs_ok(self.ctx().names, elif_branches@, i as int),
                    exec_elifs(self.ctx(), mid, elif_branches@, 0) == exec_elifs(
                        self.ctx(),
                        self.state(),
                        elif_branches@,
                        i as int,
                    ),
                decreases elif_branches@.len() - i,
            {
                let (cond, body) = &elif_branches[i];
                if self.eval_bool(cond)? {
                    return self.exec(body);
                }
                i = i + 1;
            }
            match else_branch {
                Some(b) => self.exec(b),
                None => Ok(Flow::Normal),
            }
        } else {
            Ok(Flow::Normal)
        }
    }

    #[verifier::loop_isolation(false)]
    fn exec_for(&mut self, stmt: &Statement) -> (r: Result<Flow, RuntimeError>)
        requires
            old(self).wf(),
            stmt_ok(old(self).ctx().names, *stmt),
            stmt.kind is For,
        ensures
            final(self).wf(),
            final(self).ctx() == old(self).ctx(),
            (r, final(self).state()) == exec(old(self).ctx(), old(self).state(), *stmt),
        decreases stmt, 0nat,
    {
        if let StmtKind::For { iterator, from, to, body } = &stmt.kind {
            let mut cur = self.eval_int(from)?;
            let to_val = self.eval_int(to)?;
            let slot = self.slot(iterator);
            let ghost st0 = self.state();
            let ghost cur0 = cur;
            while cur <= to_val
                invariant
                    self.wf(),
                    self.ctx() == old(self).ctx(),
                    slot < self.env@.len(),
                    for_loop(self.ctx(), st0, slot as int, cur0, to_val, **body) == for_loop(
                        self.ctx(),
                        self.state(),
                        slot as int,
                        cur,
                        to_val,
                        **body,
                    ),
                decreases to_val - cur + 1,
            {
                self.set_slot(slot, Value::Integer(cur));
                match self.exec(body) {
                    Err(e) => {
                        return Err(e);
                    },
                    Ok(Flow::Exit) => {
                        return Ok(Flow::Exit);
                    },
                    Ok(Flow::Break) => {
                        break;
                    },
                    Ok(_) => {},
                }
                if cur == i32::MAX {
                    break;
                }
                cur = cur + 1;
            }
            self.set_slot(slot, Value::Integer(cur));
            Ok(Flow::Normal)
        } else {
            Ok(Flow::Normal)
        }
    }

    #[verifier::loop_isolation(false)]
    fn exec_block(&mut self, stmt: &Statement) -> (r: Result<Flow, RuntimeError>)
        requires
            old(self).wf(),
            stmt_ok(old(self).ctx().names, *stmt),
            stmt.kind is Block,
        ensures
            final(self).wf(),
            final(self).ctx() == old(self).ctx(),
            (r, final(self).state()) == exec(old(self).ctx(), old(self).state(), *stmt),
        decreases stmt, 0nat,
    {
        if let StmtKind::Block(stmts) = &stmt.kind {
            let ghost st0 = self.state();
            let mut i: usize = 0;
            while i < stmts.len()
                invariant
                    self.wf(),
                    self.ctx() == old(self).ctx(),
                    i <= stmts@.len(),
                    stmts_ok(self.ctx().names, stmts@, i as int),
                    exec_block(self.ctx(), st0, stmts@, 0) == exec_block(
                        self.ctx(),
                        self.state(),
                        stmts@,
                        i as int,
                    ),
                decreases stmts@.len() - i,
            {
                match self.exec(&stmts[i]) {
                    Ok(Flow::Normal) => {},
                    other => {
                        return other;
                    },
                }
                i = i + 1;
            }
            Ok(Flow::Normal)
        } else {
            Ok(Flow::Normal)
        }
    }

    fn exec_print(&mut self, stmt: &Statement) -> (r: Result<Flow, RuntimeError>)
        requires
            old(self).wf(),
            stmt_ok(old(self).ctx().names, *stmt),
            stmt.kind is Print,
        ensures
            final(self).wf(),
            final(self).ctx() == old(self).ctx(),
            (r, final(self).state()) == exec(old(self).ctx(), old(self).state(), *stmt),
        decreases stmt, 0nat,
    {
        if let StmtKind::Print(expr) = &stmt.kind {
            let val = self.eval(expr)?;
            let ghost before = self.state();
            match &val {
                Value::Integer(n) => push_int_text(&mut self.output, *n),
                Value::Str(t) => push_all(&mut self.output, t),
                Value::Boolean(b) => {
                    if *b {
                        push_all(&mut self.output, &vec!['t', 'r', 'u', 'e']);
                    } else {
                        push_all(&mut self.output, &vec!['f', 'a', 'l', 's', 'e']);
                    }
                },
            }
            assert(self.state() =~= (State { out: before.out + value_text(val@), ..before }));
            assert(self.ctx() =~= old(self).ctx());
            Ok(Flow::Normal)
        } else {
            Ok(Flow::Normal)
        }
    }

    /// Whether a read has found the input used up.
    pub fn read_past_end(&self) -> (r: bool)
        ensures
            r == self.state().starved,
    {
        self.starved
    }

    /// Hands over the output printed since the last call.
    pub fn flush(&mut self) -> (r: String)
        requires
            old(self).wf(),
        ensures
            final(self).wf(),
            final(self).ctx() == old(self).ctx(),
            r@ == old(self).state().out,
            final(self).state() == (State { out: Seq::empty(), ..old(self).state() }),
    {
        let s = string_of(&self.output);
        self.output = Vec::new();
        assert(self.state() =~= (State { out: Seq::empty(), ..old(self).state() }));
        s
    }

    spec fn unchanged_but_pos(&self, other: &Interpreter) -> bool {
        &&& self.env == other.env
        &&& self.names == other.names
        &&& self.var_types == other.var_types
        &&& self.input == other.input
        &&& self.output == other.output
    }

    spec fn eval_post(&self, old: &Interpreter, e: Expr, r: Result<SpecValue, RuntimeError>) -> bool {
        &&& self.wf()
        &&& self.unchanged_but_pos(old)
        &&& (r, self.state()) == eval(old.ctx(), old.state(), e)
    }

    #[verifier::rlimit(60)]
    fn eval(&mut self, expr: &Expr) -> (r: Result<Value, RuntimeError>)
        requires
            old(self).wf(),
            expr_ok(old(self).ctx().names, *expr),
        ensures
            final(self).eval_post(old(self), *expr, value_result(r)),
        decreases expr, 0nat,
    {
        match &expr.kind {
            ExprKind::Number(n) => Ok(Value::Integer(*n)),
            ExprKind::True => Ok(Value::Boolean(true)),
            ExprKind::False => Ok(Value::Boolean(false)),
            ExprKind::StringLit(s) => Ok(Value::Str(unescape_string(s.as_str()))),
            ExprKind::Identifier(id) => {
                let slot = self.slot(id);
                Ok(self.env[slot].duplicate())
            },
            ExprKind::ReadInt => Ok(Value::Integer(self.read_int())),
            ExprKind::ReadStr => Ok(Value::Str(self.read_str())),
            ExprKind::ReadBool => Ok(Value::Boolean(self.read_bool())),
            ExprKind::Add(a, b) => {
                let x = self.eval_int(a)?;
                let y = self.eval_int(b)?;
                Ok(Value::Integer(x.wrapping_add(y)))
            },
            ExprKind::Sub(a, b) => {
                let x = self.eval_int(a)?;
                let y = self.eval_int(b)?;
                Ok(Value::Integer(x.wrapping_sub(y)))
            },
            ExprKind::Mul(a, b) => {
                let x = self.eval_int(a)?;
                let y = self.eval_int(b)?;
                Ok(Value::Integer(x.wrapping_mul(y)))
            },
            ExprKind::Div(a, b) => {
                let d = self.eval_int(b)?;
                if d == 0 {
                    return Err(RuntimeError::DivisionByZero);
                }
                let x = self.eval_int(a)?;
                Ok(Value::Integer(div_wrapping_exec(x, d)))
            },
            ExprKind::Mod(a, b) => {
                let d = self.eval_int(b)?;
                if d == 0 {
                    return Err(RuntimeError::DivisionByZero);
                }
                let x = self.eval_int(a)?;
                Ok(Value::Integer(rem_wrapping_exec(x, d)))
            },
            ExprKind::Concatenate(a, b) => {
                let mut x = self.eval_str(a)?;
                let y = self.eval_str(b)?;
                push_all(&mut x, &y);
                Ok(Value::Str(x))
            },
            ExprKind::Substring(sx, p, l) => {
                let sv = self.eval_str(sx)?;
                let pv = self.eval_int(p)?;
                let lv = self.eval_int(l)?;
                Ok(Value::Str(substring(&sv, pv, lv)))
            },
            ExprKind::Length(sx) => {
                let sv = self.eval_str(sx)?;
                Ok(Value::Integer(#[verifier::truncate] (sv.len() as i32)))
            },
            ExprKind::Position(h, n) => {
                let hv = self.eval_str(h)?;
                let nv = self.eval_str(n)?;
                Ok(Value::Integer(position(&hv, &nv)))
            },
            ExprKind::Not(a) => Ok(Value::Boolean(!self.eval_bool(a)?)),
            ExprKind::And(a, b) => {
                if !self.eval_bool(a)? {
                    return Ok(Value::Boolean(false));
                }
                Ok(Value::Boolean(self.eval_bool(b)?))
            },
            ExprKind::Or(a, b) => {
                if self.eval_bool(a)? {
                    return Ok(Value::Boolean(true));
                }
                Ok(Value::Boolean(self.eval_bool(b)?))
            },
            ExprKind::Eq(a, b) => {
                let l = self.eval(a)?;
                let r = self.eval(b)?;
                Ok(Value::Boolean(value_eq(&l, &r)))
            },
            ExprKind::Neq(a, b) => {
                let l = self.eval(a)?;
                let r = self.eval(b)?;
                Ok(Value::Boolean(!value_eq(&l, &r)))
            },
            ExprKind::Less(a, b) => {
                let x = self.eval_int(a)?;
                let y = self.eval_int(b)?;
                Ok(Value::Boolean(x < y))
            },
            ExprKind::LessEq(a, b) => {
                let x = self.eval_int(a)?;
                let y = self.eval_int(b)?;
                Ok(Value::Boolean(x <= y))
            },
            ExprKind::Greater(a, b) => {
                let x = self.eval_int(a)?;
                let y = self.eval_int(b)?;
                Ok(Value::Boolean(x > y))
            },
            ExprKind::GreaterEq(a, b) => {
                let x = self.eval_int(a)?;
                let y = self.eval_int(b)?;
                Ok(Value::Boolean(x >= y))
            },
        }
    }

    fn eval_int(&mut self, expr: &Expr) -> (r: Result<i32, RuntimeError>)
        requires
            old(self).wf(),
            expr_ok(old(self).ctx().names, *expr),
        ensures
            final(self).wf(),
            final(self).unchanged_but_pos(old(self)),
            (r, final(self).state()) == as_int(eval(old(self).ctx(), old(self).state(), *expr)),
        decreases expr, 1nat,
    {
        match &expr.kind {
            ExprKind::Number(n) => Ok(*n),
            ExprKind::Identifier(id) => {
                let slot = self.slot(id);
                match self.env[slot] {
                    Value::Integer(n) => Ok(n),
                    _ => Err(RuntimeError::TypeMismatch),
                }
            },
            ExprKind::Add(a, b) => {
                let x = self.eval_int(a)?;
                let y = self.eval_int(b)?;
                Ok(x.wrapping_add(y))
            },
            ExprKind::Sub(a, b) => {
                let x = self.eval_int(a)?;
                let y = self.eval_int(b)?;
                Ok(x.wrapping_sub(y))
            },
            ExprKind::Mul(a, b) => {
                let x = self.eval_int(a)?;
                let y = self.eval_int(b)?;
                Ok(x.wrapping_mul(y))
            },
            ExprKind::Div(a, b) => {
                let d = self.eval_int(b)?;
                if d == 0 {
                    return Err(RuntimeError::DivisionByZero);
                }
                let x = self.eval_int(a)?;
                Ok(div_wrapping_exec(x, d))
            },
            ExprKind::Mod(a, b) => {
                let d = self.eval_int(b)?;
                if d == 0 {
                    return Err(RuntimeError::DivisionByZero);
                }
                let x = self.eval_int(a)?;
                Ok(rem_wrapping_exec(x, d))
            },
            ExprKind::Length(sx) => {
                let sv = self.eval_str(sx)?;
                Ok(#[verifier::truncate] (sv.len() as i32))
            },
            ExprKind::Position(h, n) => {
                let hv = self.eval_str(h)?;
                let nv = self.eval_str(n)?;
                Ok(position(&hv, &nv))
            },
            ExprKind::ReadInt => Ok(self.read_int()),
            _ => match self.eval(expr)? {
                Value::Integer(n) => Ok(n),
                _ => Err(RuntimeError::TypeMismatch),
            },
        }
    }

    fn eval_bool(&mut self, expr: &Expr) -> (r: Result<bool, RuntimeError>)
        requires
            old(self).wf(),
            expr_ok(old(self).ctx().names, *expr),
        ensures
            final(self).wf(),
            final(self).unchanged_but_pos(old(self)),
            (r, final(self).state()) == as_bool(eval(old(self).ctx(), old(self).state(), *expr)),
        decreases expr, 1nat,
    {
        match &expr.kind {
            ExprKind::True => Ok(true),
            ExprKind::False => Ok(false),
            ExprKind::Identifier(id) => {
                let slot = self.slot(id);
                match self.env[slot] {
                    Value::Boolean(b) => Ok(b),
                    _ => Err(RuntimeError::TypeMismatch),
                }
            },
            ExprKind::Not(a) => Ok(!self.eval_bool(a)?),
            ExprKind::And(a, b) => {
                if !self.eval_bool(a)? {
                    return Ok(false);
                }
                Ok(self.eval_bool(b)?)
            },
            ExprKind::Or(a, b) => {
                if self.eval_bool(a)? {
                    return Ok(true);
                }
                Ok(self.eval_bool(b)?)
            },
            ExprKind::Less(a, b) => Ok(self.eval_int(a)? < self.eval_int(b)?),
            ExprKind::LessEq(a, b) => Ok(self.eval_int(a)? <= self.eval_int(b)?),
            ExprKind::Greater(a, b) => Ok(self.eval_int(a)? > self.eval_int(b)?),
            ExprKind::GreaterEq(a, b) => Ok(self.eval_int(a)? >= self.eval_int(b)?),
            ExprKind::ReadBool => Ok(self.read_bool()),
            _ => match self.eval(expr)? {
                Value::Boolean(b) => Ok(b),
                _ => Err(RuntimeError::TypeMismatch),
            },
        }
    }

    fn eval_str(&mut self, expr: &Expr) -> (r: Result<Vec<char>, RuntimeError>)
        requires
            old(self).wf(),
            expr_ok(old(self).ctx().names, *expr),
        ensures
            final(self).wf(),
            final(self).unchanged_but_pos(old(self)),
            (chars_result(r), final(self).state()) == as_str(
                eval(old(self).ctx(), old(self).state(), *expr),
            ),
        decreases expr, 1nat,
    {
        match &expr.kind {
            ExprKind::StringLit(s) => Ok(unescape_string(s.as_str())),
            ExprKind::Identifier(id) => {
                let slot = self.slot(id);
                match &self.env[slot] {
                    Value::Str(s) => {
                        let mut t: Vec<char> = Vec::new();
                        push_all(&mut t, s);
                        Ok(t)
                    },
                    _ => Err(RuntimeError::TypeMismatch),
                }
            },
            ExprKind::Concatenate(a, b) => {
                let mut x = self.eval_str(a)?;
                let y = self.eval_str(b)?;
                push_all(&mut x, &y);
                Ok(x)
            },
            ExprKind::Substring(sx, p, l) => {
                let sv = self.eval_str(sx)?;
                let pv = self.eval_int(p)?;
                let lv = self.eval_int(l)?;
                Ok(substring(&sv, pv, lv))
            },
            ExprKind::ReadStr => Ok(self.read_str()),
            _ => match self.eval(expr)? {
                Value::Str(s) => Ok(s),
                _ => Err(RuntimeError::TypeMismatch),
            },
        }
    }

    fn slot(&self, name: &String) -> (r: usize)
        requires
            self.wf(),
            slot_of(self.ctx().names, name@) >= 0,
        ensures
            r as int == slot_of(self.ctx().names, name@),
            r < self.names@.len(),
    {
        let mut i: usize = 0;
        while i < self.names.len()
            invariant
                self.wf(),
                i <= self.names@.len(),
                slot_of(self.ctx().names, name@) == find_slot(self.ctx().names, name@, i as int),
                slot_of(self.ctx().names, name@) >= 0,
            decreases self.names@.len() - i,
        {
            if self.names[i] == *name {
                return i;
            }
            i = i + 1;
        }
        i
    }

    /// Reads the line at the input position: its bounds in the input.
    fn next_line(&mut self) -> (r: (usize, usize))
        requires
            old(self).wf(),
        ensures
            final(self).wf(),
            final(self).unchanged_but_pos(old(self)),
            r.0 == old(self).pos,
            r.1 as int == line_end(old(self).input@, old(self).pos as int),
            final(self).pos == r.1,
            r.0 <= r.1 <= old(self).input@.len(),
            final(self).starved == (old(self).starved || old(self).pos >= old(self).input@.len()),
    {
        let start = self.pos;
        if start >= self.input.len() {
            self.starved = true;
        }
        let mut end = start;
        while end < self.input.len() && self.input[end] != '\n'
            invariant
                start <= end <= self.input@.len(),
                line_end(self.input@, start as int) == line_end(self.input@, end as int),
            decreases self.input@.len() - end,
        {
            end = end + 1;
        }
        if end < self.input.len() {
            end = end + 1;
        }
        self.pos = end;
        (start, end)
    }

    fn read_int(&mut self) -> (r: i32)
        requires
            old(self).wf(),
        ensures
            final(self).wf(),
            final(self).unchanged_but_pos(old(self)),
            r == read_int_value(read_line(old(self).input@, old(self).pos as int)),
            final(self).pos == old(self).pos + read_line(old(self).input@, old(self).pos as int).len(),
            final(self).starved == (old(self).starved || old(self).pos >= old(self).input@.len()),
    {
        let (a, b) = self.next_line();
        if a == b {
            return 0;
        }
        let (ta, tb) = trim_bounds(&self.input, a, b);
        match parse_i32_range(&self.input, ta, tb) {
            Some(n) => n,
            None => 0,
        }
    }

    fn read_str(&mut self) -> (r: Vec<char>)
        requires
            old(self).wf(),
        ensures
            final(self).wf(),
            final(self).unchanged_but_pos(old(self)),
            r@ == strip_newline(read_line(old(self).input@, old(self).pos as int)),
            final(self).pos == old(self).pos + read_line(old(self).input@, old(self).pos as int).len(),
            final(self).starved == (old(self).starved || old(self).pos >= old(self).input@.len()),
    {
        let (a, b) = self.next_line();
        let ghost line = self.input@.subrange(a as int, b as int);
        let mut e = b;
        if e > a && self.input[e - 1] == '\n' {
            e = e - 1;
        }
        let ghost mid = self.input@.subrange(a as int, e as int);
        assert(mid =~= (if line.len() > 0 && line.last() == '\n' {
            line.drop_last()
        } else {
            line
        }));
        if e > a && self.input[e - 1] == '\r' {
            e = e - 1;
        }
        assert(self.input@.subrange(a as int, e as int) =~= strip_newline(line));
        let mut out: Vec<char> = Vec::new();
        let mut i = a;
        while i < e
            invariant
                a <= i <= e <= self.input@.len(),
                out@ == self.input@.subrange(a as int, i as int),
            decreases e - i,
        {
            out.push(self.input[i]);
            i = i + 1;
            assert(out@ =~= self.input@.subrange(a as int, i as int));
        }
        out
    }

    fn read_bool(&mut self) -> (r: bool)
        requires
            old(self).wf(),
        ensures
            final(self).wf(),
            final(self).unchanged_but_pos(old(self)),
            r == read_bool_value(read_line(old(self).input@, old(self).pos as int)),
            final(self).pos == old(self).pos + read_line(old(self).input@, old(self).pos as int).len(),
            final(self).starved == (old(self).starved || old(self).pos >= old(self).input@.len()),
    {
        let (a, b) = self.next_line();
        if a == b {
            return false;
        }
        let (ta, tb) = trim_bounds(&self.input, a, b);
        let ghost t = self.input@.subrange(ta as int, tb as int);
        let ghost word = seq!['t', 'r', 'u', 'e'];
        assert(word.len() == 4 && word[0] == 't' && word[1] == 'r' && word[2] == 'u' && word[3]
            == 'e');
        if tb - ta == 4 && self.input[ta] == 't' && self.input[ta + 1] == 'r' && self.input[ta + 2]
            == 'u' && self.input[ta + 3] == 'e' {
            assert(t =~= seq!['t', 'r', 'u', 'e']);
            true
        } else {
            if tb - ta == 4 {
                assert(t[0] == self.input@[ta as int]);
                assert(t[1] == self.input@[ta + 1]);
                assert(t[2] == self.input@[ta + 2]);
                assert(t[3] == self.input@[ta + 3]);
            }
            assert(t != seq!['t', 'r', 'u', 'e']);
            false
        }
    }
}

} // verus!
