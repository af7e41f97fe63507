//! What the built-in operations of the language compute, stated over the
//! characters and numbers they take and give: where `position` finds a
//! needle, what `concatenate` and `substring` build, when two values are
//! equal, how `readint` reads a number and how `\u` escapes decode.
use crate::ast::{Expr, ExprKind};
use crate::interp::RuntimeError;
use crate::semantics::{
    div_wrapping, eval, find_from, line_end, position_spec, read_int_value, read_line,
    exec, for_loop, rem_wrapping, run_from, slot_of, substring_spec, trunc_div, trunc_rem,
    value_text, values_equal, Ctx, Flow, SpecValue, State,
};
use crate::soundness::has_type;
use crate::lexer::{digits_end, ident_end, is_ident_char, is_ident_start, scan_at};
use crate::ast::{Statement, StmtKind};
use crate::text::{
    all_digits, digit_char, digit_value, digits_value, hex_digits_value, hex_value, int_text,
    is_digit, is_hex, is_unicode_space, lemma_digits_value_nonneg, nat_text, unescape, parse_hex, parse_i32, scalar_of, trim, trim_back, trim_front,
    unescape_body,
};
use vstd::prelude::*;

verus! {

// ---------------------------------------------------------------------------
// position
proof fn lemma_find_from(hay: Seq<char>, needle: Seq<char>, i: int)
    requires
        0 <= i,
    ensures
        find_from(hay, needle, i) == -1 ==> forall|j: int|
            i <= j && j + needle.len() <= hay.len() ==> #[trigger] hay.subrange(j, j + needle.len())
                != needle,
        find_from(hay, needle, i) != -1 ==> {
            let r = find_from(hay, needle, i);
            &&& i <= r && r + needle.len() <= hay.len()
            &&& hay.subrange(r, r + needle.len()) == needle
            &&& forall|j: int| i <= j < r ==> #[trigger] hay.subrange(j, j + needle.len()) != needle
        },
    decreases hay.len() + 1 - i,
{
    if i + needle.len() <= hay.len() && hay.subrange(i, i + needle.len()) != needle {
        lemma_find_from(hay, needle, i + 1);
    }
}

/// `position(hay, needle)` is 0 exactly when `needle` occurs nowhere in
/// `hay`; otherwise it is one more than the least index at which it occurs.
pub proof fn position_is_first_occurrence(hay: Seq<char>, needle: Seq<char>)
    requires
        hay.len() < i32::MAX,
    ensures
        position_spec(hay, needle) == 0 <==> forall|j: int|
            0 <= j && j + needle.len() <= hay.len() ==> #[trigger] hay.subrange(j, j + needle.len())
                != needle,
        position_spec(hay, needle) != 0 ==> {
            let p = position_spec(hay, needle) - 1;
            &&& 0 <= p && p + needle.len() <= hay.len()
            &&& hay.subrange(p, p + needle.len()) == needle
            &&& forall|j: int| 0 <= j < p ==> #[trigger] hay.subrange(j, j + needle.len()) != needle
        },
{
    lemma_find_from(hay, needle, 0);
    let r = find_from(hay, needle, 0);
    if r != -1 {
        assert(hay.subrange(r, r + needle.len()) == needle);
    }
}

// ---------------------------------------------------------------------------
// Decimal numbers
proof fn lemma_digit_char(d: int)
    requires
        0 <= d < 10,
    ensures
        is_digit(digit_char(d)),
        digit_value(digit_char(d)) == d,
{
    assert(digit_char(d) as int == d + 48);
}

proof fn lemma_nat_text(n: nat)
    ensures
        nat_text(n).len() > 0,
        all_digits(nat_text(n)),
        digits_value(nat_text(n)) == n,
    decreases n,
{
    if n < 10 {
        lemma_digit_char(n as int);
        let t = nat_text(n);
        assert(t.drop_last() =~= Seq::<char>::empty());
        assert(digits_value(t.drop_last()) == 0);
    } else {
        lemma_nat_text(n / 10);
        lemma_digit_char((n % 10) as int);
        let t = nat_text(n);
        assert(t.drop_last() =~= nat_text(n / 10));
        assert(t.last() == digit_char((n % 10) as int));
        assert forall|i: int| 0 <= i < t.len() implies #[trigger] is_digit(t[i]) by {
            if i < t.len() - 1 {
                assert(t[i] == nat_text(n / 10)[i]);
            }
        }
    }
}

/// Reading back what `print` writes of an integer gives that integer, a
/// negative one included: a minus sign before decimal digits negates them.
pub proof fn parse_reads_printed_integers(v: i32)
    ensures
        parse_i32(int_text(v as int)) == Some(v),
{
    if v < 0 {
        let n = (-(v as int)) as nat;
        lemma_nat_text(n);
        let t = int_text(v as int);
        assert(t.drop_first() =~= nat_text(n));
        assert(t[0] == '-');
    } else {
        lemma_nat_text(v as nat);
        assert(nat_text(v as nat)[0] != '-' && nat_text(v as nat)[0] != '+') by {
            assert(is_digit(nat_text(v as nat)[0]));
        }
    }
}

/// A sign before digits: `+` leaves the number as it is and `-` negates
/// it, as `str::parse::<i32>` does.
pub proof fn parse_sign(d: Seq<char>)
    requires
        d.len() > 0,
        all_digits(d),
    ensures
        parse_i32(seq!['+'] + d) == parse_i32(d),
        parse_i32(d) matches Some(x) ==> parse_i32(seq!['-'] + d) == Some((-x) as i32),
        parse_i32(seq!['-'] + d) matches Some(x) ==> x <= 0 && x == -digits_value(d),
{
    assert((seq!['+'] + d).drop_first() =~= d);
    assert((seq!['-'] + d).drop_first() =~= d);
    assert((seq!['-'] + d)[0] == '-');
    assert((seq!['+'] + d)[0] == '+');
    lemma_digits_value_nonneg(d);
    assert(d[0] != '-' && d[0] != '+') by {
        assert(is_digit(d[0]));
    }
}

proof fn lemma_trim_empty(s: Seq<char>)
    requires
        s.len() == 0,
    ensures
        trim(s).len() == 0,
{
    assert(trim_front(s) == s);
    assert(trim_back(s) == s);
}

/// `readint` on a line that holds, besides white space around it, the
/// text `print` writes for an integer, gives that integer.
pub proof fn readint_reads_printed_integers(line: Seq<char>, v: i32)
    requires
        trim(line) == int_text(v as int),
    ensures
        read_int_value(line) == v,
{
    parse_reads_printed_integers(v);
    if line.len() == 0 {
        lemma_trim_empty(line);
        if v < 0 {
        } else {
            lemma_nat_text(v as nat);
        }
    }
}

// ---------------------------------------------------------------------------
// Hexadecimal escapes
/// Each hexadecimal digit is worth less than 16; over `0`-`9` then `a`-`f`
/// the worth grows by one per digit, from 0 to 15; `A`-`F` are worth what
/// `a`-`f` are.
pub proof fn hex_digits_in_order(c: char, d: char)
    ensures
        is_hex(c) ==> 0 <= hex_value(c) < 16,
        is_hex(c) && is_hex(d) && !('A' <= c && c <= 'F') && !('A' <= d && d <= 'F') && c < d
            ==> hex_value(c) < hex_value(d),
        c == '0' ==> hex_value(c) == 0,
        c == 'f' ==> hex_value(c) == 15,
        'A' <= c && c <= 'F' && d as int == c as int + 32 ==> hex_value(c) == hex_value(d),
{
}

/// `\u` and four hexadecimal digits stand for the character whose scalar
/// value the digits write in base 16, the first one most significant; a
/// value that is no scalar value stands for nothing.
pub proof fn unicode_escape(a: char, b: char, c: char, d: char, rest: Seq<char>)
    requires
        is_hex(a),
        is_hex(b),
        is_hex(c),
        is_hex(d),
    ensures
        ({
            let v = 4096 * hex_value(a) + 256 * hex_value(b) + 16 * hex_value(c) + hex_value(d);
            unescape_body(seq!['\\', 'u', a, b, c, d] + rest) == match scalar_of(v as u32) {
                Some(ch) => seq![ch] + unescape_body(rest),
                None => unescape_body(rest),
            }
        }),
{
    let s = seq!['\\', 'u', a, b, c, d] + rest;
    let code = s.subrange(2, 6);
    assert(code =~= seq![a, b, c, d]);
    assert(s.skip(6) =~= rest);
    assert(code[0] != '+') by {
        assert(is_hex(code[0]));
    }
    assert(code.drop_last() =~= seq![a, b, c]);
    assert(seq![a, b, c].drop_last() =~= seq![a, b]);
    assert(seq![a, b].drop_last() =~= seq![a]);
    assert(seq![a].drop_last() =~= Seq::<char>::empty());
    assert(seq![a].last() == a);
    assert(seq![a, b].last() == b);
    assert(seq![a, b, c].last() == c);
    assert(code.last() == d);
    assert(hex_digits_value(Seq::<char>::empty()) == 0);
    assert(hex_digits_value(seq![a]) == hex_value(a));
    assert(hex_digits_value(seq![a, b]) == 16 * hex_value(a) + hex_value(b));
    assert(hex_digits_value(seq![a, b, c]) == 256 * hex_value(a) + 16 * hex_value(b) + hex_value(
        c,
    ));
    assert(hex_digits_value(code) == 4096 * hex_value(a) + 256 * hex_value(b) + 16 * hex_value(c)
        + hex_value(d));
    assert forall|i: int| 0 <= i < code.len() implies #[trigger] is_hex(code[i]) by {}
    assert(parse_hex(code) == Some(hex_digits_value(code) as u32));
}

// ---------------------------------------------------------------------------
// Equality
/// Two strings are equal exactly when they have the same length and the
/// same character at every index; two integers or two booleans when they
/// are the same; values of different types never.
pub proof fn equality_of_values(l: SpecValue, r: SpecValue)
    ensures
        (l, r) matches (SpecValue::Str(a), SpecValue::Str(b)) ==> (values_equal(l, r) <==> (a.len()
            == b.len() && forall|i: int| 0 <= i < a.len() ==> a[i] == b[i])),
        (l, r) matches (SpecValue::Int(a), SpecValue::Int(b)) ==> (values_equal(l, r) <==> a == b),
        (l, r) matches (SpecValue::Bool(a), SpecValue::Bool(b)) ==> (values_equal(l, r) <==> a == b),
        (l is Int && !(r is Int)) || (l is Str && !(r is Str)) || (l is Bool && !(r is Bool))
            ==> !values_equal(l, r),
{
    if let (SpecValue::Str(a), SpecValue::Str(b)) = (l, r) {
        if a.len() == b.len() && forall|i: int| 0 <= i < a.len() ==> a[i] == b[i] {
            assert(a =~= b);
        }
    }
}

// ---------------------------------------------------------------------------
// Strings built by expressions
/// `concatenate(a, b)`, once both operands give strings `x` and `y` in
/// turn, gives the characters of `x` followed by those of `y`, whatever
/// either is, and leaves the state that `b` left.
pub proof fn concatenate_joins(ctx: Ctx, st: State, e: Expr, a: Box<Expr>, b: Box<Expr>)
    requires
        e.kind == ExprKind::Concatenate(a, b),
        eval(ctx, st, *a).0 is Ok,
        eval(ctx, st, *a).0->Ok_0 is Str,
        eval(ctx, eval(ctx, st, *a).1, *b).0 is Ok,
        eval(ctx, eval(ctx, st, *a).1, *b).0->Ok_0 is Str,
    ensures
        ({
            let ra = eval(ctx, st, *a);
            let rb = eval(ctx, ra.1, *b);
            let x = ra.0->Ok_0->Str_0;
            let y = rb.0->Ok_0->Str_0;
            let r = eval(ctx, st, e);
            &&& r.1 == rb.1
            &&& r.0 is Ok && r.0->Ok_0 is Str
            &&& r.0->Ok_0->Str_0.len() == x.len() + y.len()
            &&& forall|i: int| 0 <= i < x.len() ==> #[trigger] r.0->Ok_0->Str_0[i] == x[i]
            &&& forall|j: int|
                0 <= j < y.len() ==> #[trigger] r.0->Ok_0->Str_0[x.len() + j] == y[j]
        }),
{
}

// ---------------------------------------------------------------------------
// Integer arithmetic
/// `a` and then `b`, evaluated in turn from `st`, give `x` and `y`.
pub open spec fn in_turn(ctx: Ctx, st: State, a: Expr, b: Expr, x: SpecValue, y: SpecValue) -> bool {
    &&& eval(ctx, st, a).0 == Ok::<SpecValue, RuntimeError>(x)
    &&& eval(ctx, eval(ctx, st, a).1, b).0 == Ok::<SpecValue, RuntimeError>(y)
}

/// The state after evaluating `a` and then `b` from `st`.
pub open spec fn after(ctx: Ctx, st: State, a: Expr, b: Expr) -> State {
    eval(ctx, eval(ctx, st, a).1, b).1
}

pub open spec fn abs(x: int) -> int {
    if x < 0 {
        -x
    } else {
        x
    }
}

/// Rust's `/` and `%` on integers: the quotient rounds toward zero, and the
/// remainder takes the sign of the dividend and is smaller than the divisor.
pub proof fn truncating_division(x: int, d: int)
    requires
        d != 0,
    ensures
        x == trunc_div(x, d) * d + trunc_rem(x, d),
        abs(trunc_rem(x, d)) < abs(d),
        x >= 0 ==> trunc_rem(x, d) >= 0,
        x <= 0 ==> trunc_rem(x, d) <= 0,
{
    if x == 0 {
    } else if x > 0 && d > 0 {
        vstd::arithmetic::div_mod::lemma_fundamental_div_mod(x, d);
        vstd::arithmetic::div_mod::lemma_mod_bound(x, d);
        let q = x / d;
        let m = x % d;
        assert(x == q * d + m) by (nonlinear_arith)
            requires
                x == d * q + m,
        ;
    } else if x < 0 && d < 0 {
        vstd::arithmetic::div_mod::lemma_fundamental_div_mod(-x, -d);
        vstd::arithmetic::div_mod::lemma_mod_bound(-x, -d);
        let q = (-x) / (-d);
        let m = (-x) % (-d);
        assert(x == q * d + (-m)) by (nonlinear_arith)
            requires
                -x == (-d) * q + m,
        ;
    } else if x < 0 {
        vstd::arithmetic::div_mod::lemma_fundamental_div_mod(-x, d);
        vstd::arithmetic::div_mod::lemma_mod_bound(-x, d);
        let q = (-x) / d;
        let m = (-x) % d;
        assert(x == (-q) * d + (-m)) by (nonlinear_arith)
            requires
                -x == d * q + m,
        ;
    } else {
        vstd::arithmetic::div_mod::lemma_fundamental_div_mod(x, -d);
        vstd::arithmetic::div_mod::lemma_mod_bound(x, -d);
        let q = x / (-d);
        let m = x % (-d);
        assert(x == (-q) * d + m) by (nonlinear_arith)
            requires
                x == (-d) * q + m,
        ;
    }
}

proof fn lemma_product_size(q: int, y: int)
    requires
        y != 0,
    ensures
        y == 1 ==> q * y == q,
        y == -1 ==> q * y == -q,
        abs(y) >= 2 ==> abs(q * y) >= 2 * abs(q),
        q != 0 ==> abs(q * y) >= abs(y),
        q * y >= 0 || q * y <= 0,
{
    if y == 1 {
        assert(q * y == q) by (nonlinear_arith)
            requires
                y == 1,
        ;
    }
    if y == -1 {
        assert(q * y == -q) by (nonlinear_arith)
            requires
                y == -1,
        ;
    }
    if q >= 0 && y >= 2 {
        assert(q * y >= 2 * q) by (nonlinear_arith)
            requires
                q >= 0,
                y >= 2,
        ;
    } else if q >= 0 && y <= -2 {
        assert(q * y <= -2 * q) by (nonlinear_arith)
            requires
                q >= 0,
                y <= -2,
        ;
    } else if q < 0 && y >= 2 {
        assert(q * y <= 2 * q) by (nonlinear_arith)
            requires
                q < 0,
                y >= 2,
        ;
    } else if q < 0 && y <= -2 {
        assert(q * y >= -2 * q) by (nonlinear_arith)
            requires
                q < 0,
                y <= -2,
        ;
    }
    if q >= 1 && y > 0 {
        assert(q * y >= y) by (nonlinear_arith)
            requires
                q >= 1,
                y > 0,
        ;
    } else if q >= 1 && y < 0 {
        assert(q * y <= y) by (nonlinear_arith)
            requires
                q >= 1,
                y < 0,
        ;
    } else if q <= -1 && y > 0 {
        assert(q * y <= -y) by (nonlinear_arith)
            requires
                q <= -1,
                y > 0,
        ;
    } else if q <= -1 && y < 0 {
        assert(q * y >= -y) by (nonlinear_arith)
            requires
                q <= -1,
                y < 0,
        ;
    }
}

proof fn lemma_quotient_fits(x: int, y: int, q: int, rem: int)
    requires
        i32::MIN <= x <= i32::MAX,
        i32::MIN <= y <= i32::MAX,
        y != 0,
        !(x == i32::MIN && y == -1),
        x == q * y + rem,
        abs(rem) < abs(y),
        x >= 0 ==> rem >= 0,
        x <= 0 ==> rem <= 0,
    ensures
        i32::MIN <= q <= i32::MAX,
{
    lemma_product_size(q, y);
    let t = q * y;
    assert(t == x - rem);
    if x >= 0 {
        assert(0 <= t <= x);
    } else {
        assert(x <= t <= 0);
    }
}

proof fn lemma_crop(z: int, r: int)
    requires
        r == z % 0x1_0000_0000 || r == z % 0x1_0000_0000 - 0x1_0000_0000,
    ensures
        (r - z) % 0x1_0000_0000 == 0,
{
    vstd::arithmetic::div_mod::lemma_fundamental_div_mod(z, 0x1_0000_0000);
    let q = z / 0x1_0000_0000;
    if r == z % 0x1_0000_0000 {
        assert(r - z == (-q) * 0x1_0000_0000) by (nonlinear_arith)
            requires
                z == 0x1_0000_0000 * q + z % 0x1_0000_0000,
                r == z % 0x1_0000_0000,
        ;
        vstd::arithmetic::div_mod::lemma_mod_multiples_basic(-q, 0x1_0000_0000);
    } else {
        assert(r - z == (-q - 1) * 0x1_0000_0000) by (nonlinear_arith)
            requires
                z == 0x1_0000_0000 * q + z % 0x1_0000_0000,
                r == z % 0x1_0000_0000 - 0x1_0000_0000,
        ;
        vstd::arithmetic::div_mod::lemma_mod_multiples_basic(-q - 1, 0x1_0000_0000);
    }
}

/// `+`, `-` and `*` on integers give the exact result taken modulo 2^32
/// into the range of `i32` (two's complement wrapping); the comparisons and
/// `=`, `<>` compare the two numbers. Each leaves the state that `b` left.
pub proof fn integer_operators(ctx: Ctx, st: State, e: Expr, a: Box<Expr>, b: Box<Expr>, x: i32, y: i32)
    requires
        in_turn(ctx, st, *a, *b, SpecValue::Int(x), SpecValue::Int(y)),
    ensures
        e.kind == ExprKind::Add(a, b) ==> ({
            let r = eval(ctx, st, e);
            &&& r.1 == after(ctx, st, *a, *b)
            &&& r.0 matches Ok(SpecValue::Int(z)) && (z - (x + y)) % 0x1_0000_0000 == 0
        }),
        e.kind == ExprKind::Sub(a, b) ==> ({
            let r = eval(ctx, st, e);
            &&& r.1 == after(ctx, st, *a, *b)
            &&& r.0 matches Ok(SpecValue::Int(z)) && (z - (x - y)) % 0x1_0000_0000 == 0
        }),
        e.kind == ExprKind::Mul(a, b) ==> ({
            let r = eval(ctx, st, e);
            &&& r.1 == after(ctx, st, *a, *b)
            &&& r.0 matches Ok(SpecValue::Int(z)) && (z - x * y) % 0x1_0000_0000 == 0
        }),
        e.kind == ExprKind::Less(a, b) ==> eval(ctx, st, e) == (
            Ok::<SpecValue, RuntimeError>(SpecValue::Bool(x < y)),
            after(ctx, st, *a, *b),
        ),
        e.kind == ExprKind::LessEq(a, b) ==> eval(ctx, st, e) == (
            Ok::<SpecValue, RuntimeError>(SpecValue::Bool(x <= y)),
            after(ctx, st, *a, *b),
        ),
        e.kind == ExprKind::Greater(a, b) ==> eval(ctx, st, e) == (
            Ok::<SpecValue, RuntimeError>(SpecValue::Bool(x > y)),
            after(ctx, st, *a, *b),
        ),
        e.kind == ExprKind::GreaterEq(a, b) ==> eval(ctx, st, e) == (
            Ok::<SpecValue, RuntimeError>(SpecValue::Bool(x >= y)),
            after(ctx, st, *a, *b),
        ),
        e.kind == ExprKind::Eq(a, b) ==> eval(ctx, st, e) == (
            Ok::<SpecValue, RuntimeError>(SpecValue::Bool(x == y)),
            after(ctx, st, *a, *b),
        ),
        e.kind == ExprKind::Neq(a, b) ==> eval(ctx, st, e) == (
            Ok::<SpecValue, RuntimeError>(SpecValue::Bool(x != y)),
            after(ctx, st, *a, *b),
        ),
{
    let z = x as int * y as int;
    let m = vstd::wrapping::i32_specs::wrapping_mul(x, y);
    assert(m as int == z % 0x1_0000_0000 || m as int == z % 0x1_0000_0000 - 0x1_0000_0000);
    lemma_crop(z, m as int);
}

/// `/` and `%` evaluate the divisor `b` first. A zero divisor stops with a
/// division-by-zero error; otherwise `x / y` rounds toward zero and `x % y`
/// is what is left, with the sign of `x` and smaller than `y`; the one
/// quotient past `i32` wraps (`i32::MIN / -1` is `i32::MIN`, and
/// `i32::MIN % -1` is 0).
pub proof fn division_operators(ctx: Ctx, st: State, e: Expr, a: Box<Expr>, b: Box<Expr>, x: i32, y: i32)
    requires
        in_turn(ctx, st, *b, *a, SpecValue::Int(y), SpecValue::Int(x)),
    ensures
        (e.kind == ExprKind::Div(a, b) || e.kind == ExprKind::Mod(a, b)) && y == 0 ==> eval(
            ctx,
            st,
            e,
        ) == (Err::<SpecValue, RuntimeError>(RuntimeError::DivisionByZero), eval(ctx, st, *b).1),
        e.kind == ExprKind::Div(a, b) && y != 0 ==> ({
            let res = eval(ctx, st, e);
            &&& res.1 == after(ctx, st, *b, *a)
            &&& res.0 matches Ok(SpecValue::Int(q)) && (if x == i32::MIN && y == -1 {
            q == i32::MIN
        } else {
            let rem = x - q * y;
            &&& abs(rem) < abs(y as int)
            &&& x >= 0 ==> rem >= 0
            &&& x <= 0 ==> rem <= 0
        })
        }),
        e.kind == ExprKind::Mod(a, b) && y != 0 ==> ({
            let res = eval(ctx, st, e);
            &&& res.1 == after(ctx, st, *b, *a)
            &&& res.0 matches Ok(SpecValue::Int(r)) && (if x == i32::MIN && y == -1 {
            r == 0
        } else {
            &&& (x - r) % abs(y as int) == 0
            &&& abs(r as int) < abs(y as int)
            &&& x >= 0 ==> r >= 0
            &&& x <= 0 ==> r <= 0
        })
        }),
{
    if y != 0 {
        truncating_division(x as int, y as int);
        let q = trunc_div(x as int, y as int);
        let rem = trunc_rem(x as int, y as int);
        if !(x == i32::MIN && y == -1) {
            lemma_quotient_fits(x as int, y as int, q, rem);
            assert(div_wrapping(x, y) == q);
            assert(rem_wrapping(x, y) == rem);
            assert(x - rem == q * y);
            if y > 0 {
                vstd::arithmetic::div_mod::lemma_mod_multiples_basic(q, y as int);
            } else {
                assert(q * y == (-q) * (-y)) by (nonlinear_arith);
                vstd::arithmetic::div_mod::lemma_mod_multiples_basic(-q, -y);
            }
        } else {
            assert(trunc_div(x as int, y as int) == 0x8000_0000);
        }
    }
}

// ---------------------------------------------------------------------------
// String operators
/// `substring(s, pos, len)` takes the characters of `s` from the 1-based
/// position `pos` on, `len` of them or as many as are left; nothing when
/// `pos < 1`, `len <= 0` or `pos` lies past the end.
pub proof fn substring_takes_a_run(s: Seq<char>, pos: i32, len: i32)
    ensures
        ({
            let r = substring_spec(s, pos, len);
            let n = if pos < 1 || len <= 0 || pos > s.len() {
                0
            } else if pos - 1 + len <= s.len() {
                len as int
            } else {
                s.len() - pos + 1
            };
            &&& r.len() == n
            &&& forall|k: int| 0 <= k < r.len() ==> #[trigger] r[k] == s[pos - 1 + k]
        }),
{
}

/// `position`, `concatenate`, `=` and `<>` on two strings `x` and `y`,
/// evaluated in turn: the first occurrence of `y` in `x` (1-based, 0 when
/// there is none), the characters of both in order, and equality of length
/// and of every character.
pub proof fn string_operators(
    ctx: Ctx,
    st: State,
    e: Expr,
    a: Box<Expr>,
    b: Box<Expr>,
    x: Seq<char>,
    y: Seq<char>,
)
    requires
        in_turn(ctx, st, *a, *b, SpecValue::Str(x), SpecValue::Str(y)),
    ensures
        e.kind == ExprKind::Position(a, b) && x.len() < i32::MAX ==> ({
            let r = eval(ctx, st, e);
            &&& r.1 == after(ctx, st, *a, *b)
            &&& r.0 matches Ok(SpecValue::Int(p)) && (p == 0 <==> forall|j: int|
                0 <= j && j + y.len() <= x.len() ==> #[trigger] x.subrange(j, j + y.len()) != y) && (
            p != 0 ==> {
                &&& p - 1 + y.len() <= x.len()
                &&& x.subrange(p - 1, p - 1 + y.len()) == y
                &&& forall|j: int| 0 <= j < p - 1 ==> #[trigger] x.subrange(j, j + y.len()) != y
            })
        }),
        e.kind == ExprKind::Concatenate(a, b) ==> ({
            let r = eval(ctx, st, e);
            &&& r.1 == after(ctx, st, *a, *b)
            &&& r.0 matches Ok(SpecValue::Str(z)) && z.len() == x.len() + y.len() && (forall|i: int|
                0 <= i < x.len() ==> #[trigger] z[i] == x[i]) && (forall|j: int|
                0 <= j < y.len() ==> #[trigger] z[x.len() + j] == y[j])
        }),
        e.kind == ExprKind::Eq(a, b) ==> eval(ctx, st, e) == (
            Ok::<SpecValue, RuntimeError>(
                SpecValue::Bool(x.len() == y.len() && forall|i: int| 0 <= i < x.len() ==> x[i] == y[i]),
            ),
            after(ctx, st, *a, *b),
        ),
        e.kind == ExprKind::Neq(a, b) ==> eval(ctx, st, e) == (
            Ok::<SpecValue, RuntimeError>(
                SpecValue::Bool(!(x.len() == y.len() && forall|i: int| 0 <= i < x.len() ==> x[i] == y[i])),
            ),
            after(ctx, st, *a, *b),
        ),
{
    if x.len() < i32::MAX {
        position_is_first_occurrence(x, y);
    }
    equality_of_values(SpecValue::Str(x), SpecValue::Str(y));
}

/// `length(s)` counts the characters of the string `s` gives.
pub proof fn length_counts_characters(ctx: Ctx, st: State, e: Expr, a: Box<Expr>, x: Seq<char>)
    requires
        e.kind == ExprKind::Length(a),
        eval(ctx, st, *a).0 == Ok::<SpecValue, RuntimeError>(SpecValue::Str(x)),
        x.len() <= i32::MAX,
    ensures
        eval(ctx, st, e).1 == eval(ctx, st, *a).1,
        eval(ctx, st, e).0 matches Ok(SpecValue::Int(n)) && n == x.len(),
{
}

/// `substring(s, p, l)` evaluates `s`, `p` and `l` in turn and takes the
/// characters of the string from the 1-based position `p` on, `l` of them
/// or as many as are left.
pub proof fn substring_operator(
    ctx: Ctx,
    st: State,
    e: Expr,
    s: Box<Expr>,
    p: Box<Expr>,
    l: Box<Expr>,
    x: Seq<char>,
    pos: i32,
    len: i32,
)
    requires
        e.kind == ExprKind::Substring(s, p, l),
        in_turn(ctx, st, *s, *p, SpecValue::Str(x), SpecValue::Int(pos)),
        eval(ctx, after(ctx, st, *s, *p), *l).0 == Ok::<SpecValue, RuntimeError>(SpecValue::Int(len)),
    ensures
        eval(ctx, st, e).1 == eval(ctx, after(ctx, st, *s, *p), *l).1,
        eval(ctx, st, e).0 matches Ok(SpecValue::Str(r)) && r.len() == (if pos < 1 || len <= 0
            || pos > x.len() {
            0
        } else if pos - 1 + len <= x.len() {
            len as int
        } else {
            x.len() - pos + 1
        }) && forall|k: int| 0 <= k < r.len() ==> #[trigger] r[k] == x[pos - 1 + k],
{
    substring_takes_a_run(x, pos, len);
}

// ---------------------------------------------------------------------------
// Boolean operators
/// `not` negates; `and` gives false without evaluating `b` when `a` is
/// false, else what `b` gives; `or` gives true without evaluating `b` when
/// `a` is true, else what `b` gives (`w` here); `=` and `<>` compare the two.
pub proof fn boolean_operators(
    ctx: Ctx,
    st: State,
    e: Expr,
    a: Box<Expr>,
    b: Box<Expr>,
    v: bool,
    w: bool,
)
    requires
        eval(ctx, st, *a).0 == Ok::<SpecValue, RuntimeError>(SpecValue::Bool(v)),
    ensures
        e.kind == ExprKind::Not(a) ==> eval(ctx, st, e) == (
            Ok::<SpecValue, RuntimeError>(SpecValue::Bool(!v)),
            eval(ctx, st, *a).1,
        ),
        e.kind == ExprKind::And(a, b) && !v ==> eval(ctx, st, e) == (
            Ok::<SpecValue, RuntimeError>(SpecValue::Bool(false)),
            eval(ctx, st, *a).1,
        ),
        e.kind == ExprKind::Or(a, b) && v ==> eval(ctx, st, e) == (
            Ok::<SpecValue, RuntimeError>(SpecValue::Bool(true)),
            eval(ctx, st, *a).1,
        ),
        in_turn(ctx, st, *a, *b, SpecValue::Bool(v), SpecValue::Bool(w)) ==> {
                &&& e.kind == ExprKind::And(a, b) && v ==> eval(ctx, st, e) == (
                    Ok::<SpecValue, RuntimeError>(SpecValue::Bool(w)),
                    after(ctx, st, *a, *b),
                )
                &&& e.kind == ExprKind::Or(a, b) && !v ==> eval(ctx, st, e) == (
                    Ok::<SpecValue, RuntimeError>(SpecValue::Bool(w)),
                    after(ctx, st, *a, *b),
                )
                &&& e.kind == ExprKind::Eq(a, b) ==> eval(ctx, st, e) == (
                    Ok::<SpecValue, RuntimeError>(SpecValue::Bool(v == w)),
                    after(ctx, st, *a, *b),
                )
                &&& e.kind == ExprKind::Neq(a, b) ==> eval(ctx, st, e) == (
                    Ok::<SpecValue, RuntimeError>(SpecValue::Bool(v != w)),
                    after(ctx, st, *a, *b),
                )
            },
{
}

// ---------------------------------------------------------------------------
// Input
proof fn lemma_line_end(input: Seq<char>, pos: int)
    requires
        0 <= pos <= input.len(),
    ensures
        pos <= line_end(input, pos) <= input.len(),
        pos < input.len() ==> pos < line_end(input, pos),
        forall|k: int| pos <= k < line_end(input, pos) - 1 ==> #[trigger] input[k] != '\n',
        line_end(input, pos) < input.len() ==> input[line_end(input, pos) - 1] == '\n',
        line_end(input, pos) == input.len() && pos < input.len() ==> input[input.len() - 1] == '\n'
            || forall|k: int| pos <= k < input.len() ==> #[trigger] input[k] != '\n',
    decreases input.len() - pos,
{
    if pos < input.len() && input[pos] != '\n' {
        lemma_line_end(input, pos + 1);
    }
}

/// A read takes the input from the current position up to and including
/// the next line break, or to the end of the input when none follows;
/// nothing at the end of the input.
pub proof fn reads_take_one_line(input: Seq<char>, pos: int)
    requires
        0 <= pos <= input.len(),
    ensures
        ({
            let line = read_line(input, pos);
            &&& pos + line.len() <= input.len()
            &&& line == input.subrange(pos, pos + line.len())
            &&& pos < input.len() ==> line.len() > 0
            &&& forall|k: int| 0 <= k < line.len() - 1 ==> #[trigger] line[k] != '\n'
            &&& pos + line.len() < input.len() ==> line.last() == '\n'
            &&& pos + line.len() == input.len() && line.len() > 0 && line.last() != '\n'
                ==> forall|k: int| 0 <= k < line.len() ==> #[trigger] line[k] != '\n'
        }),
{
    lemma_line_end(input, pos);
    let line = read_line(input, pos);
    let end = line_end(input, pos);
    assert(line.len() == end - pos);
    assert(line =~= input.subrange(pos, pos + line.len()));
    if line.len() > 0 {
        assert(line.last() == input[end - 1]);
    }
    assert forall|k: int| 0 <= k < line.len() - 1 implies #[trigger] line[k] != '\n' by {
        assert(line[k] == input[pos + k]);
    }
    if pos + line.len() == input.len() && line.len() > 0 && line.last() != '\n' {
        assert forall|k: int| 0 <= k < line.len() implies #[trigger] line[k] != '\n' by {
            assert(line[k] == input[pos + k]);
        }
    }
}

/// `readint` gives 0 at the end of the input, and the integer written on
/// the line, white space around it aside, when there is one; `readbool`
/// gives true exactly when the trimmed line is `true`; `readstr` gives the
/// line without its final `\n` (and a `\r` before it, or a lone final
/// `\r`). Each moves the input position past the line.
pub proof fn reads(ctx: Ctx, st: State, e: Expr)
    requires
        0 <= st.pos <= ctx.input.len(),
    ensures
        ({
            let line = read_line(ctx.input, st.pos);
            let r = eval(ctx, st, e);
            &&& (e.kind is ReadInt || e.kind is ReadStr || e.kind is ReadBool) ==> r.1.pos == st.pos
                + line.len() && r.1.env == st.env && r.1.out == st.out
            &&& e.kind is ReadInt && line.len() == 0 ==> r.0 == Ok::<SpecValue, RuntimeError>(
                SpecValue::Int(0),
            )
            &&& forall|v: i32|
                e.kind is ReadInt && trim(line) == #[trigger] int_text(v as int) ==> r.0 == Ok::<
                    SpecValue,
                    RuntimeError,
                >(SpecValue::Int(v))
            &&& e.kind is ReadBool ==> r.0 == Ok::<SpecValue, RuntimeError>(
                SpecValue::Bool(trim(line) == seq!['t', 'r', 'u', 'e']),
            )
            &&& e.kind is ReadStr ==> (r.0 matches Ok(SpecValue::Str(t)) && {
                let tail = line.subrange(t.len() as int, line.len() as int);
                &&& t.len() <= line.len()
                &&& t == line.subrange(0, t.len() as int)
                &&& (tail == Seq::<char>::empty() || tail == seq!['\n'] || tail == seq!['\r']
                    || tail == seq!['\r', '\n'])
                &&& (line.len() >= 2 && line[line.len() - 2] == '\r' && line.last() == '\n') ==> tail
                    == seq!['\r', '\n']
                &&& (line.len() >= 1 && line.last() == '\n') ==> tail.len() >= 1
                &&& (line.len() >= 1 && line.last() == '\r') ==> tail == seq!['\r']
                &&& (line.len() == 0 || (line.last() != '\n' && line.last() != '\r')) ==> tail.len()
                    == 0
            })
        }),
{
    let line = read_line(ctx.input, st.pos);
    assert forall|v: i32|
        e.kind is ReadInt && trim(line) == #[trigger] int_text(v as int) implies eval(ctx, st, e).0
        == Ok::<SpecValue, RuntimeError>(SpecValue::Int(v)) by {
        readint_reads_printed_integers(line, v);
    }
    if e.kind is ReadStr {
        let t = eval(ctx, st, e).0->Ok_0->Str_0;
        let tail = line.subrange(t.len() as int, line.len() as int);
        if line.len() >= 2 && line[line.len() - 2] == '\r' && line.last() == '\n' {
            assert(tail =~= seq!['\r', '\n']);
        } else if line.len() >= 1 && line.last() == '\n' {
            assert(tail =~= seq!['\n']);
        } else if line.len() >= 1 && line.last() == '\r' {
            assert(tail =~= seq!['\r']);
        } else {
            assert(tail =~= Seq::<char>::empty());
        }
        assert(t =~= line.subrange(0, t.len() as int));
    }
}

// ---------------------------------------------------------------------------
// String literals and printing
/// In a string literal's body a character other than a backslash stands
/// for itself; a backslash and one of `" \ n t b f r /` stand for the
/// quote, the backslash, a line feed, a tab, a backspace, a form feed, a
/// carriage return and a slash; a backslash and any other character but
/// `u`, or a final lone backslash, stand for nothing. A literal stands for
/// its body between the quotes, and evaluates to what it stands for.
pub proof fn escapes(c: char, rest: Seq<char>, raw: Seq<char>, ctx: Ctx, st: State, e: Expr)
    ensures
        e.kind matches ExprKind::StringLit(lit) ==> eval(ctx, st, e) == (
            Ok::<SpecValue, RuntimeError>(SpecValue::Str(unescape(lit@))),
            st,
        ),
        c != '\\' ==> unescape_body(seq![c] + rest) == seq![c] + unescape_body(rest),
        unescape_body(seq!['\\']) == Seq::<char>::empty(),
        c == '"' ==> unescape_body(seq!['\\', c] + rest) == seq!['"'] + unescape_body(rest),
        c == '\\' ==> unescape_body(seq!['\\', c] + rest) == seq!['\\'] + unescape_body(rest),
        c == 'n' ==> unescape_body(seq!['\\', c] + rest) == seq!['\n'] + unescape_body(rest),
        c == 't' ==> unescape_body(seq!['\\', c] + rest) == seq!['\t'] + unescape_body(rest),
        c == 'b' ==> unescape_body(seq!['\\', c] + rest) == seq!['\u{8}'] + unescape_body(rest),
        c == 'f' ==> unescape_body(seq!['\\', c] + rest) == seq!['\u{c}'] + unescape_body(rest),
        c == 'r' ==> unescape_body(seq!['\\', c] + rest) == seq!['\r'] + unescape_body(rest),
        c == '/' ==> unescape_body(seq!['\\', c] + rest) == seq!['/'] + unescape_body(rest),
        !(c == '"' || c == '\\' || c == 'n' || c == 't' || c == 'b' || c == 'f' || c == 'r' || c
            == '/' || c == 'u') ==> unescape_body(seq!['\\', c] + rest) == unescape_body(rest),
        raw.len() >= 2 ==> unescape(raw) == unescape_body(raw.subrange(1, raw.len() - 1)),
{
    assert((seq![c] + rest).drop_first() =~= rest);
    assert((seq!['\\', c] + rest).skip(2) =~= rest);
}

proof fn lemma_nat_text_first(n: nat)
    ensures
        n > 0 ==> nat_text(n)[0] != '0',
        nat_text(n)[0] != '-' && nat_text(n)[0] != '+',
    decreases n,
{
    lemma_nat_text(n);
    assert(is_digit(nat_text(n)[0]));
    if n >= 10 {
        lemma_nat_text_first(n / 10);
        assert(nat_text(n)[0] == nat_text(n / 10)[0]);
    } else if n > 0 {
        lemma_digit_char(n as int);
    }
}

/// `print` appends to the output the text of the value: an integer in
/// decimal, with a minus sign exactly when negative and no leading zero,
/// that reads back as the same integer; a string as it is; a boolean as
/// `true` or `false`.
pub proof fn print_writes_value(ctx: Ctx, st: State, s: Statement, e: Box<Expr>, v: SpecValue)
    requires
        s.kind == StmtKind::Print(e),
        eval(ctx, st, *e).0 == Ok::<SpecValue, RuntimeError>(v),
    ensures
        ({
            let before = eval(ctx, st, *e).1;
            let r = exec(ctx, st, s);
            let t = value_text(v);
            &&& r.0 == Ok::<Flow, RuntimeError>(Flow::Normal)
            &&& r.1.env == before.env && r.1.pos == before.pos
            &&& r.1.out == before.out + t
            &&& v matches SpecValue::Str(x) ==> t == x
            &&& v matches SpecValue::Bool(b) ==> t == (if b {
                seq!['t', 'r', 'u', 'e']
            } else {
                seq!['f', 'a', 'l', 's', 'e']
            })
            &&& v matches SpecValue::Int(n) ==> {
                &&& parse_i32(t) == Some(n)
                &&& t.len() > 0
                &&& (t[0] == '-' <==> n < 0)
                &&& t[0] != '+'
                &&& n != 0 ==> t[0] != '0'
                &&& n < 0 ==> t.len() > 1 && t[1] != '0'
            }
        }),
{
    if let SpecValue::Int(n) = v {
        parse_reads_printed_integers(n);
        if n < 0 {
            let m = (-(n as int)) as nat;
            lemma_nat_text_first(m);
            lemma_nat_text(m);
            assert(int_text(n as int)[1] == nat_text(m)[0]);
        } else {
            lemma_nat_text_first(n as nat);
            lemma_nat_text(n as nat);
        }
    }
}

// ---------------------------------------------------------------------------
// Trimming
proof fn lemma_trim_front(s: Seq<char>)
    ensures
        trim_front(s).len() <= s.len(),
        trim_front(s) == s.subrange(s.len() - trim_front(s).len(), s.len() as int),
        forall|k: int| 0 <= k < s.len() - trim_front(s).len() ==> #[trigger] is_unicode_space(s[k]),
        trim_front(s).len() > 0 ==> !is_unicode_space(trim_front(s)[0]),
    decreases s.len(),
{
    if s.len() > 0 && is_unicode_space(s[0]) {
        lemma_trim_front(s.drop_first());
        assert forall|k: int| 0 <= k < s.len() - trim_front(s).len() implies #[trigger] is_unicode_space(
            s[k],
        ) by {
            if k > 0 {
                assert(s[k] == s.drop_first()[k - 1]);
            }
        }
        assert(s.drop_first().subrange(
            s.drop_first().len() - trim_front(s).len(),
            s.drop_first().len() as int,
        ) =~= s.subrange(s.len() - trim_front(s).len(), s.len() as int));
    } else {
        assert(s.subrange(0, s.len() as int) =~= s);
    }
}

proof fn lemma_trim_back(s: Seq<char>)
    ensures
        trim_back(s).len() <= s.len(),
        trim_back(s) == s.subrange(0, trim_back(s).len() as int),
        forall|k: int| trim_back(s).len() <= k < s.len() ==> #[trigger] is_unicode_space(s[k]),
        trim_back(s).len() > 0 ==> !is_unicode_space(trim_back(s).last()),
    decreases s.len(),
{
    if s.len() > 0 && is_unicode_space(s.last()) {
        lemma_trim_back(s.drop_last());
        assert forall|k: int| trim_back(s).len() <= k < s.len() implies #[trigger] is_unicode_space(
            s[k],
        ) by {
            if k < s.len() - 1 {
                assert(s[k] == s.drop_last()[k]);
            }
        }
        assert(s.drop_last().subrange(0, trim_back(s).len() as int) =~= s.subrange(
            0,
            trim_back(s).len() as int,
        ));
    } else {
        assert(s.subrange(0, s.len() as int) =~= s);
    }
}

/// `trim` keeps a contiguous run of `s` that neither starts nor ends with
/// white space, and everything it drops before and after is white space.
pub proof fn trim_drops_outer_space(s: Seq<char>)
    ensures
        ({
            let t = trim(s);
            exists|a: int|
                0 <= a && a + t.len() <= s.len() && #[trigger] s.subrange(a, a + t.len()) == t && (
                forall|k: int| 0 <= k < a ==> #[trigger] is_unicode_space(s[k])) && (forall|k: int|
                    a + t.len() <= k < s.len() ==> #[trigger] is_unicode_space(s[k]))
        }),
        trim(s).len() > 0 ==> !is_unicode_space(trim(s)[0]) && !is_unicode_space(trim(s).last()),
{
    let f = trim_front(s);
    lemma_trim_front(s);
    lemma_trim_back(f);
    let t = trim(s);
    let a = s.len() - f.len();
    assert(s.subrange(a, a + t.len()) =~= t) by {
        assert(t == f.subrange(0, t.len() as int));
    }
    assert forall|k: int| a + t.len() <= k < s.len() implies #[trigger] is_unicode_space(s[k]) by {
        assert(s[k] == f[k - a]);
    }
    if t.len() > 0 {
        assert(t[0] == f[0]);
        lemma_trim_front(s);
    }
}

// ---------------------------------------------------------------------------
// Statements
/// An assignment stores the value of its expression in the variable's
/// slot and changes nothing else.
pub proof fn assignment_stores(ctx: Ctx, st: State, s: Statement, id: String, e: Box<Expr>, v: SpecValue)
    requires
        s.kind == StmtKind::Assign(id, e),
        0 <= slot_of(ctx.names, id@) < ctx.types.len(),
        eval(ctx, st, *e).0 == Ok::<SpecValue, RuntimeError>(v),
        has_type(v, ctx.types[slot_of(ctx.names, id@)]),
    ensures
        ({
            let before = eval(ctx, st, *e).1;
            exec(ctx, st, s) == (
                Ok::<Flow, RuntimeError>(Flow::Normal),
                State { env: before.env.update(slot_of(ctx.names, id@), v), ..before },
            )
        }),
{
}

/// `if` runs the `then` branch when its condition holds; otherwise, with
/// no `elif`, the `else` branch or nothing; and when the first `elif`
/// condition holds instead, that branch.
pub proof fn if_chooses_branch(ctx: Ctx, st: State, s: Statement, c: bool)
    requires
        s.kind is If,
        eval(ctx, st, *s.kind->If_condition).0 == Ok::<SpecValue, RuntimeError>(SpecValue::Bool(c)),
    ensures
        ({
            let mid = eval(ctx, st, *s.kind->If_condition).1;
            let elifs = s.kind->If_elif_branches@;
            &&& c ==> exec(ctx, st, s) == exec(ctx, mid, *s.kind->If_then_branch)
            &&& !c && elifs.len() == 0 ==> exec(ctx, st, s) == match s.kind->If_else_branch {
                Some(b) => exec(ctx, mid, *b),
                None => (Ok::<Flow, RuntimeError>(Flow::Normal), mid),
            }
            &&& !c && elifs.len() > 0 && eval(ctx, mid, elifs[0].0).0 == Ok::<SpecValue, RuntimeError>(
                SpecValue::Bool(true),
            ) ==> exec(ctx, st, s) == exec(ctx, eval(ctx, mid, elifs[0].0).1, elifs[0].1)
        }),
{
    let mid = eval(ctx, st, *s.kind->If_condition).1;
    let elifs = s.kind->If_elif_branches@;
    if !c && elifs.len() == 0 {
        assert(crate::semantics::exec_elifs(ctx, mid, elifs, 0) == (
            Ok::<Option<Flow>, RuntimeError>(None),
            mid,
        ));
    }
    if !c && elifs.len() > 0 && eval(ctx, mid, elifs[0].0).0 == Ok::<SpecValue, RuntimeError>(
        SpecValue::Bool(true),
    ) {
        let r = exec(ctx, eval(ctx, mid, elifs[0].0).1, elifs[0].1);
        let re = crate::semantics::exec_elifs(ctx, mid, elifs, 0);
        match r.0 {
            Ok(flow) => {
                assert(re == (Ok::<Option<Flow>, RuntimeError>(Some(flow)), r.1));
            },
            Err(err) => {
                assert(re == (Err::<Option<Flow>, RuntimeError>(err), r.1));
            },
        }
    }
}

/// A block runs its statements in order: the first alone when it does not
/// end normally, else the rest after it; `break`, `continue` and `exit`
/// hand back their flow and change nothing.
pub proof fn blocks_and_jumps(ctx: Ctx, st: State, s: Statement)
    ensures
        s.kind is Break ==> exec(ctx, st, s) == (Ok::<Flow, RuntimeError>(Flow::Break), st),
        s.kind is Continue ==> exec(ctx, st, s) == (Ok::<Flow, RuntimeError>(Flow::Continue), st),
        s.kind is Exit ==> exec(ctx, st, s) == (Ok::<Flow, RuntimeError>(Flow::Exit), st),
        s.kind is Block && s.kind->Block_0@.len() == 0 ==> exec(ctx, st, s) == (
            Ok::<Flow, RuntimeError>(Flow::Normal),
            st,
        ),
        s.kind is Block && s.kind->Block_0@.len() == 1 ==> exec(ctx, st, s) == exec(
            ctx,
            st,
            s.kind->Block_0@[0],
        ),
        s.kind is Block && s.kind->Block_0@.len() == 2 ==> exec(ctx, st, s) == (if exec(
            ctx,
            st,
            s.kind->Block_0@[0],
        ).0 == Ok::<Flow, RuntimeError>(Flow::Normal) {
            exec(ctx, exec(ctx, st, s.kind->Block_0@[0]).1, s.kind->Block_0@[1])
        } else {
            exec(ctx, st, s.kind->Block_0@[0])
        }),
{
    if let StmtKind::Block(b) = s.kind {
        let stmts = b@;
        assert(exec(ctx, st, s) == crate::semantics::exec_block(ctx, st, stmts, 0));
        if stmts.len() == 0 {
            assert(crate::semantics::exec_block(ctx, st, stmts, 0) == (
                Ok::<Flow, RuntimeError>(Flow::Normal),
                st,
            ));
        }
        if stmts.len() >= 1 {
            let r = exec(ctx, st, stmts[0]);
            if r.0 == Ok::<Flow, RuntimeError>(Flow::Normal) {
                if stmts.len() == 1 {
                    assert(crate::semantics::exec_block(ctx, r.1, stmts, 1) == (
                        Ok::<Flow, RuntimeError>(Flow::Normal),
                        r.1,
                    ));
                } else if stmts.len() == 2 {
                    let r2 = exec(ctx, r.1, stmts[1]);
                    let rest = crate::semantics::exec_block(ctx, r.1, stmts, 1);
                    if r2.0 == Ok::<Flow, RuntimeError>(Flow::Normal) {
                        assert(crate::semantics::exec_block(ctx, r2.1, stmts, 2) == (
                            Ok::<Flow, RuntimeError>(Flow::Normal),
                            r2.1,
                        ));
                    }
                    assert(rest == r2);
                }
            }
        }
    }
}

/// A round of a `for` loop stores the counter `cur` and runs the body:
/// `break` ends the loop normally with the counter at `cur`, `exit` and an
/// error end it with what the body left.
pub proof fn loop_round_ends(ctx: Ctx, st: State, i: int, cur: i32, hi: i32, body: Statement)
    requires
        cur <= hi,
    ensures
        ({
            let r = exec(ctx, State { env: st.env.update(i, SpecValue::Int(cur)), ..st }, body);
            &&& r.0 == Ok::<Flow, RuntimeError>(Flow::Break) ==> for_loop(ctx, st, i, cur, hi, body)
                == (
                Ok::<Flow, RuntimeError>(Flow::Normal),
                State { env: r.1.env.update(i, SpecValue::Int(cur)), ..r.1 },
            )
            &&& r.0 == Ok::<Flow, RuntimeError>(Flow::Exit) ==> for_loop(ctx, st, i, cur, hi, body) == r
            &&& r.0 is Err ==> for_loop(ctx, st, i, cur, hi, body) == r
        }),
{
}

/// The program's instructions run in order: `exit` ends the run without
/// running the rest, an error stops it, and any other flow goes on with
/// the next instruction.
pub proof fn instructions_run_in_order(ctx: Ctx, st: State, stmts: Seq<Statement>, i: int)
    requires
        0 <= i < stmts.len(),
    ensures
        ({
            let r = exec(ctx, st, stmts[i]);
            &&& r.0 == Ok::<Flow, RuntimeError>(Flow::Exit) ==> run_from(ctx, st, stmts, i) == (
                Ok::<(), RuntimeError>(()),
                r.1,
            )
            &&& r.0 matches Err(err) ==> run_from(ctx, st, stmts, i) == (
                Err::<(), RuntimeError>(err),
                r.1,
            )
            &&& (r.0 == Ok::<Flow, RuntimeError>(Flow::Normal) || r.0 == Ok::<Flow, RuntimeError>(
                Flow::Break,
            ) || r.0 == Ok::<Flow, RuntimeError>(Flow::Continue)) ==> run_from(ctx, st, stmts, i)
                == run_from(ctx, r.1, stmts, i + 1)
        }),
{
}

// ---------------------------------------------------------------------------
// Decimal notation
/// Decimal digits are positional: a digit appended on the right multiplies
/// what comes before by ten and adds its own worth, `0` to `9`; the text of
/// a number ends with the digit of its remainder by ten, after the text of
/// its tenth.
pub proof fn decimal_is_positional(s: Seq<char>, c: char, n: nat)
    ensures
        digits_value(Seq::<char>::empty()) == 0,
        is_digit(c) ==> digits_value(s.push(c)) == 10 * digits_value(s) + (c as int - '0' as int),
        is_digit(c) <==> '0' <= c <= '9',
        nat_text(n).last() as int - '0' as int == n % 10,
        n >= 10 ==> nat_text(n).drop_last() == nat_text(n / 10),
        n < 10 ==> nat_text(n).len() == 1,
{
    assert(s.push(c).drop_last() =~= s);
    lemma_digit_char((n % 10) as int);
    if n >= 10 {
        assert((nat_text(n / 10) + seq![digit_char((n % 10) as int)]).drop_last() =~= nat_text(
            n / 10,
        ));
    } else {
        lemma_digit_char(n as int);
    }
}

// ---------------------------------------------------------------------------
// Longest match in the lexer
proof fn lemma_ident_end(s: Seq<char>, i: int)
    requires
        0 <= i <= s.len(),
    ensures
        i <= ident_end(s, i) <= s.len(),
        forall|k: int| i <= k < ident_end(s, i) ==> #[trigger] is_ident_char(s[k]),
        ident_end(s, i) < s.len() ==> !is_ident_char(s[ident_end(s, i)]),
    decreases s.len() - i,
{
    if i < s.len() && is_ident_char(s[i]) {
        lemma_ident_end(s, i + 1);
    }
}

proof fn lemma_digits_end(s: Seq<char>, i: int)
    requires
        0 <= i <= s.len(),
    ensures
        i <= digits_end(s, i) <= s.len(),
        forall|k: int| i <= k < digits_end(s, i) ==> #[trigger] is_digit(s[k]),
        digits_end(s, i) < s.len() ==> !is_digit(s[digits_end(s, i)]),
    decreases s.len() - i,
{
    if i < s.len() && is_digit(s[i]) {
        lemma_digits_end(s, i + 1);
    }
}

/// Names and numbers are read as far as their characters go: at a letter
/// or `_` the lexer takes the whole run of letters, digits and `_` that
/// follows; at a digit, the whole run of digits, a valid token exactly when
/// it reads as an `i32`.
pub proof fn longest_match(s: Seq<char>, i: int)
    requires
        0 <= i < s.len(),
    ensures
        is_ident_start(s[i]) ==> ({
            let e = scan_at(s, i).1;
            &&& scan_at(s, i).0
            &&& i < e <= s.len()
            &&& forall|k: int| i <= k < e ==> #[trigger] is_ident_char(s[k])
            &&& e < s.len() ==> !is_ident_char(s[e])
        }),
        is_digit(s[i]) ==> ({
            let e = scan_at(s, i).1;
            &&& i < e <= s.len()
            &&& forall|k: int| i <= k < e ==> #[trigger] is_digit(s[k])
            &&& e < s.len() ==> !is_digit(s[e])
            &&& scan_at(s, i).0 == parse_i32(s.subrange(i, e)) is Some
        }),
{
    lemma_ident_end(s, i);
    lemma_digits_end(s, i);
}

} // verus!
