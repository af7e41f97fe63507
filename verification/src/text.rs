//! Character-level text helpers shared by the lexer and the interpreter:
//! whitespace trimming, decimal integers in both directions, escape decoding
//! and UTF-8 widths.
use vstd::prelude::*;

verus! {

/// Unicode `White_Space`, the set that `char::is_whitespace` and `str::trim` use.
pub open spec fn is_unicode_space(c: char) -> bool {
    let u = c as u32;
    ||| (0x09 <= u && u <= 0x0D)
    ||| u == 0x20
    ||| u == 0x85
    ||| u == 0xA0
    ||| u == 0x1680
    ||| (0x2000 <= u && u <= 0x200A)
    ||| u == 0x2028
    ||| u == 0x2029
    ||| u == 0x202F
    ||| u == 0x205F
    ||| u == 0x3000
}

pub fn is_space_char(c: char) -> (r: bool)
    ensures
        r == is_unicode_space(c),
{
    let u = c as u32;
    (0x09 <= u && u <= 0x0D) || u == 0x20 || u == 0x85 || u == 0xA0 || u == 0x1680 || (0x2000
        <= u && u <= 0x200A) || u == 0x2028 || u == 0x2029 || u == 0x202F || u == 0x205F || u
        == 0x3000
}

/// `s` without its leading white space.
pub open spec fn trim_front(s: Seq<char>) -> Seq<char>
    decreases s.len(),
{
    if s.len() > 0 && is_unicode_space(s[0]) {
        trim_front(s.drop_first())
    } else {
        s
    }
}

/// `s` without its trailing white space.
pub open spec fn trim_back(s: Seq<char>) -> Seq<char>
    decreases s.len(),
{
    if s.len() > 0 && is_unicode_space(s.last()) {
        trim_back(s.drop_last())
    } else {
        s
    }
}

/// What `str::trim` leaves of `s`.
pub open spec fn trim(s: Seq<char>) -> Seq<char> {
    trim_back(trim_front(s))
}

/// The bounds `(a, b)` of `trim(s[lo..hi])` within `s`.
pub fn trim_bounds(s: &Vec<char>, lo: usize, hi: usize) -> (r: (usize, usize))
    requires
        lo <= hi <= s@.len(),
    ensures
        lo <= r.0 <= r.1 <= hi,
        s@.subrange(r.0 as int, r.1 as int) == trim(s@.subrange(lo as int, hi as int)),
{
    let mut a = lo;
    while a < hi && is_space_char(s[a])
        invariant
            lo <= a <= hi <= s@.len(),
            trim_front(s@.subrange(lo as int, hi as int)) == trim_front(
                s@.subrange(a as int, hi as int),
            ),
        decreases hi - a,
    {
        assert(s@.subrange(a as int, hi as int).drop_first() =~= s@.subrange(a + 1, hi as int));
        a = a + 1;
    }
    let mut b = hi;
    while b > a && is_space_char(s[b - 1])
        invariant
            lo <= a <= b <= hi <= s@.len(),
            trim_back(s@.subrange(a as int, hi as int)) == trim_back(
                s@.subrange(a as int, b as int),
            ),
        decreases b - a,
    {
        assert(s@.subrange(a as int, b as int).drop_last() =~= s@.subrange(a as int, b - 1));
        b = b - 1;
    }
    (a, b)
}

pub open spec fn is_digit(c: char) -> bool {
    '0' <= c && c <= '9'
}

pub open spec fn digit_value(c: char) -> int {
    (c as int) - ('0' as int)
}

pub open spec fn all_digits(s: Seq<char>) -> bool {
    forall|i: int| 0 <= i < s.len() ==> #[trigger] is_digit(s[i])
}

/// The number that the decimal digits `s` write.
pub open spec fn digits_value(s: Seq<char>) -> int
    decreases s.len(),
{
    if s.len() == 0 {
        0
    } else {
        digits_value(s.drop_last()) * 10 + digit_value(s.last())
    }
}

/// What `str::parse::<i32>` gives for `s`: an optional sign, then at least one
/// decimal digit, and a value within the range of `i32`.
pub open spec fn parse_i32(s: Seq<char>) -> Option<i32> {
    let signed = s.len() > 0 && (s[0] == '-' || s[0] == '+');
    let body = if signed {
        s.drop_first()
    } else {
        s
    };
    let v = if s.len() > 0 && s[0] == '-' {
        -digits_value(body)
    } else {
        digits_value(body)
    };
    if body.len() == 0 || !all_digits(body) {
        None
    } else if i32::MIN <= v <= i32::MAX {
        Some(v as i32)
    } else {
        None
    }
}

pub(crate) proof fn lemma_digits_value_nonneg(s: Seq<char>)
    requires
        all_digits(s),
    ensures
        digits_value(s) >= 0,
    decreases s.len(),
{
    if s.len() > 0 {
        assert(is_digit(s[s.len() - 1]));
        assert(all_digits(s.drop_last()));
        lemma_digits_value_nonneg(s.drop_last());
    }
}

/// `parse_i32(s[lo..hi])`.
pub fn parse_i32_range(s: &Vec<char>, lo: usize, hi: usize) -> (r: Option<i32>)
    requires
        lo <= hi <= s@.len(),
    ensures
        r == parse_i32(s@.subrange(lo as int, hi as int)),
{
    let ghost t = s@.subrange(lo as int, hi as int);
    let negative = lo < hi && s[lo] == '-';
    let start = if lo < hi && (s[lo] == '-' || s[lo] == '+') {
        lo + 1
    } else {
        lo
    };
    let ghost body = s@.subrange(start as int, hi as int);
    assert(body =~= (if t.len() > 0 && (t[0] == '-' || t[0] == '+') {
        t.drop_first()
    } else {
        t
    }));
    if start == hi {
        return None;
    }
    // The value is tracked up to 2^31; past that it no longer fits in `i32`.
    let mut acc: u64 = 0;
    let mut too_big = false;
    let mut i = start;
    while i < hi
        invariant
            lo <= start <= i <= hi <= s@.len(),
            body == s@.subrange(start as int, hi as int),
            t == s@.subrange(lo as int, hi as int),
            body == (if t.len() > 0 && (t[0] == '-' || t[0] == '+') {
                t.drop_first()
            } else {
                t
            }),
            body.len() > 0,
            negative == (t.len() > 0 && t[0] == '-'),
            all_digits(s@.subrange(start as int, i as int)),
            !too_big ==> acc == digits_value(s@.subrange(start as int, i as int)),
            !too_big ==> acc <= 0x8000_0000,
            too_big ==> digits_value(s@.subrange(start as int, i as int)) > 0x8000_0000,
        decreases hi - i,
    {
        let c = s[i];
        if !('0' <= c && c <= '9') {
            assert(body[i - start] == c);
            assert(!is_digit(body[i - start]));
            assert(!all_digits(body));
            return None;
        }
        let ghost prev = s@.subrange(start as int, i as int);
        let ghost next = s@.subrange(start as int, i + 1);
        assert(next.drop_last() =~= prev);
        assert(next.last() == c);
        assert(all_digits(next));
        proof {
            lemma_digits_value_nonneg(prev);
        }
        if !too_big {
            let d = (c as u32 - '0' as u32) as u64;
            let v = acc * 10 + d;
            if v > 0x8000_0000 {
                too_big = true;
            } else {
                acc = v;
            }
        }
        i = i + 1;
    }
    assert(s@.subrange(start as int, hi as int) =~= body);
    if too_big {
        None
    } else if negative {
        Some((0 - (acc as i64)) as i32)
    } else if acc <= 0x7fff_ffff {
        Some(acc as i32)
    } else {
        None
    }
}

pub open spec fn digit_char(d: int) -> char {
    ((d + 48) as u8) as char
}

/// The decimal digits of `n`, most significant first.
pub open spec fn nat_text(n: nat) -> Seq<char>
    decreases n,
{
    if n < 10 {
        seq![digit_char(n as int)]
    } else {
        nat_text(n / 10) + seq![digit_char((n % 10) as int)]
    }
}

/// How `{}` formats an integer: its decimal digits, after a minus sign when negative.
pub open spec fn int_text(n: int) -> Seq<char> {
    if n < 0 {
        seq!['-'] + nat_text((-n) as nat)
    } else {
        nat_text(n as nat)
    }
}

pub fn push_nat_text(out: &mut Vec<char>, n: u64)
    ensures
        final(out)@ == old(out)@ + nat_text(n as nat),
    decreases n,
{
    if n >= 10 {
        push_nat_text(out, n / 10);
    }
    let d = (n % 10) as u8;
    out.push((d + 48) as char);
    assert(out@ =~= old(out)@ + nat_text(n as nat));
}

/// Appends the decimal text of `n` to `out`.
pub fn push_int_text(out: &mut Vec<char>, n: i32)
    ensures
        final(out)@ == old(out)@ + int_text(n as int),
{
    if n < 0 {
        out.push('-');
        let m = (0 - (n as i64)) as u64;
        push_nat_text(out, m);
        assert(out@ =~= old(out)@ + int_text(n as int));
    } else {
        push_nat_text(out, n as u64);
    }
}

/// Appends the characters of `s` to `out`.
pub fn push_all(out: &mut Vec<char>, s: &Vec<char>)
    ensures
        final(out)@ == old(out)@ + s@,
{
    let mut i: usize = 0;
    while i < s.len()
        invariant
            i <= s@.len(),
            out@ == old(out)@ + s@.subrange(0, i as int),
        decreases s@.len() - i,
    {
        out.push(s[i]);
        i = i + 1;
        assert(out@ =~= old(out)@ + s@.subrange(0, i as int));
    }
    assert(s@.subrange(0, s@.len() as int) =~= s@);
}


pub open spec fn is_hex(c: char) -> bool {
    ('0' <= c && c <= '9') || ('a' <= c && c <= 'f') || ('A' <= c && c <= 'F')
}

pub open spec fn hex_value(c: char) -> int {
    if '0' <= c && c <= '9' {
        (c as int) - ('0' as int)
    } else if 'a' <= c && c <= 'f' {
        (c as int) - ('a' as int) + 10
    } else {
        (c as int) - ('A' as int) + 10
    }
}

pub open spec fn all_hex(s: Seq<char>) -> bool {
    forall|i: int| 0 <= i < s.len() ==> #[trigger] is_hex(s[i])
}

/// The number that the hexadecimal digits `s` write.
pub open spec fn hex_digits_value(s: Seq<char>) -> int
    decreases s.len(),
{
    if s.len() == 0 {
        0
    } else {
        hex_digits_value(s.drop_last()) * 16 + hex_value(s.last())
    }
}

/// What `u32::from_str_radix(code, 16)` gives for a code of at most four
/// characters: an optional `+`, then at least one hexadecimal digit.
pub open spec fn parse_hex(code: Seq<char>) -> Option<u32> {
    let body = if code.len() > 0 && code[0] == '+' {
        code.drop_first()
    } else {
        code
    };
    if body.len() == 0 || !all_hex(body) {
        None
    } else {
        Some(hex_digits_value(body) as u32)
    }
}

/// What `char::from_u32` gives: the scalar value `v` when there is one.
pub open spec fn scalar_of(v: u32) -> Option<char> {
    if v <= 0x10FFFF && !(0xD800 <= v && v <= 0xDFFF) {
        Some(v as char)
    } else {
        None
    }
}

/// `char::from_u32`, which the documentation describes as returning
/// `Some` exactly for the Unicode scalar values, that is, `v` at most
/// `0x10FFFF` and outside the surrogate range `0xD800..=0xDFFF`.
#[verifier::external_body]
fn char_from_u32(v: u32) -> (r: Option<char>)
    ensures
        r == scalar_of(v),
{
    char::from_u32(v)
}

proof fn lemma_hex_digits_value_bound(s: Seq<char>)
    requires
        all_hex(s),
    ensures
        0 <= hex_digits_value(s) < pow16(s.len()),
    decreases s.len(),
{
    if s.len() > 0 {
        assert(is_hex(s[s.len() - 1]));
        assert(all_hex(s.drop_last()));
        lemma_hex_digits_value_bound(s.drop_last());
    }
}

pub open spec fn pow16(n: nat) -> int
    decreases n,
{
    if n == 0 {
        1
    } else {
        16 * pow16((n - 1) as nat)
    }
}

/// `parse_hex(s[lo..hi])`.
fn parse_hex_range(s: &Vec<char>, lo: usize, hi: usize) -> (r: Option<u32>)
    requires
        lo <= hi <= s@.len(),
        hi - lo <= 4,
    ensures
        r == parse_hex(s@.subrange(lo as int, hi as int)),
{
    let ghost code = s@.subrange(lo as int, hi as int);
    let start = if lo < hi && s[lo] == '+' {
        lo + 1
    } else {
        lo
    };
    let ghost body = s@.subrange(start as int, hi as int);
    assert(body =~= (if code.len() > 0 && code[0] == '+' {
        code.drop_first()
    } else {
        code
    }));
    if start == hi {
        return None;
    }
    let mut acc: u32 = 0;
    let mut i = start;
    while i < hi
        invariant
            lo <= start <= i <= hi <= s@.len(),
            hi - lo <= 4,
            body == s@.subrange(start as int, hi as int),
            code == s@.subrange(lo as int, hi as int),
            body == (if code.len() > 0 && code[0] == '+' {
                code.drop_first()
            } else {
                code
            }),
            body.len() > 0,
            all_hex(s@.subrange(start as int, i as int)),
            acc == hex_digits_value(s@.subrange(start as int, i as int)),
            acc < pow16((i - start) as nat),
        decreases hi - i,
    {
        let c = s[i];
        let d: u32 = if '0' <= c && c <= '9' {
            c as u32 - '0' as u32
        } else if 'a' <= c && c <= 'f' {
            c as u32 - 'a' as u32 + 10
        } else if 'A' <= c && c <= 'F' {
            c as u32 - 'A' as u32 + 10
        } else {
            assert(body[i - start] == c);
            assert(!is_hex(body[i - start]));
            assert(!all_hex(body));
            return None;
        };
        let ghost prev = s@.subrange(start as int, i as int);
        let ghost next = s@.subrange(start as int, i + 1);
        assert(next.drop_last() =~= prev);
        assert(next.last() == c);
        assert(all_hex(next));
        assert(pow16((i + 1 - start) as nat) == 16 * pow16((i - start) as nat));
        assert(pow16((i - start) as nat) <= 4096) by {
            assert(pow16(0) == 1);
            assert(pow16(1) == 16);
            assert(pow16(2) == 256);
            assert(pow16(3) == 4096);
        }
        acc = acc * 16 + d;
        i = i + 1;
    }
    Some(acc)
}

/// The character that a simple escape `\e` stands for.
pub open spec fn simple_escape(e: char) -> Option<char> {
    if e == '"' {
        Some('"')
    } else if e == '\\' {
        Some('\\')
    } else if e == 'n' {
        Some('\n')
    } else if e == 't' {
        Some('\t')
    } else if e == 'b' {
        Some('\u{8}')
    } else if e == 'f' {
        Some('\u{c}')
    } else if e == 'r' {
        Some('\r')
    } else if e == '/' {
        Some('/')
    } else {
        None
    }
}

fn simple_escape_exec(e: char) -> (r: Option<char>)
    ensures
        r == simple_escape(e),
{
    if e == '"' {
        Some('"')
    } else if e == '\\' {
        Some('\\')
    } else if e == 'n' {
        Some('\n')
    } else if e == 't' {
        Some('\t')
    } else if e == 'b' {
        Some('\u{8}')
    } else if e == 'f' {
        Some('\u{c}')
    } else if e == 'r' {
        Some('\r')
    } else if e == '/' {
        Some('/')
    } else {
        None
    }
}

/// The text that the body of a string literal stands for: each escape is
/// replaced by its character; `\u` takes the next four characters (fewer at
/// the end) as a hexadecimal code; an unknown escape, a code that is not a
/// scalar value and a final lone backslash stand for nothing.
pub open spec fn unescape_body(s: Seq<char>) -> Seq<char>
    decreases s.len(),
{
    if s.len() == 0 {
        seq![]
    } else if s[0] != '\\' {
        seq![s[0]] + unescape_body(s.drop_first())
    } else if s.len() == 1 {
        seq![]
    } else if s[1] == 'u' {
        let n: int = if s.len() - 2 < 4 {
            s.len() - 2
        } else {
            4
        };
        let tail = unescape_body(s.skip(2 + n));
        match parse_hex(s.subrange(2, 2 + n)) {
            Some(v) => match scalar_of(v) {
                Some(ch) => seq![ch] + tail,
                None => tail,
            },
            None => tail,
        }
    } else {
        let tail = unescape_body(s.skip(2));
        match simple_escape(s[1]) {
            Some(ch) => seq![ch] + tail,
            None => tail,
        }
    }
}

/// A literal whose first and last characters can be cut off: at least two
/// characters, the outer ones ASCII.
pub open spec fn literal_ok(raw: Seq<char>) -> bool {
    &&& raw.len() >= 2
    &&& (raw[0] as u32) < 128
    &&& (raw.last() as u32) < 128
}

/// The text that a string literal, quotes included, stands for.
pub open spec fn unescape(raw: Seq<char>) -> Seq<char> {
    unescape_body(raw.subrange(1, raw.len() - 1))
}

/// The text that the string literal `raw` stands for.
pub fn unescape_string(raw: &str) -> (r: Vec<char>)
    requires
        literal_ok(raw@),
    ensures
        r@ == unescape(raw@),
{
    let s = chars_of(raw);
    let end = s.len() - 1;
    let mut out: Vec<char> = Vec::new();
    let mut i: usize = 1;
    while i < end
        invariant
            s@ == raw@,
            end == s@.len() - 1,
            1 <= i <= end + 2,
            i <= end ==> out@ + unescape_body(s@.subrange(i as int, end as int)) == unescape(
                raw@,
            ),
            i > end ==> out@ == unescape(raw@),
        decreases end + 2 - i,
    {
        let ghost rest = s@.subrange(i as int, end as int);
        let c = s[i];
        if c != '\\' {
            assert(rest.drop_first() =~= s@.subrange(i + 1, end as int));
            out.push(c);
            i = i + 1;
            assert(out@ + unescape_body(s@.subrange(i as int, end as int)) =~= unescape(raw@));
        } else if i + 1 == end {
            assert(unescape_body(rest) =~= Seq::<char>::empty());
            assert(out@ =~= unescape(raw@));
            i = i + 2;
        } else {
            let e = s[i + 1];
            if e == 'u' {
                let n: usize = if end - (i + 2) < 4 {
                    end - (i + 2)
                } else {
                    4
                };
                assert(rest.subrange(2, 2 + n as int) =~= s@.subrange(i + 2, i + 2 + n));
                assert(rest.skip(2 + n as int) =~= s@.subrange(i + 2 + n, end as int));
                match parse_hex_range(&s, i + 2, i + 2 + n) {
                    Some(v) => match char_from_u32(v) {
                        Some(ch) => {
                            out.push(ch);
                        },
                        None => {},
                    },
                    None => {},
                }
                i = i + 2 + n;
            } else {
                assert(rest.skip(2) =~= s@.subrange(i + 2, end as int));
                match simple_escape_exec(e) {
                    Some(ch) => {
                        out.push(ch);
                    },
                    None => {},
                }
                i = i + 2;
            }
            assert(out@ + unescape_body(s@.subrange(i as int, end as int)) =~= unescape(raw@));
        }
    }
    if i == end {
        assert(s@.subrange(i as int, end as int) =~= Seq::<char>::empty());
        assert(out@ =~= unescape(raw@));
    }
    out
}

/// `String::push`, which appends `c` to `s`.
#[verifier::external_body]
fn string_push(s: &mut String, c: char)
    ensures
        final(s)@ == old(s)@.push(c),
{
    s.push(c);
}

/// The text of `v[lo..hi]` as a `String`.
pub fn string_of_range(v: &Vec<char>, lo: usize, hi: usize) -> (r: String)
    requires
        lo <= hi <= v@.len(),
    ensures
        r@ == v@.subrange(lo as int, hi as int),
{
    let mut s = String::new();
    let mut i: usize = lo;
    while i < hi
        invariant
            lo <= i <= hi <= v@.len(),
            s@ == v@.subrange(lo as int, i as int),
        decreases hi - i,
    {
        string_push(&mut s, v[i]);
        i = i + 1;
        assert(s@ =~= v@.subrange(lo as int, i as int));
    }
    s
}

/// The text of `v` as a `String`.
pub fn string_of(v: &Vec<char>) -> (r: String)
    ensures
        r@ == v@,
{
    let r = string_of_range(v, 0, v.len());
    assert(v@.subrange(0, v@.len() as int) =~= v@);
    r
}

/// The characters of `s`.
pub fn chars_of(s: &str) -> (r: Vec<char>)
    ensures
        r@ == s@,
{
    let mut out: Vec<char> = Vec::new();
    for c in it: s.chars()
        invariant
            it.seq() == s@,
            out@ == s@.take(it.index() as int),
    {
        out.push(c);
    }
    assert(out@ =~= s@);
    out
}

} // verus!
