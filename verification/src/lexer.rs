//! The lexer: splits source text into tokens, longest match first, with
//! each token's byte range in the source.
use crate::text::{
    all_digits, chars_of, int_text, is_digit, nat_text, parse_i32, parse_i32_range, push_all,
    push_int_text, push_nat_text, string_of, string_of_range,
};
use std::ops::Range;
use vstd::prelude::*;
use vstd::utf8::encode_utf8;

verus! {

#[derive(Debug, PartialEq, Clone)]
pub enum Token {
    And,
    Or,
    Not,
    True,
    False,
    If,
    Then,
    Elif,
    Else,
    For,
    To,
    Do,
    Break,
    Continue,
    Begin,
    End,
    Exit,
    Print,
    ReadInt,
    ReadStr,
    ReadBool,
    Substring,
    Length,
    Position,
    Concatenate,
    TypeString,
    TypeInteger,
    TypeBoolean,
    Plus,
    Minus,
    Star,
    Slash,
    Percent,
    LParen,
    RParen,
    Semicolon,
    Comma,
    Assign,
    NumEq,
    Less,
    LessEq,
    Greater,
    GreaterEq,
    NumNeq,
    StrEq,
    StrNeq,
    Num(i32),
    /// The literal as written, quotes and escapes included.
    StringLit(String),
    Ident(String),
}

#[derive(Debug, PartialEq)]
pub enum LexicalError {
    /// No token starts with the text in this byte range.
    InvalidToken(Range<usize>),
}

/// The name of a token's kind, as `{:?}` writes it.
pub open spec fn token_name(t: Token) -> Seq<char> {
    match t {
        Token::And => "And"@,
        Token::Or => "Or"@,
        Token::Not => "Not"@,
        Token::True => "True"@,
        Token::False => "False"@,
        Token::If => "If"@,
        Token::Then => "Then"@,
        Token::Elif => "Elif"@,
        Token::Else => "Else"@,
        Token::For => "For"@,
        Token::To => "To"@,
        Token::Do => "Do"@,
        Token::Break => "Break"@,
        Token::Continue => "Continue"@,
        Token::Begin => "Begin"@,
        Token::End => "End"@,
        Token::Exit => "Exit"@,
        Token::Print => "Print"@,
        Token::ReadInt => "ReadInt"@,
        Token::ReadStr => "ReadStr"@,
        Token::ReadBool => "ReadBool"@,
        Token::Substring => "Substring"@,
        Token::Length => "Length"@,
        Token::Position => "Position"@,
        Token::Concatenate => "Concatenate"@,
        Token::TypeString => "TypeString"@,
        Token::TypeInteger => "TypeInteger"@,
        Token::TypeBoolean => "TypeBoolean"@,
        Token::Plus => "Plus"@,
        Token::Minus => "Minus"@,
        Token::Star => "Star"@,
        Token::Slash => "Slash"@,
        Token::Percent => "Percent"@,
        Token::LParen => "LParen"@,
        Token::RParen => "RParen"@,
        Token::Semicolon => "Semicolon"@,
        Token::Comma => "Comma"@,
        Token::Assign => "Assign"@,
        Token::NumEq => "NumEq"@,
        Token::Less => "Less"@,
        Token::LessEq => "LessEq"@,
        Token::Greater => "Greater"@,
        Token::GreaterEq => "GreaterEq"@,
        Token::NumNeq => "NumNeq"@,
        Token::StrEq => "StrEq"@,
        Token::StrNeq => "StrNeq"@,
        Token::Num(_) => "Num"@,
        Token::StringLit(_) => "StringLit"@,
        Token::Ident(_) => "Ident"@,
    }
}

/// How a token is shown: its kind's name, with the payload in parentheses
/// for numbers, string literals and identifiers.
pub open spec fn token_text(t: Token) -> Seq<char> {
    match t {
        Token::Num(n) => token_name(t) + seq!['('] + int_text(n as int) + seq![')'],
        Token::StringLit(x) => token_name(t) + seq!['('] + x@ + seq![')'],
        Token::Ident(x) => token_name(t) + seq!['('] + x@ + seq![')'],
        _ => token_name(t),
    }
}

/// How a lexical error is shown.
pub open spec fn lexical_error_text(e: LexicalError) -> Seq<char> {
    match e {
        LexicalError::InvalidToken(r) => "Nieprawidłowy token w zakresie "@ + nat_text(
            r.start as nat,
        ) + ".."@ + nat_text(r.end as nat),
    }
}

fn token_name_str(t: &Token) -> (r: &'static str)
    ensures
        r@ == token_name(*t),
{
    match t {
            Token::And => "And",
            Token::Or => "Or",
            Token::Not => "Not",
            Token::True => "True",
            Token::False => "False",
            Token::If => "If",
            Token::Then => "Then",
            Token::Elif => "Elif",
            Token::Else => "Else",
            Token::For => "For",
            Token::To => "To",
            Token::Do => "Do",
            Token::Break => "Break",
            Token::Continue => "Continue",
            Token::Begin => "Begin",
            Token::End => "End",
            Token::Exit => "Exit",
            Token::Print => "Print",
            Token::ReadInt => "ReadInt",
            Token::ReadStr => "ReadStr",
            Token::ReadBool => "ReadBool",
            Token::Substring => "Substring",
            Token::Length => "Length",
            Token::Position => "Position",
            Token::Concatenate => "Concatenate",
            Token::TypeString => "TypeString",
            Token::TypeInteger => "TypeInteger",
            Token::TypeBoolean => "TypeBoolean",
            Token::Plus => "Plus",
            Token::Minus => "Minus",
            Token::Star => "Star",
            Token::Slash => "Slash",
            Token::Percent => "Percent",
            Token::LParen => "LParen",
            Token::RParen => "RParen",
            Token::Semicolon => "Semicolon",
            Token::Comma => "Comma",
            Token::Assign => "Assign",
            Token::NumEq => "NumEq",
            Token::Less => "Less",
            Token::LessEq => "LessEq",
            Token::Greater => "Greater",
            Token::GreaterEq => "GreaterEq",
            Token::NumNeq => "NumNeq",
            Token::StrEq => "StrEq",
            Token::StrNeq => "StrNeq",
            Token::Num(_) => "Num",
            Token::StringLit(_) => "StringLit",
            Token::Ident(_) => "Ident",
    }
}

impl Token {
    /// The token as text, e.g. `Num(5)`, `Ident(x)` or `Assign`.
    pub fn to_text(&self) -> (r: String)
        ensures
            r@ == token_text(*self),
    {
        let mut v = chars_of(token_name_str(self));
        match self {
            Token::Num(n) => {
                v.push('(');
                push_int_text(&mut v, *n);
                v.push(')');
            },
            Token::StringLit(x) | Token::Ident(x) => {
                v.push('(');
                let body = chars_of(x.as_str());
                push_all(&mut v, &body);
                v.push(')');
            },
            _ => {},
        }
        string_of(&v)
    }
}

impl LexicalError {
    /// The error as text, naming the byte range of the invalid token.
    pub fn to_text(&self) -> (r: String)
        ensures
            r@ == lexical_error_text(*self),
    {
        match self {
            LexicalError::InvalidToken(range) => {
                let mut v = chars_of("Nieprawidłowy token w zakresie ");
                push_nat_text(&mut v, range.start as u64);
                let dots = chars_of("..");
                push_all(&mut v, &dots);
                push_nat_text(&mut v, range.end as u64);
                string_of(&v)
            },
        }
    }
}

/// The text of a keyword or symbol token; empty for the others.
pub open spec fn fixed_text(t: Token) -> Seq<char> {
    match t {
        Token::And => seq!['a', 'n', 'd'],
        Token::Or => seq!['o', 'r'],
        Token::Not => seq!['n', 'o', 't'],
        Token::True => seq!['t', 'r', 'u', 'e'],
        Token::False => seq!['f', 'a', 'l', 's', 'e'],
        Token::If => seq!['i', 'f'],
        Token::Then => seq!['t', 'h', 'e', 'n'],
        Token::Elif => seq!['e', 'l', 'i', 'f'],
        Token::Else => seq!['e', 'l', 's', 'e'],
        Token::For => seq!['f', 'o', 'r'],
        Token::To => seq!['t', 'o'],
        Token::Do => seq!['d', 'o'],
        Token::Break => seq!['b', 'r', 'e', 'a', 'k'],
        Token::Continue => seq!['c', 'o', 'n', 't', 'i', 'n', 'u', 'e'],
        Token::Begin => seq!['b', 'e', 'g', 'i', 'n'],
        Token::End => seq!['e', 'n', 'd'],
        Token::Exit => seq!['e', 'x', 'i', 't'],
        Token::Print => seq!['p', 'r', 'i', 'n', 't'],
        Token::ReadInt => seq!['r', 'e', 'a', 'd', 'i', 'n', 't'],
        Token::ReadStr => seq!['r', 'e', 'a', 'd', 's', 't', 'r'],
        Token::ReadBool => seq!['r', 'e', 'a', 'd', 'b', 'o', 'o', 'l'],
        Token::Substring => seq!['s', 'u', 'b', 's', 't', 'r', 'i', 'n', 'g'],
        Token::Length => seq!['l', 'e', 'n', 'g', 't', 'h'],
        Token::Position => seq!['p', 'o', 's', 'i', 't', 'i', 'o', 'n'],
        Token::Concatenate => seq!['c', 'o', 'n', 'c', 'a', 't', 'e', 'n', 'a', 't', 'e'],
        Token::TypeString => seq!['s', 't', 'r', 'i', 'n', 'g'],
        Token::TypeInteger => seq!['i', 'n', 't', 'e', 'g', 'e', 'r'],
        Token::TypeBoolean => seq!['b', 'o', 'o', 'l', 'e', 'a', 'n'],
        Token::Plus => seq!['+'],
        Token::Minus => seq!['-'],
        Token::Star => seq!['*'],
        Token::Slash => seq!['/'],
        Token::Percent => seq!['%'],
        Token::LParen => seq!['('],
        Token::RParen => seq![')'],
        Token::Semicolon => seq![';'],
        Token::Comma => seq![','],
        Token::Assign => seq![':', '='],
        Token::NumEq => seq!['='],
        Token::Less => seq!['<'],
        Token::LessEq => seq!['<', '='],
        Token::Greater => seq!['>'],
        Token::GreaterEq => seq!['>', '='],
        Token::NumNeq => seq!['<', '>'],
        Token::StrEq => seq!['=', '='],
        Token::StrNeq => seq!['!', '='],
        Token::Num(_) => seq![],
        Token::StringLit(_) => seq![],
        Token::Ident(_) => seq![],
    }
}

/// A keyword or symbol, which stands for one fixed text.
pub open spec fn is_fixed(t: Token) -> bool {
    !(t is Num || t is StringLit || t is Ident)
}

pub open spec fn is_ident_start(c: char) -> bool {
    ('a' <= c && c <= 'z') || ('A' <= c && c <= 'Z') || c == '_'
}

pub open spec fn is_ident_char(c: char) -> bool {
    is_ident_start(c) || is_digit(c)
}

/// The characters that the lexer skips between tokens.
pub open spec fn is_skip(c: char) -> bool {
    c == ' ' || c == '\t' || c == '\n' || c == '\r' || c == '\u{c}'
}

/// `t` is the token that the text `w` stands for.
pub open spec fn token_of_word(w: Seq<char>, t: Token) -> bool {
    match t {
        Token::Num(n) => all_digits(w) && parse_i32(w) == Some(n),
        Token::StringLit(x) => x@ == w && w.len() >= 2 && w[0] == '"' && w.last() == '"',
        Token::Ident(x) => {
            &&& x@ == w
            &&& w.len() > 0
            &&& is_ident_start(w[0])
            &&& forall|k: Token| is_fixed(k) ==> fixed_text(k) != w
        },
        _ => fixed_text(t) == w,
    }
}

/// The first index at or after `i` that holds no skipped character.
pub open spec fn skip_end(s: Seq<char>, i: int) -> int
    decreases s.len() - i,
{
    if i < 0 || i >= s.len() || !is_skip(s[i]) {
        i
    } else {
        skip_end(s, i + 1)
    }
}

/// The end of the run of identifier characters that starts at `i`.
pub open spec fn ident_end(s: Seq<char>, i: int) -> int
    decreases s.len() - i,
{
    if i < 0 || i >= s.len() || !is_ident_char(s[i]) {
        i
    } else {
        ident_end(s, i + 1)
    }
}

/// The end of the run of decimal digits that starts at `i`.
pub open spec fn digits_end(s: Seq<char>, i: int) -> int
    decreases s.len() - i,
{
    if i < 0 || i >= s.len() || !is_digit(s[i]) {
        i
    } else {
        digits_end(s, i + 1)
    }
}

pub open spec fn is_hex(c: char) -> bool {
    ('0' <= c && c <= '9') || ('a' <= c && c <= 'f') || ('A' <= c && c <= 'F')
}

/// The characters that may follow a backslash, other than `u`.
pub open spec fn is_simple_escape(c: char) -> bool {
    c == '"' || c == '\\' || c == '/' || c == 'b' || c == 'f' || c == 'n' || c == 'r' || c == 't'
}

/// The first index in `i..i + 4` that holds no hexadecimal digit (the end
/// of the text when it comes first), or `i + 4`.
pub open spec fn hex4_end(s: Seq<char>, i: int, k: int) -> int
    decreases 4 - k,
{
    if k >= 4 || k < 0 {
        i + 4
    } else if i + k >= s.len() || !is_hex(s[i + k]) {
        i + k
    } else {
        hex4_end(s, i, k + 1)
    }
}

/// Scans the body of a string literal from `i`, just after its opening
/// quote: `(true, j)` when the closing quote ends at `j`; `(false, k)` when
/// no literal can be completed, `k` being where the scan got stuck (a
/// control character, a bad escape, or the end of the text).
pub open spec fn string_scan(s: Seq<char>, i: int) -> (bool, int)
    decreases s.len() + 8 - i,
{
    if i < 0 || i >= s.len() {
        (false, s.len() as int)
    } else if s[i] == '"' {
        (true, i + 1)
    } else if s[i] == '\\' {
        if i + 1 >= s.len() {
            (false, s.len() as int)
        } else if is_simple_escape(s[i + 1]) {
            string_scan(s, i + 2)
        } else if s[i + 1] == 'u' {
            let h = hex4_end(s, i + 2, 0);
            if h < i + 6 {
                (false, h)
            } else {
                string_scan(s, i + 6)
            }
        } else {
            (false, i + 1)
        }
    } else if (s[i] as u32) < 0x20 {
        (false, i)
    } else {
        string_scan(s, i + 1)
    }
}

/// What the lexer finds at `i`, a character that it does not skip:
/// `(true, j)` for a token whose text is `s[i..j]`, `(false, j)` for an
/// invalid token over `s[i..j]`. Longer matches win: an identifier runs as
/// far as identifier characters go, digits as far as digits go, and the
/// two-character symbols `:=`, `==`, `<=`, `<>`, `>=`, `!=` take precedence
/// over their first character. Digits that do not fit in an `i32`, a string
/// literal that cannot be completed, a `:` or `!` that starts no symbol and
/// any other character are invalid.
pub open spec fn scan_at(s: Seq<char>, i: int) -> (bool, int) {
    let c = s[i];
    let next = if i + 1 < s.len() {
        s[i + 1]
    } else {
        ' '
    };
    if is_ident_start(c) {
        (true, ident_end(s, i))
    } else if is_digit(c) {
        let j = digits_end(s, i);
        (parse_i32(s.subrange(i, j)) is Some, j)
    } else if c == '"' {
        let r = string_scan(s, i + 1);
        if r.0 {
            (true, r.1)
        } else if r.1 > i + 1 {
            (false, r.1)
        } else {
            (false, i + 1)
        }
    } else if c == ':' {
        if next == '=' {
            (true, i + 2)
        } else {
            (false, i + 1)
        }
    } else if c == '!' {
        if next == '=' {
            (true, i + 2)
        } else {
            (false, i + 1)
        }
    } else if c == '=' {
        (true, if next == '=' { i + 2 } else { i + 1 })
    } else if c == '<' {
        (true, if next == '=' || next == '>' { i + 2 } else { i + 1 })
    } else if c == '>' {
        (true, if next == '=' { i + 2 } else { i + 1 })
    } else if c == '+' || c == '-' || c == '*' || c == '/' || c == '%' || c == '(' || c == ')'
        || c == ';' || c == ',' {
        (true, i + 1)
    } else {
        (false, i + 1)
    }
}

/// The byte offset in the UTF-8 text of `s` where character `i` starts.
pub open spec fn byte_offset(s: Seq<char>, i: int) -> int {
    encode_utf8(s.take(i)).len() as int
}

/// The lexemes of `s` from index `i` on: for each, whether it is a valid
/// token, and its start and end.
pub open spec fn lexemes_from(s: Seq<char>, i: int) -> Seq<(bool, int, int)>
    decreases s.len() - i,
{
    let j = skip_end(s, i);
    let e = scan_at(s, j).1;
    if i < 0 || j >= s.len() || e <= i || e > s.len() {
        seq![]
    } else {
        seq![(scan_at(s, j).0, j, e)] + lexemes_from(s, e)
    }
}

/// A completed string literal ends with its closing quote.
proof fn lemma_string_scan_closes(s: Seq<char>, i: int)
    requires
        0 <= i,
        string_scan(s, i).0,
    ensures
        i < string_scan(s, i).1 <= s.len(),
        s[string_scan(s, i).1 - 1] == '"',
    decreases s.len() + 8 - i,
{
    if i < s.len() && s[i] != '"' {
        if s[i] == '\\' {
            if is_simple_escape(s[i + 1]) {
                lemma_string_scan_closes(s, i + 2);
            } else {
                lemma_string_scan_closes(s, i + 6);
            }
        } else {
            lemma_string_scan_closes(s, i + 1);
        }
    }
}

proof fn lemma_skip_end_ge(s: Seq<char>, i: int)
    requires
        0 <= i,
    ensures
        i <= skip_end(s, i),
    decreases s.len() - i,
{
    if i < s.len() && is_skip(s[i]) {
        lemma_skip_end_ge(s, i + 1);
    }
}

/// The lexemes of `s`.
pub open spec fn lexemes(s: Seq<char>) -> Seq<(bool, int, int)> {
    lexemes_from(s, 0)
}

/// A lexer's result agrees with what is found at `s[i..j]`.
pub open spec fn agrees(
    s: Seq<char>,
    r: Result<(usize, Token, usize), LexicalError>,
    ok: bool,
    i: int,
    j: int,
) -> bool {
    if ok {
        &&& r is Ok
        &&& r->Ok_0.0 == byte_offset(s, i)
        &&& r->Ok_0.2 == byte_offset(s, j)
        &&& token_of_word(s.subrange(i, j), r->Ok_0.1)
    } else {
        r == Err::<(usize, Token, usize), LexicalError>(
            LexicalError::InvalidToken(Range { start: byte_offset(s, i) as usize, end: byte_offset(s, j) as usize }),
        )
    }
}

/// UTF-8 encoding distributes over concatenation.
pub proof fn lemma_encode_append(a: Seq<char>, b: Seq<char>)
    ensures
        encode_utf8(a + b) == encode_utf8(a) + encode_utf8(b),
    decreases a.len(),
{
    if a.len() == 0 {
        assert(a + b =~= b);
        assert(encode_utf8(a) =~= Seq::<u8>::empty());
        assert(encode_utf8(a) + encode_utf8(b) =~= encode_utf8(b));
    } else {
        lemma_encode_append(a.drop_first(), b);
        assert((a + b).drop_first() =~= a.drop_first() + b);
        assert(encode_utf8(a + b) =~= encode_utf8(a) + encode_utf8(b));
    }
}

/// The number of bytes in the UTF-8 encoding of `c`.
fn utf8_width(c: char) -> (w: usize)
    ensures
        w == encode_utf8(seq![c]).len(),
        1 <= w <= 4,
{
    let u = c as u32;
    assert(seq![c].drop_first() =~= Seq::<char>::empty());
    assert(encode_utf8(Seq::<char>::empty()) =~= Seq::<u8>::empty());
    assert(encode_utf8(seq![c]) == vstd::utf8::encode_scalar(u) + encode_utf8(
        seq![c].drop_first(),
    ));
    assert(u < 0xD800 || u > 0xDFFF);
    if u <= 0x7F {
        1
    } else if u <= 0x7FF {
        2
    } else if u <= 0xFFFF {
        3
    } else {
        4
    }
}

proof fn lemma_byte_offset_step(s: Seq<char>, i: int)
    requires
        0 <= i < s.len(),
    ensures
        byte_offset(s, i + 1) == byte_offset(s, i) + encode_utf8(seq![s[i]]).len(),
        byte_offset(s, i + 1) <= encode_utf8(s).len(),
{
    assert(s.take(i + 1) =~= s.take(i) + seq![s[i]]);
    lemma_encode_append(s.take(i), seq![s[i]]);
    assert(s =~= s.take(i + 1) + s.skip(i + 1));
    lemma_encode_append(s.take(i + 1), s.skip(i + 1));
}

fn is_ident_start_exec(c: char) -> (r: bool)
    ensures
        r == is_ident_start(c),
{
    ('a' <= c && c <= 'z') || ('A' <= c && c <= 'Z') || c == '_'
}

fn is_skip_exec(c: char) -> (r: bool)
    ensures
        r == is_skip(c),
{
    c == ' ' || c == '\t' || c == '\n' || c == '\r' || c == '\u{c}'
}

fn is_ident_char_exec(c: char) -> (r: bool)
    ensures
        r == is_ident_char(c),
{
    is_ident_start_exec(c) || ('0' <= c && c <= '9')
}

proof fn lemma_ident_end_ge(s: Seq<char>, i: int)
    requires
        0 <= i,
    ensures
        i <= ident_end(s, i),
    decreases s.len() - i,
{
    if i < s.len() && ident_end(s, i) != i {
        lemma_ident_end_ge(s, i + 1);
    }
}

proof fn lemma_digits_end_ge(s: Seq<char>, i: int)
    requires
        0 <= i,
    ensures
        i <= digits_end(s, i),
    decreases s.len() - i,
{
    if i < s.len() && digits_end(s, i) != i {
        lemma_digits_end_ge(s, i + 1);
    }
}

/// The lexer always moves past the character it scans.
proof fn lemma_scan_advances(s: Seq<char>, j: int)
    requires
        0 <= j < s.len(),
    ensures
        j < scan_at(s, j).1,
{
    lemma_ident_end_ge(s, j + 1);
    lemma_digits_end_ge(s, j + 1);
    if s[j] == '"' && string_scan(s, j + 1).0 {
        lemma_string_scan_closes(s, j + 1);
    }
}

/// Each lexeme is a non-empty stretch of the text, at or after `i`, and
/// each ends before the next begins.
pub proof fn lemma_lexemes_bounds(s: Seq<char>, i: int)
    requires
        0 <= i,
    ensures
        forall|k: int|
            0 <= k < lexemes_from(s, i).len() ==> i <= (#[trigger] lexemes_from(s, i)[k]).1
                < lexemes_from(s, i)[k].2 <= s.len(),
        forall|k: int|
            0 <= k < lexemes_from(s, i).len() - 1 ==> (#[trigger] lexemes_from(s, i)[k]).2
                <= lexemes_from(s, i)[k + 1].1,
    decreases s.len() - i,
{
    let j = skip_end(s, i);
    let e = scan_at(s, j).1;
    lemma_skip_end_ge(s, i);
    if !(j >= s.len() || e <= i || e > s.len()) {
        lemma_scan_advances(s, j);
        lemma_lexemes_bounds(s, e);
        let all = lexemes_from(s, i);
        let rest = lexemes_from(s, e);
        assert(all == seq![(scan_at(s, j).0, j, e)] + rest);
        assert forall|k: int| 0 <= k < all.len() implies i <= (#[trigger] all[k]).1 < all[k].2
            <= s.len() by {
            if k > 0 {
                assert(all[k] == rest[k - 1]);
            }
        }
        assert forall|k: int| 0 <= k < all.len() - 1 implies (#[trigger] all[k]).2 <= all[k
            + 1].1 by {
            assert(all[k + 1] == rest[k]);
            if k > 0 {
                assert(all[k] == rest[k - 1]);
            }
        }
    }
}

/// Later characters start at later bytes.
pub proof fn lemma_byte_offset_mono(s: Seq<char>, i: int, j: int)
    requires
        0 <= i < j <= s.len(),
    ensures
        byte_offset(s, i) < byte_offset(s, j),
    decreases j - i,
{
    lemma_byte_offset_step(s, j - 1);
    if i < j - 1 {
        lemma_byte_offset_mono(s, i, j - 1);
    }
}

/// No character starts past the end of the text's bytes.
pub proof fn lemma_byte_offset_le(s: Seq<char>, j: int)
    requires
        0 <= j <= s.len(),
    ensures
        0 <= byte_offset(s, j) <= encode_utf8(s).len(),
{
    assert(s =~= s.take(j) + s.skip(j));
    lemma_encode_append(s.take(j), s.skip(j));
}

/// Every character in `s[i..j]` is one that the lexer skips.
pub open spec fn all_skipped(s: Seq<char>, i: int, j: int) -> bool {
    forall|p: int| i <= p < j ==> #[trigger] is_skip(s[p])
}

proof fn lemma_skip_end_skipped(s: Seq<char>, i: int)
    requires
        0 <= i,
    ensures
        all_skipped(s, i, skip_end(s, i)),
        skip_end(s, i) < s.len() ==> !is_skip(s[skip_end(s, i)]),
        i <= skip_end(s, i),
        i <= s.len() ==> skip_end(s, i) <= s.len(),
    decreases s.len() - i,
{
    if i < s.len() && is_skip(s[i]) {
        lemma_skip_end_skipped(s, i + 1);
    }
}

/// The stretch between lexeme `k - 1` and lexeme `k`, where the text is
/// taken from `start` to `len`: from `start` before the first lexeme, and to
/// `len` after the last.
pub open spec fn gap(lx: Seq<(bool, int, int)>, start: int, len: int, k: int) -> (int, int) {
    (
        if k == 0 {
            start
        } else {
            lx[k - 1].2
        },
        if k == lx.len() {
            len
        } else {
            lx[k].1
        },
    )
}

proof fn lemma_ident_end_le(s: Seq<char>, i: int)
    requires
        0 <= i <= s.len(),
    ensures
        ident_end(s, i) <= s.len(),
    decreases s.len() - i,
{
    if i < s.len() && is_ident_char(s[i]) {
        lemma_ident_end_le(s, i + 1);
    }
}

proof fn lemma_digits_end_le(s: Seq<char>, i: int)
    requires
        0 <= i <= s.len(),
    ensures
        digits_end(s, i) <= s.len(),
    decreases s.len() - i,
{
    if i < s.len() && is_digit(s[i]) {
        lemma_digits_end_le(s, i + 1);
    }
}

proof fn lemma_hex4_end_le(s: Seq<char>, i: int, k: int)
    requires
        0 <= k <= 4,
        0 <= i <= s.len(),
        i + k <= s.len(),
    ensures
        hex4_end(s, i, k) <= s.len() || hex4_end(s, i, k) == i + 4,
        hex4_end(s, i, k) >= i + k,
    decreases 4 - k,
{
    if k < 4 && i + k < s.len() && is_hex(s[i + k]) {
        lemma_hex4_end_le(s, i, k + 1);
    }
}

proof fn lemma_string_scan_le(s: Seq<char>, i: int)
    requires
        0 <= i,
    ensures
        string_scan(s, i).1 <= s.len(),
    decreases s.len() + 8 - i,
{
    if 0 <= i < s.len() && s[i] != '"' {
        if s[i] == '\\' {
            if i + 1 < s.len() {
                if is_simple_escape(s[i + 1]) {
                    lemma_string_scan_le(s, i + 2);
                } else if s[i + 1] == 'u' {
                    lemma_hex4_end_le(s, i + 2, 0);
                    if hex4_end(s, i + 2, 0) >= i + 6 {
                        lemma_string_scan_le(s, i + 6);
                    }
                }
            }
        } else if (s[i] as u32) >= 0x20 {
            lemma_string_scan_le(s, i + 1);
        }
    }
}

/// The lexer never scans past the end of the text.
proof fn lemma_scan_bounded(s: Seq<char>, j: int)
    requires
        0 <= j < s.len(),
    ensures
        scan_at(s, j).1 <= s.len(),
{
    lemma_ident_end_le(s, j);
    lemma_digits_end_le(s, j);
    lemma_string_scan_le(s, j + 1);
}

proof fn lemma_lexemes_from_gaps(s: Seq<char>, i: int)
    requires
        0 <= i <= s.len(),
    ensures
        forall|k: int|
            0 <= k <= lexemes_from(s, i).len() ==> all_skipped(
                s,
                #[trigger] gap(lexemes_from(s, i), i, s.len() as int, k).0,
                gap(lexemes_from(s, i), i, s.len() as int, k).1,
            ),
    decreases s.len() - i,
{
    let j = skip_end(s, i);
    let e = scan_at(s, j).1;
    let len = s.len() as int;
    lemma_skip_end_skipped(s, i);
    let lx = lexemes_from(s, i);
    if j >= s.len() {
        assert(lx.len() == 0);
        assert(gap(lx, i, len, 0) == (i, len));
    } else {
        lemma_scan_advances(s, j);
        lemma_scan_bounded(s, j);
        lemma_lexemes_from_gaps(s, e);
        let rest = lexemes_from(s, e);
        assert(lx == seq![(scan_at(s, j).0, j, e)] + rest);
        assert forall|k: int| 0 <= k <= lx.len() implies all_skipped(
            s,
            #[trigger] gap(lx, i, len, k).0,
            gap(lx, i, len, k).1,
        ) by {
            if k > 0 {
                assert(gap(rest, e, len, k - 1) == gap(lx, i, len, k));
            }
        }
    }
}

/// The lexemes of a text lie in order, each non-empty and none overlapping
/// the next, and everything around them is whitespace: the lexer drops
/// nothing but the characters it skips.
pub proof fn lexemes_cover_text(s: Seq<char>)
    ensures
        forall|k: int|
            0 <= k < lexemes(s).len() ==> 0 <= (#[trigger] lexemes(s)[k]).1 < lexemes(s)[k].2
                <= s.len(),
        forall|k: int|
            0 <= k < lexemes(s).len() - 1 ==> (#[trigger] lexemes(s)[k]).2 <= lexemes(s)[k + 1].1,
        forall|k: int|
            0 <= k <= lexemes(s).len() ==> all_skipped(
                s,
                #[trigger] gap(lexemes(s), 0, s.len() as int, k).0,
                gap(lexemes(s), 0, s.len() as int, k).1,
            ),
{
    lemma_lexemes_bounds(s, 0);
    lemma_lexemes_from_gaps(s, 0);
}

/// Splits source text into tokens.
pub struct Lexer {
    chars: Vec<char>,
    idx: usize,
    byte: usize,
    total: usize,
}

impl Lexer {
    /// The text being split.
    pub closed spec fn text(&self) -> Seq<char> {
        self.chars@
    }

    /// How many characters have been consumed.
    pub closed spec fn index(&self) -> int {
        self.idx as int
    }

    pub closed spec fn wf(&self) -> bool {
        &&& self.idx <= self.chars@.len()
        &&& self.byte == byte_offset(self.chars@, self.idx as int)
        &&& self.total == encode_utf8(self.chars@).len()
    }

    /// A lexer at the start of `input`.
    pub fn new(input: &str) -> (r: Lexer)
        ensures
            r.wf(),
            r.text() == input@,
            r.index() == 0,
    {
        let chars = chars_of(input);
        let total = input.as_bytes().len();
        assert(chars@.take(0) =~= Seq::<char>::empty());
        assert(encode_utf8(Seq::<char>::empty()) =~= Seq::<u8>::empty());
        Lexer { chars, idx: 0, byte: 0, total }
    }

    /// Moves past one character.
    fn step(&mut self)
        requires
            old(self).wf(),
            old(self).idx < old(self).chars@.len(),
        ensures
            final(self).wf(),
            final(self).chars == old(self).chars,
            final(self).idx == old(self).idx + 1,
    {
        proof {
            lemma_byte_offset_step(self.chars@, self.idx as int);
        }
        let n = self.chars.len();
        let w = utf8_width(self.chars[self.idx]);
        self.byte = self.byte + w;
        self.idx = self.idx + 1;
    }

    /// Moves to character `j`.
    fn advance_to(&mut self, j: usize)
        requires
            old(self).wf(),
            old(self).idx <= j <= old(self).chars@.len(),
        ensures
            final(self).wf(),
            final(self).chars == old(self).chars,
            final(self).idx == j,
    {
        while self.idx < j
            invariant
                self.wf(),
                self.chars == old(self).chars,
                self.idx <= j <= self.chars@.len(),
            decreases j - self.idx,
        {
            self.step();
        }
    }

    fn ident_end_exec(&self, i: usize) -> (r: usize)
        requires
            i <= self.chars@.len(),
        ensures
            r as int == ident_end(self.chars@, i as int),
            i <= r <= self.chars@.len(),
    {
        let mut k = i;
        while k < self.chars.len() && is_ident_char_exec(self.chars[k])
            invariant
                i <= k <= self.chars@.len(),
                ident_end(self.chars@, i as int) == ident_end(self.chars@, k as int),
            decreases self.chars@.len() - k,
        {
            k = k + 1;
        }
        k
    }

    fn digits_end_exec(&self, i: usize) -> (r: usize)
        requires
            i <= self.chars@.len(),
        ensures
            r as int == digits_end(self.chars@, i as int),
            i <= r <= self.chars@.len(),
            all_digits(self.chars@.subrange(i as int, r as int)),
    {
        let mut k = i;
        while k < self.chars.len() && '0' <= self.chars[k] && self.chars[k] <= '9'
            invariant
                i <= k <= self.chars@.len(),
                digits_end(self.chars@, i as int) == digits_end(self.chars@, k as int),
                all_digits(self.chars@.subrange(i as int, k as int)),
            decreases self.chars@.len() - k,
        {
            let ghost prev = self.chars@.subrange(i as int, k as int);
            let ghost next = self.chars@.subrange(i as int, k + 1);
            assert forall|m: int| 0 <= m < next.len() implies #[trigger] is_digit(next[m]) by {
                if m < prev.len() {
                    assert(next[m] == prev[m]);
                }
            }
            k = k + 1;
        }
        k
    }

    fn is_hex_exec(c: char) -> (r: bool)
        ensures
            r == is_hex(c),
    {
        ('0' <= c && c <= '9') || ('a' <= c && c <= 'f') || ('A' <= c && c <= 'F')
    }

    fn hex4_end_exec(&self, i: usize) -> (r: usize)
        requires
            i <= self.chars@.len(),
        ensures
            r as int == hex4_end(self.chars@, i as int, 0),
            i <= r <= i + 4,
            r < i + 4 ==> r <= self.chars@.len(),
            r == i + 4 ==> i + 4 <= self.chars@.len(),
    {
        let n = self.chars.len();
        let mut k: usize = 0;
        while k < 4
            invariant
                n == self.chars@.len(),
                i <= self.chars@.len(),
                k <= 4,
                hex4_end(self.chars@, i as int, 0) == hex4_end(self.chars@, i as int, k as int),
                i + k <= self.chars@.len(),
            decreases 4 - k,
        {
            if i + k >= n || !Self::is_hex_exec(self.chars[i + k]) {
                return i + k;
            }
            k = k + 1;
        }
        i + 4
    }

    fn string_scan_exec(&self, i: usize) -> (r: (bool, usize))
        requires
            i <= self.chars@.len(),
        ensures
            (r.0, r.1 as int) == string_scan(self.chars@, i as int),
            i <= r.1 <= self.chars@.len(),
    {
        let n = self.chars.len();
        let mut k = i;
        while k < n
            invariant
                n == self.chars@.len(),
                i <= k <= n,
                string_scan(self.chars@, i as int) == string_scan(self.chars@, k as int),
            decreases n - k,
        {
            let c = self.chars[k];
            if c == '"' {
                return (true, k + 1);
            } else if c == '\\' {
                if k + 1 >= n {
                    return (false, n);
                }
                let e = self.chars[k + 1];
                if e == '"' || e == '\\' || e == '/' || e == 'b' || e == 'f' || e == 'n' || e == 'r'
                    || e == 't' {
                    k = k + 2;
                } else if e == 'u' {
                    let h = self.hex4_end_exec(k + 2);
                    if h - k < 6 {
                        return (false, h);
                    }
                    k = k + 6;
                } else {
                    return (false, k + 1);
                }
            } else if #[verifier::truncate] (c as u32) < 0x20 {
                return (false, k);
            } else {
                k = k + 1;
            }
        }
        (false, n)
    }


    /// The symbol at `i`, a character that starts no identifier, number or
    /// string: whether it is valid, its length, and its token.
    fn symbol_at(&self, i: usize) -> (r: (bool, usize, Token))
        requires
            i < self.chars@.len(),
            !is_ident_start(self.chars@[i as int]),
            !is_digit(self.chars@[i as int]),
            self.chars@[i as int] != '"',
        ensures
            r.0 == scan_at(self.chars@, i as int).0,
            i + r.1 == scan_at(self.chars@, i as int).1,
            i + r.1 <= self.chars@.len(),
            r.1 >= 1,
            r.0 ==> is_fixed(r.2) && fixed_text(r.2) == self.chars@.subrange(i as int, i + r.1),
    {
        let n = self.chars.len();
        let c = self.chars[i];
        let next = if i + 1 < n {
            self.chars[i + 1]
        } else {
            ' '
        };
        let ghost s = self.chars@;
        let r = if c == ':' {
            if next == '=' {
                (true, 2, Token::Assign)
            } else {
                (false, 1, Token::Assign)
            }
        } else if c == '!' {
            if next == '=' {
                (true, 2, Token::StrNeq)
            } else {
                (false, 1, Token::StrNeq)
            }
        } else if c == '=' {
            if next == '=' {
                (true, 2, Token::StrEq)
            } else {
                (true, 1, Token::NumEq)
            }
        } else if c == '<' {
            if next == '=' {
                (true, 2, Token::LessEq)
            } else if next == '>' {
                (true, 2, Token::NumNeq)
            } else {
                (true, 1, Token::Less)
            }
        } else if c == '>' {
            if next == '=' {
                (true, 2, Token::GreaterEq)
            } else {
                (true, 1, Token::Greater)
            }
        } else if c == '+' {
            (true, 1, Token::Plus)
        } else if c == '-' {
            (true, 1, Token::Minus)
        } else if c == '*' {
            (true, 1, Token::Star)
        } else if c == '/' {
            (true, 1, Token::Slash)
        } else if c == '%' {
            (true, 1, Token::Percent)
        } else if c == '(' {
            (true, 1, Token::LParen)
        } else if c == ')' {
            (true, 1, Token::RParen)
        } else if c == ';' {
            (true, 1, Token::Semicolon)
        } else if c == ',' {
            (true, 1, Token::Comma)
        } else {
            (false, 1, Token::Plus)
        };
        if r.1 == 2 {
            assert(s.subrange(i as int, i + 2) =~= seq![c, next]);
        } else {
            assert(s.subrange(i as int, i + 1) =~= seq![c]);
        }
        r
    }

    /// The next token, or `None` at the end of the text. Skipped characters
    /// are passed over first; an invalid token is reported and passed over.
    pub fn next_token(&mut self) -> (r: Option<Result<(usize, Token, usize), LexicalError>>)
        requires
            old(self).wf(),
        ensures
            final(self).wf(),
            final(self).text() == old(self).text(),
            ({
                let s = old(self).text();
                let i = skip_end(s, old(self).index());
                if i >= s.len() {
                    r is None && final(self).index() == i
                } else {
                    &&& r is Some
                    &&& agrees(s, r->Some_0, scan_at(s, i).0, i, scan_at(s, i).1)
                    &&& final(self).index() == scan_at(s, i).1
                    &&& i < final(self).index() <= s.len()
                }
            }),
    {
        let ghost s = self.chars@;
        let n = self.chars.len();
        while self.idx < n && is_skip_exec(self.chars[self.idx])
            invariant
                self.wf(),
                self.chars@ == s,
                n == s.len(),
                skip_end(s, old(self).index()) == skip_end(s, self.idx as int),
            decreases n - self.idx,
        {
            self.step();
        }
        if self.idx >= n {
            return None;
        }
        let start = self.idx;
        let b0 = self.byte;
        let c = self.chars[start];
        if is_ident_start_exec(c) {
            let j = self.ident_end_exec(start + 1);
            assert(ident_end(s, start as int) == j);
            let ghost w = s.subrange(start as int, j as int);
            assert(w[0] == c);
            let tok = match self.keyword(start, j) {
                Some(t) => t,
                None => Token::Ident(string_of_range(&self.chars, start, j)),
            };
            assert(token_of_word(w, tok));
            self.advance_to(j);
            return Some(Ok((b0, tok, self.byte)));
        }
        if '0' <= c && c <= '9' {
            let j = self.digits_end_exec(start + 1);
            assert(digits_end(s, start as int) == j);
            let v = parse_i32_range(&self.chars, start, j);
            self.advance_to(j);
            return match v {
                Some(num) => Some(Ok((b0, Token::Num(num), self.byte))),
                None => Some(Err(LexicalError::InvalidToken(Range { start: b0, end: self.byte }))),
            };
        }
        if c == '"' {
            let (ok, k) = self.string_scan_exec(start + 1);
            let j = if ok || k > start + 1 {
                k
            } else {
                start + 1
            };
            if ok {
                proof {
                    lemma_string_scan_closes(s, start + 1);
                }
                let lit = string_of_range(&self.chars, start, j);
                self.advance_to(j);
                return Some(Ok((b0, Token::StringLit(lit), self.byte)));
            } else {
                self.advance_to(j);
                return Some(Err(LexicalError::InvalidToken(Range { start: b0, end: self.byte })));
            }
        }
        let (ok, len, tok) = self.symbol_at(start);
        self.advance_to(start + len);
        if ok {
            Some(Ok((b0, tok, self.byte)))
        } else {
            Some(Err(LexicalError::InvalidToken(Range { start: b0, end: self.byte })))
        }
    }

    /// Whether `chars[lo..hi]` is the text `t`.
    fn text_is(&self, lo: usize, hi: usize, t: &Vec<char>) -> (r: bool)
        requires
            lo <= hi <= self.chars@.len(),
        ensures
            r == (self.chars@.subrange(lo as int, hi as int) == t@),
    {
        if hi - lo != t.len() {
            return false;
        }
        let mut k: usize = 0;
        while k < t.len()
            invariant
                lo <= hi <= self.chars@.len(),
                hi - lo == t@.len(),
                k <= t@.len(),
                forall|m: int| 0 <= m < k ==> self.chars@[lo + m] == t@[m],
            decreases t@.len() - k,
        {
            if self.chars[lo + k] != t[k] {
                assert(self.chars@.subrange(lo as int, hi as int)[k as int] != t@[k as int]);
                return false;
            }
            k = k + 1;
        }
        assert(self.chars@.subrange(lo as int, hi as int) =~= t@);
        true
    }

    /// The keyword whose text is `chars[lo..hi]`, a word that starts like an identifier.
    fn keyword(&self, lo: usize, hi: usize) -> (r: Option<Token>)
        requires
            lo < hi <= self.chars@.len(),
            is_ident_start(self.chars@[lo as int]),
        ensures
            r matches Some(t) ==> is_fixed(t) && fixed_text(t) == self.chars@.subrange(
                lo as int,
                hi as int,
            ),
            r is None ==> forall|k: Token|
                is_fixed(k) ==> fixed_text(k) != self.chars@.subrange(lo as int, hi as int),
    {
        let ghost w = self.chars@.subrange(lo as int, hi as int);
        assert(w[0] == self.chars@[lo as int]);
        if self.text_is(lo, hi, &vec!['a', 'n', 'd']) {
            return Some(Token::And);
        }
        if self.text_is(lo, hi, &vec!['o', 'r']) {
            return Some(Token::Or);
        }
        if self.text_is(lo, hi, &vec!['n', 'o', 't']) {
            return Some(Token::Not);
        }
        if self.text_is(lo, hi, &vec!['t', 'r', 'u', 'e']) {
            return Some(Token::True);
        }
        if self.text_is(lo, hi, &vec!['f', 'a', 'l', 's', 'e']) {
            return Some(Token::False);
        }
        if self.text_is(lo, hi, &vec!['i', 'f']) {
            return Some(Token::If);
        }
        if self.text_is(lo, hi, &vec!['t', 'h', 'e', 'n']) {
            return Some(Token::Then);
        }
        if self.text_is(lo, hi, &vec!['e', 'l', 'i', 'f']) {
            return Some(Token::Elif);
        }
        if self.text_is(lo, hi, &vec!['e', 'l', 's', 'e']) {
            return Some(Token::Else);
        }
        if self.text_is(lo, hi, &vec!['f', 'o', 'r']) {
            return Some(Token::For);
        }
        if self.text_is(lo, hi, &vec!['t', 'o']) {
            return Some(Token::To);
        }
        if self.text_is(lo, hi, &vec!['d', 'o']) {
            return Some(Token::Do);
        }
        if self.text_is(lo, hi, &vec!['b', 'r', 'e', 'a', 'k']) {
            return Some(Token::Break);
        }
        if self.text_is(lo, hi, &vec!['c', 'o', 'n', 't', 'i', 'n', 'u', 'e']) {
            return Some(Token::Continue);
        }
        if self.text_is(lo, hi, &vec!['b', 'e', 'g', 'i', 'n']) {
            return Some(Token::Begin);
        }
        if self.text_is(lo, hi, &vec!['e', 'n', 'd']) {
            return Some(Token::End);
        }
        if self.text_is(lo, hi, &vec!['e', 'x', 'i', 't']) {
            return Some(Token::Exit);
        }
        if self.text_is(lo, hi, &vec!['p', 'r', 'i', 'n', 't']) {
            return Some(Token::Print);
        }
        if self.text_is(lo, hi, &vec!['r', 'e', 'a', 'd', 'i', 'n', 't']) {
            return Some(Token::ReadInt);
        }
        if self.text_is(lo, hi, &vec!['r', 'e', 'a', 'd', 's', 't', 'r']) {
            return Some(Token::ReadStr);
        }
        if self.text_is(lo, hi, &vec!['r', 'e', 'a', 'd', 'b', 'o', 'o', 'l']) {
            return Some(Token::ReadBool);
        }
        if self.text_is(lo, hi, &vec!['s', 'u', 'b', 's', 't', 'r', 'i', 'n', 'g']) {
            return Some(Token::Substring);
        }
        if self.text_is(lo, hi, &vec!['l', 'e', 'n', 'g', 't', 'h']) {
            return Some(Token::Length);
        }
        if self.text_is(lo, hi, &vec!['p', 'o', 's', 'i', 't', 'i', 'o', 'n']) {
            return Some(Token::Position);
        }
        if self.text_is(lo, hi, &vec!['c', 'o', 'n', 'c', 'a', 't', 'e', 'n', 'a', 't', 'e']) {
            return Some(Token::Concatenate);
        }
        if self.text_is(lo, hi, &vec!['s', 't', 'r', 'i', 'n', 'g']) {
            return Some(Token::TypeString);
        }
        if self.text_is(lo, hi, &vec!['i', 'n', 't', 'e', 'g', 'e', 'r']) {
            return Some(Token::TypeInteger);
        }
        if self.text_is(lo, hi, &vec!['b', 'o', 'o', 'l', 'e', 'a', 'n']) {
            return Some(Token::TypeBoolean);
        }
        assert forall|k: Token| is_fixed(k) implies fixed_text(k) != w by {
            if fixed_text(k).len() > 0 && !is_ident_start(fixed_text(k)[0]) {
                assert(fixed_text(k)[0] != w[0]);
            }
        }
        None
    }

}

/// The byte range of a lexer result, valid token or not.
pub open spec fn token_span(r: Result<(usize, Token, usize), LexicalError>) -> (int, int) {
    match r {
        Ok((a, _, b)) => (a as int, b as int),
        Err(LexicalError::InvalidToken(rg)) => (rg.start as int, rg.end as int),
    }
}

/// All tokens of `input`, invalid ones included, in order: their byte
/// ranges are non-empty, lie within the text, and follow each other
/// without overlapping.
pub fn tokenize(input: &str) -> (r: Vec<Result<(usize, Token, usize), LexicalError>>)
    ensures
        r@.len() == lexemes(input@).len(),
        forall|k: int|
            0 <= k < r@.len() ==> agrees(
                input@,
                #[trigger] r@[k],
                lexemes(input@)[k].0,
                lexemes(input@)[k].1,
                lexemes(input@)[k].2,
            ),
        forall|k: int|
            0 <= k < r@.len() ==> (#[trigger] token_span(r@[k])).0 < token_span(r@[k]).1
                <= encode_utf8(input@).len(),
        forall|k: int|
            0 <= k < r@.len() - 1 ==> (#[trigger] token_span(r@[k])).1 <= token_span(r@[k + 1]).0,
{
    let mut lexer = Lexer::new(input);
    let ghost s = input@;
    let ghost all = lexemes(s);
    let mut out: Vec<Result<(usize, Token, usize), LexicalError>> = Vec::new();
    loop
        invariant
            lexer.wf(),
            lexer.text() == s,
            0 <= lexer.index() <= s.len(),
            out@.len() + lexemes_from(s, lexer.index()).len() == all.len(),
            all.skip(out@.len() as int) == lexemes_from(s, lexer.index()),
            forall|k: int|
                0 <= k < out@.len() ==> agrees(s, #[trigger] out@[k], all[k].0, all[k].1, all[k].2),
        ensures
            out@.len() == all.len(),
            forall|k: int|
                0 <= k < out@.len() ==> agrees(s, #[trigger] out@[k], all[k].0, all[k].1, all[k].2),
        decreases s.len() - lexer.index(),
    {
        let ghost before = lexer.index();
        proof {
            lemma_skip_end_ge(s, before);
        }
        match lexer.next_token() {
            None => {
                assert(lexemes_from(s, before) =~= Seq::<(bool, int, int)>::empty());
                assert(out@.len() == all.len());
                break;
            },
            Some(t) => {
                let ghost rest = lexemes_from(s, before);
                assert(rest[0] == (scan_at(s, skip_end(s, before)).0, skip_end(s, before), lexer.index()));
                assert(rest.drop_first() =~= lexemes_from(s, lexer.index()));
                assert(all[out@.len() as int] == rest[0]);
                assert(all.skip(out@.len() + 1int) =~= rest.drop_first());
                out.push(t);
            },
        }
    }
    proof {
        assert(encode_utf8(s).len() <= usize::MAX) by {
            assert(lexer.total == encode_utf8(lexer.chars@).len());
        }
        lexemes_cover_text(s);
        assert forall|k: int| 0 <= k < out@.len() implies (#[trigger] token_span(out@[k])).0
            < token_span(out@[k]).1 <= encode_utf8(s).len() by {
            assert(agrees(s, out@[k], all[k].0, all[k].1, all[k].2));
            lemma_byte_offset_mono(s, all[k].1, all[k].2);
            lemma_byte_offset_le(s, all[k].2);
        }
        assert forall|k: int| 0 <= k < out@.len() - 1 implies (#[trigger] token_span(
            out@[k],
        )).1 <= token_span(out@[k + 1]).0 by {
            assert(agrees(s, out@[k], all[k].0, all[k].1, all[k].2));
            assert(agrees(s, out@[k + 1], all[k + 1].0, all[k + 1].1, all[k + 1].2));
            assert(all[k].2 <= all[k + 1].1);
            assert(0 <= all[k].1 < all[k].2 <= s.len());
            assert(0 <= all[k + 1].1 < all[k + 1].2 <= s.len());
            lemma_byte_offset_le(s, all[k].2);
            lemma_byte_offset_le(s, all[k + 1].1);
            if all[k].2 < all[k + 1].1 {
                lemma_byte_offset_mono(s, all[k].2, all[k + 1].1);
            }
        }
    }
    out
}

} // verus!
