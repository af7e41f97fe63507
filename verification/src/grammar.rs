//! The parser: builds the syntax tree of a program or an expression from
//! the lexer's tokens by recursive descent.
//!
//! Programs are declarations (`integer x;`) followed by instructions, each a
//! statement ended by `;`. Statements are assignments `x := e`,
//! `print(e)`, blocks `begin s; ... end`, `for x := e to e do s`,
//! `if e then s elif e then s ... else s` (an `elif` or `else` belongs to
//! the nearest `if`), `break`, `continue` and `exit`. Expressions bind, from
//! loosest to tightest: `or`; `and`; prefix `not`; the comparisons
//! `= <> == != < <= > >=`; `+ -`; `* / %`; prefix `-` (read as `0 - e`);
//! and the primaries: numbers, strings, names, `true`, `false`, `readint`,
//! `readstr`, `readbool`, parentheses and the calls `concatenate(a, b)`,
//! `substring(s, p, l)`, `length(s)` and `position(h, n)`. Binary operators
//! group to the left.
use crate::ast::{Declaration, Expr, ExprKind, Program, Statement, StmtKind, Type};
use crate::completeness::{parser_finds_every_expr, parser_finds_every_program};
use crate::lexer::{is_fixed, tokenize, LexicalError, Token};
use crate::parsing::{
    elifs_view, expect_at, lemma_elifs_view_push, lemma_stmts_view_push, parse_block_at,
    parse_decls_at, parse_expr_at, parse_if_rest_at, parse_items_at, parse_pair_at,
    parse_parens_at, parse_primary_at, parse_program_spec, parse_stmt_at, parse_tail_at,
    stmt_view, stmts_view, type_at, yields_expr, yields_program, yields_stmt,
};
use crate::semantics::{elifs_lits_ok, expr_lits_ok, stmt_lits_ok, stmts_lits_ok};
use crate::syntax::{
    boundary, call_args, decl_at, elif_at, end_at, expr_at, ident_is, if_rest, item_at, items_at,
    lemma_binary_at, lemma_if_rest_from, lemma_items_from, lexed, program_at, relation_token,
    spans, start_at, stmt_at, text_end, tok_is, type_token, Toks,
};
use crate::text::literal_ok;
use std::ops::Range;
use vstd::prelude::*;

verus! {

/// Why a text is not a program (or an expression).
#[derive(Debug, PartialEq)]
pub enum ParseError {
    /// The text ended at `location` where more was needed.
    UnrecognizedEof { location: usize },
    /// This token cannot stand where it stands.
    UnrecognizedToken { token: (usize, Token, usize) },
    /// The lexer found no token here.
    User { error: LexicalError },
}

/// The error for token `k`: the lexer's error there, the token itself
/// where it cannot stand, or the end of the text past the last token.
pub open spec fn error_at(tv: Toks, k: int) -> ParseError {
    if 0 <= k < tv.len() {
        match tv[k] {
            Ok(tok) => ParseError::UnrecognizedToken { token: tok },
            Err(e) => ParseError::User { error: e },
        }
    } else {
        ParseError::UnrecognizedEof { location: text_end(tv) }
    }
}

/// `e` is the error for a token at or after token `i`, or for the end of the text.
pub open spec fn fails_at(tv: Toks, i: int, e: ParseError) -> bool {
    exists|k: int| i <= k <= tv.len() && e == #[trigger] error_at(tv, k)
}

/// A lexer result whose string literal, if any, keeps its quotes.
pub open spec fn token_ok(t: Result<(usize, Token, usize), LexicalError>) -> bool {
    match t {
        Ok((_, Token::StringLit(x), _)) => literal_ok(x@),
        _ => true,
    }
}

pub open spec fn tokens_ok(ts: Seq<Result<(usize, Token, usize), LexicalError>>) -> bool {
    forall|k: int| 0 <= k < ts.len() ==> #[trigger] token_ok(ts[k])
}

/// Every string literal in `p` keeps its quotes.
pub open spec fn program_lits_ok(p: Program) -> bool {
    stmts_lits_ok(p.instructions@, 0)
}

proof fn lemma_stmts_lits_ok(v: Seq<Statement>, i: int)
    requires
        0 <= i,
        forall|k: int| 0 <= k < v.len() ==> #[trigger] stmt_lits_ok(v[k]),
    ensures
        stmts_lits_ok(v, i),
    decreases v.len() - i,
{
    if i < v.len() {
        assert(stmt_lits_ok(v[i]));
        lemma_stmts_lits_ok(v, i + 1);
    }
}

pub open spec fn branch_lits_ok(b: (Expr, Statement)) -> bool {
    expr_lits_ok(b.0) && stmt_lits_ok(b.1)
}

proof fn lemma_elifs_lits_ok(v: Seq<(Expr, Statement)>, i: int)
    requires
        0 <= i,
        forall|k: int| 0 <= k < v.len() ==> #[trigger] branch_lits_ok(v[k]),
    ensures
        elifs_lits_ok(v, i),
    decreases v.len() - i,
{
    if i < v.len() {
        assert(branch_lits_ok(v[i]));
        lemma_elifs_lits_ok(v, i + 1);
    }
}

/// A copy of a token.
fn copy_token(t: &Token) -> (r: Token)
    ensures
        r == *t,
{
    match t {
        Token::And => Token::And,
        Token::Or => Token::Or,
        Token::Not => Token::Not,
        Token::True => Token::True,
        Token::False => Token::False,
        Token::If => Token::If,
        Token::Then => Token::Then,
        Token::Elif => Token::Elif,
        Token::Else => Token::Else,
        Token::For => Token::For,
        Token::To => Token::To,
        Token::Do => Token::Do,
        Token::Break => Token::Break,
        Token::Continue => Token::Continue,
        Token::Begin => Token::Begin,
        Token::End => Token::End,
        Token::Exit => Token::Exit,
        Token::Print => Token::Print,
        Token::ReadInt => Token::ReadInt,
        Token::ReadStr => Token::ReadStr,
        Token::ReadBool => Token::ReadBool,
        Token::Substring => Token::Substring,
        Token::Length => Token::Length,
        Token::Position => Token::Position,
        Token::Concatenate => Token::Concatenate,
        Token::TypeString => Token::TypeString,
        Token::TypeInteger => Token::TypeInteger,
        Token::TypeBoolean => Token::TypeBoolean,
        Token::Plus => Token::Plus,
        Token::Minus => Token::Minus,
        Token::Star => Token::Star,
        Token::Slash => Token::Slash,
        Token::Percent => Token::Percent,
        Token::LParen => Token::LParen,
        Token::RParen => Token::RParen,
        Token::Semicolon => Token::Semicolon,
        Token::Comma => Token::Comma,
        Token::Assign => Token::Assign,
        Token::NumEq => Token::NumEq,
        Token::Less => Token::Less,
        Token::LessEq => Token::LessEq,
        Token::Greater => Token::Greater,
        Token::GreaterEq => Token::GreaterEq,
        Token::NumNeq => Token::NumNeq,
        Token::StrEq => Token::StrEq,
        Token::StrNeq => Token::StrNeq,
        Token::Num(n) => Token::Num(*n),
        Token::StringLit(x) => Token::StringLit(x.clone()),
        Token::Ident(x) => Token::Ident(x.clone()),
    }
}

/// A number per token kind, payloads aside.
pub open spec fn code_of(t: Token) -> u8 {
    match t {
        Token::And => 1,
        Token::Or => 2,
        Token::Not => 3,
        Token::True => 4,
        Token::False => 5,
        Token::If => 6,
        Token::Then => 7,
        Token::Elif => 8,
        Token::Else => 9,
        Token::For => 10,
        Token::To => 11,
        Token::Do => 12,
        Token::Break => 13,
        Token::Continue => 14,
        Token::Begin => 15,
        Token::End => 16,
        Token::Exit => 17,
        Token::Print => 18,
        Token::ReadInt => 19,
        Token::ReadStr => 20,
        Token::ReadBool => 21,
        Token::Substring => 22,
        Token::Length => 23,
        Token::Position => 24,
        Token::Concatenate => 25,
        Token::TypeString => 26,
        Token::TypeInteger => 27,
        Token::TypeBoolean => 28,
        Token::Plus => 29,
        Token::Minus => 30,
        Token::Star => 31,
        Token::Slash => 32,
        Token::Percent => 33,
        Token::LParen => 34,
        Token::RParen => 35,
        Token::Semicolon => 36,
        Token::Comma => 37,
        Token::Assign => 38,
        Token::NumEq => 39,
        Token::Less => 40,
        Token::LessEq => 41,
        Token::Greater => 42,
        Token::GreaterEq => 43,
        Token::NumNeq => 44,
        Token::StrEq => 45,
        Token::StrNeq => 46,
        Token::Num(_) => 47,
        Token::StringLit(_) => 48,
        Token::Ident(_) => 49,
    }
}

/// A fixed token is the only one with its number.
proof fn lemma_code_fixed(a: Token, b: Token)
    requires
        code_of(a) == code_of(b),
        is_fixed(b),
    ensures
        a == b,
{
}

fn token_code(t: &Token) -> (r: u8)
    ensures
        r == code_of(*t),
{
    match t {
        Token::And => 1,
        Token::Or => 2,
        Token::Not => 3,
        Token::True => 4,
        Token::False => 5,
        Token::If => 6,
        Token::Then => 7,
        Token::Elif => 8,
        Token::Else => 9,
        Token::For => 10,
        Token::To => 11,
        Token::Do => 12,
        Token::Break => 13,
        Token::Continue => 14,
        Token::Begin => 15,
        Token::End => 16,
        Token::Exit => 17,
        Token::Print => 18,
        Token::ReadInt => 19,
        Token::ReadStr => 20,
        Token::ReadBool => 21,
        Token::Substring => 22,
        Token::Length => 23,
        Token::Position => 24,
        Token::Concatenate => 25,
        Token::TypeString => 26,
        Token::TypeInteger => 27,
        Token::TypeBoolean => 28,
        Token::Plus => 29,
        Token::Minus => 30,
        Token::Star => 31,
        Token::Slash => 32,
        Token::Percent => 33,
        Token::LParen => 34,
        Token::RParen => 35,
        Token::Semicolon => 36,
        Token::Comma => 37,
        Token::Assign => 38,
        Token::NumEq => 39,
        Token::Less => 40,
        Token::LessEq => 41,
        Token::Greater => 42,
        Token::GreaterEq => 43,
        Token::NumNeq => 44,
        Token::StrEq => 45,
        Token::StrNeq => 46,
        Token::Num(_) => 47,
        Token::StringLit(_) => 48,
        Token::Ident(_) => 49,
    }
}

fn node(kind: ExprKind, start: usize, end: usize) -> (e: Expr)
    ensures
        e.kind == kind,
        e.span.start == start,
        e.span.end == end,
{
    Expr { kind, span: Range { start, end } }
}

fn stmt_node(kind: StmtKind, start: usize, end: usize) -> (s: Statement)
    ensures
        s.kind == kind,
        s.span.start == start,
        s.span.end == end,
{
    Statement { kind, span: Range { start, end } }
}

/// A position in the token list.
struct Cursor {
    tokens: Vec<Result<(usize, Token, usize), LexicalError>>,
    pos: usize,
    /// Where the last token taken ends.
    prev_end: usize,
    /// Where the text ends, as far as the tokens tell.
    eof: usize,
}

impl Cursor {
    spec fn wf(&self) -> bool {
        &&& self.pos <= self.tokens@.len()
        &&& tokens_ok(self.tokens@)
        &&& self.eof == text_end(self.tokens@)
        &&& self.pos > 0 ==> self.prev_end == end_at(self.tokens@, self.pos - 1)
    }

    spec fn moved_on(&self, old: &Cursor) -> bool {
        &&& self.wf()
        &&& self.tokens == old.tokens
        &&& old.pos <= self.pos
    }

    fn new(input: &str) -> (c: Cursor)
        ensures
            c.wf(),
            c.pos == 0,
            lexed(input@, c.tokens@),
    {
        let tokens = tokenize(input);
        assert forall|k: int| 0 <= k < tokens@.len() implies #[trigger] token_ok(tokens@[k]) by {
            let t = tokens@[k];
            if let Ok((_, Token::StringLit(x), _)) = t {
                assert(crate::lexer::token_of_word(
                    input@.subrange(
                        crate::lexer::lexemes(input@)[k].1,
                        crate::lexer::lexemes(input@)[k].2,
                    ),
                    t->Ok_0.1,
                ));
            }
        }
        let eof = if tokens.len() == 0 {
            0
        } else {
            match &tokens[tokens.len() - 1] {
                Ok((_, _, r)) => *r,
                Err(LexicalError::InvalidToken(rg)) => rg.end,
            }
        };
        Cursor { tokens, pos: 0, prev_end: 0, eof }
    }

    /// The kind of the current token: 0 at the end, 255 on a lexical error.
    fn code(&self) -> (r: u8)
        requires
            self.wf(),
        ensures
            self.pos >= self.tokens@.len() ==> r == 0,
            self.pos < self.tokens@.len() ==> r == match self.tokens@[self.pos as int] {
                Ok((_, t, _)) => code_of(t),
                Err(_) => 255u8,
            },
    {
        if self.pos >= self.tokens.len() {
            return 0;
        }
        match &self.tokens[self.pos] {
            Ok((_, t, _)) => token_code(t),
            Err(_) => 255,
        }
    }

    fn is_at(&self, t: &Token) -> (r: bool)
        requires
            self.wf(),
            is_fixed(*t),
        ensures
            r ==> self.pos < self.tokens@.len(),
            r ==> tok_is(self.tokens@, self.pos as int, *t),
            !r ==> !tok_is(self.tokens@, self.pos as int, *t),
    {
        let c = self.code();
        let r = c != 0 && c != 255 && c == token_code(t);
        proof {
            if r {
                lemma_code_fixed(self.tokens@[self.pos as int]->Ok_0.1, *t);
            }
        }
        r
    }

    /// Where the current token starts (the end of the text past the last one).
    fn start(&self) -> (r: usize)
        requires
            self.wf(),
        ensures
            r == start_at(self.tokens@, self.pos as int),
    {
        if self.pos >= self.tokens.len() {
            return self.eof;
        }
        match &self.tokens[self.pos] {
            Ok((l, _, _)) => *l,
            Err(LexicalError::InvalidToken(rg)) => rg.start,
        }
    }

    /// The error for the current token.
    fn error_here(&self) -> (r: ParseError)
        requires
            self.wf(),
        ensures
            r == error_at(self.tokens@, self.pos as int),
    {
        if self.pos >= self.tokens.len() {
            return ParseError::UnrecognizedEof { location: self.eof };
        }
        match &self.tokens[self.pos] {
            Ok((l, t, r)) => ParseError::UnrecognizedToken { token: (*l, copy_token(t), *r) },
            Err(LexicalError::InvalidToken(rg)) => ParseError::User {
                error: LexicalError::InvalidToken(Range { start: rg.start, end: rg.end }),
            },
        }
    }

    /// Takes the current token.
    fn advance(&mut self)
        requires
            old(self).wf(),
            old(self).pos < old(self).tokens@.len(),
        ensures
            final(self).wf(),
            final(self).tokens == old(self).tokens,
            final(self).pos == old(self).pos + 1,
            final(self).prev_end == end_at(old(self).tokens@, old(self).pos as int),
    {
        let n = self.tokens.len();
        let end = match &self.tokens[self.pos] {
            Ok((_, _, r)) => *r,
            Err(LexicalError::InvalidToken(rg)) => rg.end,
        };
        self.prev_end = end;
        self.pos = self.pos + 1;
    }

    /// Takes the current token when it is `t`.
    fn expect(&mut self, t: &Token) -> (r: Result<(), ParseError>)
        requires
            old(self).wf(),
            is_fixed(*t),
        ensures
            r matches Err(e) ==> fails_at(old(self).tokens@, old(self).pos as int, e),
            final(self).moved_on(old(self)),
            r is Ok ==> final(self).pos == old(self).pos + 1,
            r is Ok ==> tok_is(old(self).tokens@, old(self).pos as int, *t),
            match expect_at(old(self).tokens@, old(self).pos as int, *t) {
                Ok(k) => r is Ok && final(self).pos == k,
                Err(e) => r == Err::<(), ParseError>(e),
            },
    {
        if self.is_at(t) {
            self.advance();
            Ok(())
        } else {
            Err(self.error_here())
        }
    }

    /// The name in the current token, when it is an identifier.
    fn ident_here(&self) -> (r: Option<String>)
        requires
            self.wf(),
        ensures
            r matches Some(x) ==> ident_is(self.tokens@, self.pos as int, x),
            r is None ==> !(self.pos < self.tokens@.len() && self.tokens@[self.pos as int] is Ok
                && self.tokens@[self.pos as int]->Ok_0.1 is Ident),
    {
        if self.pos >= self.tokens.len() {
            return None;
        }
        match &self.tokens[self.pos] {
            Ok((_, Token::Ident(x), _)) => Some(x.clone()),
            _ => None,
        }
    }

    /// Takes an identifier.
    fn expect_ident(&mut self) -> (r: Result<String, ParseError>)
        requires
            old(self).wf(),
        ensures
            r matches Err(e) ==> fails_at(old(self).tokens@, old(self).pos as int, e),
            final(self).moved_on(old(self)),
            r is Ok ==> final(self).pos == old(self).pos + 1,
            r matches Ok(x) ==> ident_is(old(self).tokens@, old(self).pos as int, x),
            r is Ok <==> (old(self).pos < old(self).tokens@.len() && old(self).tokens@[old(
                self,
            ).pos as int] is Ok && old(self).tokens@[old(self).pos as int]->Ok_0.1 is Ident),
            r is Err ==> r == Err::<String, ParseError>(
                error_at(old(self).tokens@, old(self).pos as int),
            ),
    {
        match self.ident_here() {
            Some(x) => {
                if self.pos < self.tokens.len() {
                    self.advance();
                    Ok(x)
                } else {
                    Err(self.error_here())
                }
            },
            None => Err(self.error_here()),
        }
    }

    /// The literal in the current token, when it is a string.
    fn string_here(&self) -> (r: Option<String>)
        requires
            self.wf(),
        ensures
            r matches Some(x) ==> literal_ok(x@) && tok_is(
                self.tokens@,
                self.pos as int,
                Token::StringLit(x),
            ),
            r is None ==> !(self.pos < self.tokens@.len() && self.tokens@[self.pos as int] is Ok
                && self.tokens@[self.pos as int]->Ok_0.1 is StringLit),
    {
        if self.pos >= self.tokens.len() {
            return None;
        }
        assert(token_ok(self.tokens@[self.pos as int]));
        match &self.tokens[self.pos] {
            Ok((_, Token::StringLit(x), _)) => Some(x.clone()),
            _ => None,
        }
    }


    /// An expression.
    fn parse_expr(&mut self) -> (r: Result<Expr, ParseError>)
        requires
            old(self).wf(),
        ensures
            yields_expr(
                r,
                final(self).pos as int,
                parse_expr_at(old(self).tokens@, 8, old(self).pos as int),
            ),
            r matches Err(e) ==> fails_at(old(self).tokens@, old(self).pos as int, e),
            final(self).moved_on(old(self)),
            r matches Ok(e) ==> expr_lits_ok(e) && final(self).pos > old(self).pos && expr_at(
                old(self).tokens@,
                8,
                old(self).pos as int,
                final(self).pos as int,
                e,
            ),
        decreases old(self).tokens@.len() - old(self).pos, 8nat,
    {
        self.parse_or()
    }

    fn parse_or(&mut self) -> (r: Result<Expr, ParseError>)
        requires
            old(self).wf(),
        ensures
            yields_expr(
                r,
                final(self).pos as int,
                parse_expr_at(old(self).tokens@, 7, old(self).pos as int),
            ),
            r matches Err(e) ==> fails_at(old(self).tokens@, old(self).pos as int, e),
            final(self).moved_on(old(self)),
            r matches Ok(e) ==> expr_lits_ok(e) && final(self).pos > old(self).pos && expr_at(
                old(self).tokens@,
                7,
                old(self).pos as int,
                final(self).pos as int,
                e,
            ),
        decreases old(self).tokens@.len() - old(self).pos, 7nat,
    {
        let ghost i = self.pos as int;
        let l = self.start();
        let mut left = self.parse_and()?;
        while self.is_at(&Token::Or)
            invariant
                self.moved_on(old(self)),
                self.pos > old(self).pos,
                expr_lits_ok(left),
                i == old(self).pos,
                l == start_at(self.tokens@, i),
                expr_at(self.tokens@, 7, i, self.pos as int, left),
                parse_expr_at(self.tokens@, 7, i) == parse_tail_at(self.tokens@, 7, i, left, self.pos as int),
            decreases self.tokens@.len() - self.pos,
        {
            let ghost k = self.pos as int;
            self.advance();
            let right = self.parse_and()?;
            let ghost old_left = left;
            left = node(ExprKind::Or(Box::new(left), Box::new(right)), l, self.prev_end);
            proof {
                lemma_binary_at(self.tokens@, 7, i, k, self.pos as int, left, old_left, right);
            }
        }
        Ok(left)
    }

    fn parse_and(&mut self) -> (r: Result<Expr, ParseError>)
        requires
            old(self).wf(),
        ensures
            yields_expr(
                r,
                final(self).pos as int,
                parse_expr_at(old(self).tokens@, 6, old(self).pos as int),
            ),
            r matches Err(e) ==> fails_at(old(self).tokens@, old(self).pos as int, e),
            final(self).moved_on(old(self)),
            r matches Ok(e) ==> expr_lits_ok(e) && final(self).pos > old(self).pos && expr_at(
                old(self).tokens@,
                6,
                old(self).pos as int,
                final(self).pos as int,
                e,
            ),
        decreases old(self).tokens@.len() - old(self).pos, 6nat,
    {
        let ghost i = self.pos as int;
        let l = self.start();
        let mut left = self.parse_not()?;
        while self.is_at(&Token::And)
            invariant
                self.moved_on(old(self)),
                self.pos > old(self).pos,
                expr_lits_ok(left),
                i == old(self).pos,
                l == start_at(self.tokens@, i),
                expr_at(self.tokens@, 6, i, self.pos as int, left),
                parse_expr_at(self.tokens@, 6, i) == parse_tail_at(self.tokens@, 6, i, left, self.pos as int),
            decreases self.tokens@.len() - self.pos,
        {
            let ghost k = self.pos as int;
            self.advance();
            let right = self.parse_not()?;
            let ghost old_left = left;
            left = node(ExprKind::And(Box::new(left), Box::new(right)), l, self.prev_end);
            proof {
                lemma_binary_at(self.tokens@, 6, i, k, self.pos as int, left, old_left, right);
            }
        }
        Ok(left)
    }

    fn parse_not(&mut self) -> (r: Result<Expr, ParseError>)
        requires
            old(self).wf(),
        ensures
            yields_expr(
                r,
                final(self).pos as int,
                parse_expr_at(old(self).tokens@, 5, old(self).pos as int),
            ),
            r matches Err(e) ==> fails_at(old(self).tokens@, old(self).pos as int, e),
            final(self).moved_on(old(self)),
            r matches Ok(e) ==> expr_lits_ok(e) && final(self).pos > old(self).pos && expr_at(
                old(self).tokens@,
                5,
                old(self).pos as int,
                final(self).pos as int,
                e,
            ),
        decreases old(self).tokens@.len() - old(self).pos, 5nat,
    {
        if self.is_at(&Token::Not) {
            let l = self.start();
            self.advance();
            let e = self.parse_not()?;
            Ok(node(ExprKind::Not(Box::new(e)), l, self.prev_end))
        } else {
            self.parse_relation()
        }
    }

    /// The comparison operator at the cursor, if any: 1 `=`, 2 `<>`, 3 `==`,
    /// 4 `!=`, 5 `<`, 6 `<=`, 7 `>`, 8 `>=`.
    fn relation_op(&self) -> (r: u8)
        requires
            self.wf(),
        ensures
            r != 0 ==> self.pos < self.tokens@.len(),
            r == 1 ==> tok_is(self.tokens@, self.pos as int, Token::NumEq),
            r == 2 ==> tok_is(self.tokens@, self.pos as int, Token::NumNeq),
            r == 3 ==> tok_is(self.tokens@, self.pos as int, Token::StrEq),
            r == 4 ==> tok_is(self.tokens@, self.pos as int, Token::StrNeq),
            r == 5 ==> tok_is(self.tokens@, self.pos as int, Token::Less),
            r == 6 ==> tok_is(self.tokens@, self.pos as int, Token::LessEq),
            r == 7 ==> tok_is(self.tokens@, self.pos as int, Token::Greater),
            r == 8 ==> tok_is(self.tokens@, self.pos as int, Token::GreaterEq),
            r <= 8,
            r == 0 ==> !tok_is(self.tokens@, self.pos as int, Token::NumEq) && !tok_is(
                self.tokens@,
                self.pos as int,
                Token::NumNeq,
            ) && !tok_is(self.tokens@, self.pos as int, Token::StrEq) && !tok_is(
                self.tokens@,
                self.pos as int,
                Token::StrNeq,
            ) && !tok_is(self.tokens@, self.pos as int, Token::Less) && !tok_is(
                self.tokens@,
                self.pos as int,
                Token::LessEq,
            ) && !tok_is(self.tokens@, self.pos as int, Token::Greater) && !tok_is(
                self.tokens@,
                self.pos as int,
                Token::GreaterEq,
            ),
    {
        if self.is_at(&Token::NumEq) {
            1
        } else if self.is_at(&Token::NumNeq) {
            2
        } else if self.is_at(&Token::StrEq) {
            3
        } else if self.is_at(&Token::StrNeq) {
            4
        } else if self.is_at(&Token::Less) {
            5
        } else if self.is_at(&Token::LessEq) {
            6
        } else if self.is_at(&Token::Greater) {
            7
        } else if self.is_at(&Token::GreaterEq) {
            8
        } else {
            0
        }
    }

    fn parse_relation(&mut self) -> (r: Result<Expr, ParseError>)
        requires
            old(self).wf(),
        ensures
            yields_expr(
                r,
                final(self).pos as int,
                parse_expr_at(old(self).tokens@, 4, old(self).pos as int),
            ),
            r matches Err(e) ==> fails_at(old(self).tokens@, old(self).pos as int, e),
            final(self).moved_on(old(self)),
            r matches Ok(e) ==> expr_lits_ok(e) && final(self).pos > old(self).pos && expr_at(
                old(self).tokens@,
                4,
                old(self).pos as int,
                final(self).pos as int,
                e,
            ),
        decreases old(self).tokens@.len() - old(self).pos, 4nat,
    {
        let ghost i = self.pos as int;
        let l = self.start();
        let rl = self.parse_add();
        assert(rl is Err ==> parse_expr_at(self.tokens@, 4, i) == parse_expr_at(self.tokens@, 3, i));
        let mut left = rl?;
        let mut op = self.relation_op();
        while op != 0
            invariant
                self.moved_on(old(self)),
                self.pos > old(self).pos,
                expr_lits_ok(left),
                op != 0 ==> self.pos < self.tokens@.len(),
                op == 1 ==> tok_is(self.tokens@, self.pos as int, Token::NumEq),
                op == 2 ==> tok_is(self.tokens@, self.pos as int, Token::NumNeq),
                op == 3 ==> tok_is(self.tokens@, self.pos as int, Token::StrEq),
                op == 4 ==> tok_is(self.tokens@, self.pos as int, Token::StrNeq),
                op == 5 ==> tok_is(self.tokens@, self.pos as int, Token::Less),
                op == 6 ==> tok_is(self.tokens@, self.pos as int, Token::LessEq),
                op == 7 ==> tok_is(self.tokens@, self.pos as int, Token::Greater),
                op == 8 ==> tok_is(self.tokens@, self.pos as int, Token::GreaterEq),
                op <= 8,
                op == 0 ==> !tok_is(self.tokens@, self.pos as int, Token::NumEq) && !tok_is(
                    self.tokens@,
                    self.pos as int,
                    Token::NumNeq,
                ) && !tok_is(self.tokens@, self.pos as int, Token::StrEq) && !tok_is(
                    self.tokens@,
                    self.pos as int,
                    Token::StrNeq,
                ) && !tok_is(self.tokens@, self.pos as int, Token::Less) && !tok_is(
                    self.tokens@,
                    self.pos as int,
                    Token::LessEq,
                ) && !tok_is(self.tokens@, self.pos as int, Token::Greater) && !tok_is(
                    self.tokens@,
                    self.pos as int,
                    Token::GreaterEq,
                ),
                i == old(self).pos,
                l == start_at(self.tokens@, i),
                expr_at(self.tokens@, 4, i, self.pos as int, left),
                parse_expr_at(self.tokens@, 4, i) == parse_tail_at(self.tokens@, 4, i, left, self.pos as int),
            decreases self.tokens@.len() - self.pos,
        {
            let ghost k = self.pos as int;
            self.advance();
            let right = self.parse_add()?;
            let ghost old_left = left;
            let a = Box::new(left);
            let b = Box::new(right);
            let kind = if op == 1 || op == 3 {
                ExprKind::Eq(a, b)
            } else if op == 2 || op == 4 {
                ExprKind::Neq(a, b)
            } else if op == 5 {
                ExprKind::Less(a, b)
            } else if op == 6 {
                ExprKind::LessEq(a, b)
            } else if op == 7 {
                ExprKind::Greater(a, b)
            } else {
                ExprKind::GreaterEq(a, b)
            };
            assert(relation_token(self.tokens@, k, kind));
            left = node(kind, l, self.prev_end);
            proof {
                lemma_binary_at(self.tokens@, 4, i, k, self.pos as int, left, old_left, right);
            }
            op = self.relation_op();
        }
        Ok(left)
    }

    fn parse_add(&mut self) -> (r: Result<Expr, ParseError>)
        requires
            old(self).wf(),
        ensures
            yields_expr(
                r,
                final(self).pos as int,
                parse_expr_at(old(self).tokens@, 3, old(self).pos as int),
            ),
            r matches Err(e) ==> fails_at(old(self).tokens@, old(self).pos as int, e),
            final(self).moved_on(old(self)),
            r matches Ok(e) ==> expr_lits_ok(e) && final(self).pos > old(self).pos && expr_at(
                old(self).tokens@,
                3,
                old(self).pos as int,
                final(self).pos as int,
                e,
            ),
        decreases old(self).tokens@.len() - old(self).pos, 3nat,
    {
        let ghost i = self.pos as int;
        let l = self.start();
        let rl = self.parse_mul();
        assert(rl is Err ==> parse_expr_at(self.tokens@, 3, i) == parse_expr_at(self.tokens@, 2, i));
        let mut left = rl?;
        loop
            invariant
                self.moved_on(old(self)),
                self.pos > old(self).pos,
                expr_lits_ok(left),
                i == old(self).pos,
                l == start_at(self.tokens@, i),
                expr_at(self.tokens@, 3, i, self.pos as int, left),
                parse_expr_at(self.tokens@, 3, i) == parse_tail_at(self.tokens@, 3, i, left, self.pos as int),
            ensures
                !tok_is(self.tokens@, self.pos as int, Token::Plus),
                !tok_is(self.tokens@, self.pos as int, Token::Minus),
            decreases self.tokens@.len() - self.pos,
        {
            let plus = self.is_at(&Token::Plus);
            if !plus && !self.is_at(&Token::Minus) {
                break;
            }
            let ghost k = self.pos as int;
            self.advance();
            let right = self.parse_mul()?;
            let ghost old_left = left;
            let kind = if plus {
                ExprKind::Add(Box::new(left), Box::new(right))
            } else {
                ExprKind::Sub(Box::new(left), Box::new(right))
            };
            left = node(kind, l, self.prev_end);
            proof {
                lemma_binary_at(self.tokens@, 3, i, k, self.pos as int, left, old_left, right);
            }
        }
        Ok(left)
    }

    fn parse_mul(&mut self) -> (r: Result<Expr, ParseError>)
        requires
            old(self).wf(),
        ensures
            yields_expr(
                r,
                final(self).pos as int,
                parse_expr_at(old(self).tokens@, 2, old(self).pos as int),
            ),
            r matches Err(e) ==> fails_at(old(self).tokens@, old(self).pos as int, e),
            final(self).moved_on(old(self)),
            r matches Ok(e) ==> expr_lits_ok(e) && final(self).pos > old(self).pos && expr_at(
                old(self).tokens@,
                2,
                old(self).pos as int,
                final(self).pos as int,
                e,
            ),
        decreases old(self).tokens@.len() - old(self).pos, 2nat,
    {
        let ghost i = self.pos as int;
        let l = self.start();
        let rl = self.parse_unary();
        assert(rl is Err ==> parse_expr_at(self.tokens@, 2, i) == parse_expr_at(self.tokens@, 1, i));
        let mut left = rl?;
        loop
            invariant
                self.moved_on(old(self)),
                self.pos > old(self).pos,
                expr_lits_ok(left),
                i == old(self).pos,
                l == start_at(self.tokens@, i),
                expr_at(self.tokens@, 2, i, self.pos as int, left),
                parse_expr_at(self.tokens@, 2, i) == parse_tail_at(self.tokens@, 2, i, left, self.pos as int),
            ensures
                !tok_is(self.tokens@, self.pos as int, Token::Star),
                !tok_is(self.tokens@, self.pos as int, Token::Slash),
                !tok_is(self.tokens@, self.pos as int, Token::Percent),
            decreases self.tokens@.len() - self.pos,
        {
            let op: u8 = if self.is_at(&Token::Star) {
                1
            } else if self.is_at(&Token::Slash) {
                2
            } else if self.is_at(&Token::Percent) {
                3
            } else {
                0
            };
            if op == 0 {
                break;
            }
            let ghost k = self.pos as int;
            self.advance();
            let right = self.parse_unary()?;
            let ghost old_left = left;
            let a = Box::new(left);
            let b = Box::new(right);
            let kind = if op == 1 {
                ExprKind::Mul(a, b)
            } else if op == 2 {
                ExprKind::Div(a, b)
            } else {
                ExprKind::Mod(a, b)
            };
            left = node(kind, l, self.prev_end);
            proof {
                lemma_binary_at(self.tokens@, 2, i, k, self.pos as int, left, old_left, right);
            }
        }
        Ok(left)
    }

    fn parse_unary(&mut self) -> (r: Result<Expr, ParseError>)
        requires
            old(self).wf(),
        ensures
            yields_expr(
                r,
                final(self).pos as int,
                parse_expr_at(old(self).tokens@, 1, old(self).pos as int),
            ),
            r matches Err(e) ==> fails_at(old(self).tokens@, old(self).pos as int, e),
            final(self).moved_on(old(self)),
            r matches Ok(e) ==> expr_lits_ok(e) && final(self).pos > old(self).pos && expr_at(
                old(self).tokens@,
                1,
                old(self).pos as int,
                final(self).pos as int,
                e,
            ),
        decreases old(self).tokens@.len() - old(self).pos, 1nat,
    {
        if self.is_at(&Token::Minus) {
            let l = self.start();
            self.advance();
            let minus_end = self.prev_end;
            let e = self.parse_unary()?;
            let zero = node(ExprKind::Number(0), l, minus_end);
            assert(expr_lits_ok(zero));
            Ok(node(ExprKind::Sub(Box::new(zero), Box::new(e)), l, self.prev_end))
        } else {
            self.parse_primary()
        }
    }

    /// `( e )` after the name of a call that takes one argument.
    fn parse_args1(&mut self) -> (r: Result<Expr, ParseError>)
        requires
            old(self).wf(),
        ensures
            yields_expr(r, final(self).pos as int, parse_parens_at(old(self).tokens@, old(self).pos as int)),
            r matches Err(e) ==> fails_at(old(self).tokens@, old(self).pos as int, e),
            final(self).moved_on(old(self)),
            r matches Ok(e) ==> expr_lits_ok(e) && final(self).pos > old(self).pos + 2 && tok_is(
                old(self).tokens@,
                old(self).pos as int,
                Token::LParen,
            ) && expr_at(
                old(self).tokens@,
                8,
                old(self).pos + 1,
                final(self).pos - 1,
                e,
            ) && tok_is(old(self).tokens@, final(self).pos - 1, Token::RParen),
        decreases old(self).tokens@.len() - old(self).pos, 9nat,
    {
        self.expect(&Token::LParen)?;
        let e = self.parse_expr()?;
        self.expect(&Token::RParen)?;
        Ok(e)
    }

    /// `( a , b )` after the name of a call that takes two arguments.
    fn parse_args2(&mut self) -> (r: Result<(Expr, Expr), ParseError>)
        requires
            old(self).wf(),
        ensures
            match parse_pair_at(old(self).tokens@, old(self).pos as int) {
                Ok((pr, j)) => r == Ok::<(Expr, Expr), ParseError>(pr) && final(self).pos == j,
                Err(e) => r == Err::<(Expr, Expr), ParseError>(e),
            },
            r matches Err(e) ==> fails_at(old(self).tokens@, old(self).pos as int, e),
            final(self).moved_on(old(self)),
            r matches Ok(p) ==> expr_lits_ok(p.0) && expr_lits_ok(p.1) && final(self).pos > old(
                self,
            ).pos && tok_is(old(self).tokens@, old(self).pos as int, Token::LParen) && tok_is(
                old(self).tokens@,
                final(self).pos - 1,
                Token::RParen,
            ) && exists|k: int|
                old(self).pos + 1 < k < final(self).pos - 2 && #[trigger] expr_at(
                    old(self).tokens@,
                    8,
                    old(self).pos + 1,
                    k,
                    p.0,
                ) && tok_is(old(self).tokens@, k, Token::Comma) && expr_at(
                    old(self).tokens@,
                    8,
                    k + 1,
                    final(self).pos - 1,
                    p.1,
                ),
        decreases old(self).tokens@.len() - old(self).pos, 9nat,
    {
        self.expect(&Token::LParen)?;
        let a = self.parse_expr()?;
        let ghost k = self.pos as int;
        self.expect(&Token::Comma)?;
        let b = self.parse_expr()?;
        self.expect(&Token::RParen)?;
        assert(expr_at(self.tokens@, 8, old(self).pos + 1, k, a));
        Ok((a, b))
    }

    fn parse_primary(&mut self) -> (r: Result<Expr, ParseError>)
        requires
            old(self).wf(),
        ensures
            yields_expr(
                r,
                final(self).pos as int,
                parse_expr_at(old(self).tokens@, 0, old(self).pos as int),
            ),
            r matches Err(e) ==> fails_at(old(self).tokens@, old(self).pos as int, e),
            final(self).moved_on(old(self)),
            r matches Ok(e) ==> expr_lits_ok(e) && final(self).pos > old(self).pos && expr_at(
                old(self).tokens@,
                0,
                old(self).pos as int,
                final(self).pos as int,
                e,
            ),
        decreases old(self).tokens@.len() - old(self).pos, 0nat,
    {
        let ghost i = self.pos as int;
        assert(parse_expr_at(self.tokens@, 0, i) == parse_primary_at(self.tokens@, i));
        let l = self.start();
        if let Some(n) = self.num_here() {
            if self.pos < self.tokens.len() {
                self.advance();
                return Ok(node(ExprKind::Number(n), l, self.prev_end));
            }
        }
        if let Some(x) = self.string_here() {
            if self.pos < self.tokens.len() {
                self.advance();
                return Ok(node(ExprKind::StringLit(x), l, self.prev_end));
            }
        }
        if let Some(x) = self.ident_here() {
            if self.pos < self.tokens.len() {
                self.advance();
                return Ok(node(ExprKind::Identifier(x), l, self.prev_end));
            }
        }
        let c = self.code();
        if c == 0 || c == 255 {
            return Err(self.error_here());
        }
        if self.is_at(&Token::True) {
            self.advance();
            Ok(node(ExprKind::True, l, self.prev_end))
        } else if self.is_at(&Token::False) {
            self.advance();
            Ok(node(ExprKind::False, l, self.prev_end))
        } else if self.is_at(&Token::ReadInt) {
            self.advance();
            Ok(node(ExprKind::ReadInt, l, self.prev_end))
        } else if self.is_at(&Token::ReadStr) {
            self.advance();
            Ok(node(ExprKind::ReadStr, l, self.prev_end))
        } else if self.is_at(&Token::ReadBool) {
            self.advance();
            Ok(node(ExprKind::ReadBool, l, self.prev_end))
        } else if self.is_at(&Token::LParen) {
            self.advance();
            let e = self.parse_expr()?;
            self.expect(&Token::RParen)?;
            Ok(e)
        } else if self.is_at(&Token::Length) {
            self.advance();
            let e = self.parse_args1()?;
            let r = node(ExprKind::Length(Box::new(e)), l, self.prev_end);
            assert(call_args(self.tokens@, i, self.pos as int, r.kind));
            Ok(r)
        } else if self.is_at(&Token::Concatenate) {
            self.advance();
            let (a, b) = self.parse_args2()?;
            let r = node(ExprKind::Concatenate(Box::new(a), Box::new(b)), l, self.prev_end);
            assert(call_args(self.tokens@, i, self.pos as int, r.kind));
            Ok(r)
        } else if self.is_at(&Token::Position) {
            self.advance();
            let (a, b) = self.parse_args2()?;
            let r = node(ExprKind::Position(Box::new(a), Box::new(b)), l, self.prev_end);
            assert(call_args(self.tokens@, i, self.pos as int, r.kind));
            Ok(r)
        } else if self.is_at(&Token::Substring) {
            self.advance();
            self.expect(&Token::LParen)?;
            let a = self.parse_expr()?;
            let ghost k1 = self.pos as int;
            self.expect(&Token::Comma)?;
            let b = self.parse_expr()?;
            let ghost k2 = self.pos as int;
            self.expect(&Token::Comma)?;
            let c = self.parse_expr()?;
            self.expect(&Token::RParen)?;
            let r = node(ExprKind::Substring(Box::new(a), Box::new(b), Box::new(c)), l, self.prev_end);
            assert(expr_at(self.tokens@, 8, i + 2, k1, a));
            assert(expr_at(self.tokens@, 8, k1 + 1, k2, b));
            assert(call_args(self.tokens@, i, self.pos as int, r.kind));
            Ok(r)
        } else {
            Err(self.error_here())
        }
    }

    /// A statement.
    fn parse_stmt(&mut self) -> (r: Result<Statement, ParseError>)
        requires
            old(self).wf(),
        ensures
            yields_stmt(r, final(self).pos as int, parse_stmt_at(old(self).tokens@, old(self).pos as int)),
            r matches Err(e) ==> fails_at(old(self).tokens@, old(self).pos as int, e),
            final(self).moved_on(old(self)),
            r matches Ok(st) ==> stmt_lits_ok(st) && final(self).pos > old(self).pos && stmt_at(
                old(self).tokens@,
                old(self).pos as int,
                final(self).pos as int,
                st,
            ),
        decreases old(self).tokens@.len() - old(self).pos, 10nat,
    {
        let ghost i = self.pos as int;
        let l = self.start();
        if let Some(name) = self.ident_here() {
            if self.pos < self.tokens.len() {
                self.advance();
                self.expect(&Token::Assign)?;
                let e = self.parse_expr()?;
                return Ok(stmt_node(StmtKind::Assign(name, Box::new(e)), l, self.prev_end));
            }
        }
        if self.is_at(&Token::Print) {
            self.advance();
            let e = self.parse_args1()?;
            Ok(stmt_node(StmtKind::Print(Box::new(e)), l, self.prev_end))
        } else if self.is_at(&Token::Begin) {
            self.advance();
            let mut stmts: Vec<Statement> = Vec::new();
            let ghost mut ps: Seq<int> = seq![i + 1];
            while !self.is_at(&Token::End)
                invariant
                    self.moved_on(old(self)),
                    self.pos > old(self).pos,
                    forall|k: int| 0 <= k < stmts@.len() ==> #[trigger] stmt_lits_ok(stmts@[k]),
                    i == old(self).pos,
                    l == start_at(self.tokens@, i),
                    tok_is(self.tokens@, i, Token::Begin),
                    ps.len() == stmts@.len() + 1,
                    ps[0] == i + 1,
                    ps.last() == self.pos,
                    parse_stmt_at(self.tokens@, i) == parse_block_at(
                        self.tokens@,
                        i,
                        stmts_view(stmts@, 0),
                        self.pos as int,
                    ),
                    forall|q: int|
                        0 <= q < stmts@.len() ==> item_at(
                            self.tokens@,
                            ps[q],
                            ps[q + 1],
                            #[trigger] stmts@[q],
                        ),
                decreases self.tokens@.len() - self.pos,
            {
                let ghost before = stmts@;
                let st = self.parse_stmt()?;
                self.expect(&Token::Semicolon)?;
                stmts.push(st);
                proof {
                    ps = ps.push(self.pos as int);
                    lemma_stmts_view_push(before, st, 0);
                }
            }
            let ghost e = self.pos as int;
            self.advance();
            proof {
                lemma_items_from(self.tokens@, stmts@, ps, 0);
                lemma_stmts_lits_ok(stmts@, 0);
            }
            Ok(stmt_node(StmtKind::Block(stmts), l, self.prev_end))
        } else if self.is_at(&Token::For) {
            self.advance();
            let iterator = self.expect_ident()?;
            self.expect(&Token::Assign)?;
            let from = self.parse_expr()?;
            let ghost k1 = self.pos as int;
            self.expect(&Token::To)?;
            let to = self.parse_expr()?;
            let ghost k2 = self.pos as int;
            self.expect(&Token::Do)?;
            let body = self.parse_stmt()?;
            Ok(
                stmt_node(
                    StmtKind::For {
                        iterator,
                        from: Box::new(from),
                        to: Box::new(to),
                        body: Box::new(body),
                    },
                    l,
                    self.prev_end,
                ),
            )
        } else if self.is_at(&Token::If) {
            self.advance();
            let condition = self.parse_expr()?;
            let ghost k1 = self.pos as int;
            self.expect(&Token::Then)?;
            let then_branch = self.parse_stmt()?;
            let ghost k2 = self.pos as int;
            let mut elif_branches: Vec<(Expr, Statement)> = Vec::new();
            let ghost mut bs: Seq<int> = seq![k2];
            let ghost mut as_: Seq<int> = seq![];
            while self.is_at(&Token::Elif)
                invariant
                    self.moved_on(old(self)),
                    self.pos > old(self).pos,
                    forall|k: int|
                        0 <= k < elif_branches@.len() ==> #[trigger] branch_lits_ok(
                            elif_branches@[k],
                        ),
                    bs.len() == elif_branches@.len() + 1,
                    as_.len() == elif_branches@.len(),
                    bs[0] == k2,
                    k2 > 0,
                    i == old(self).pos,
                    bs.last() == self.pos,
                    parse_stmt_at(self.tokens@, i) == parse_if_rest_at(
                        self.tokens@,
                        i,
                        condition,
                        stmt_view(then_branch),
                        elifs_view(elif_branches@, 0),
                        self.pos as int,
                    ),
                    forall|q: int|
                        0 <= q < elif_branches@.len() ==> elif_at(
                            self.tokens@,
                            bs[q],
                            as_[q],
                            bs[q + 1],
                            #[trigger] elif_branches@[q],
                        ),
                decreases self.tokens@.len() - self.pos,
            {
                let ghost b0 = self.pos as int;
                self.advance();
                let c = self.parse_expr()?;
                let ghost a0 = self.pos as int;
                self.expect(&Token::Then)?;
                let b = self.parse_stmt()?;
                let ghost before = elif_branches@;
                elif_branches.push((c, b));
                proof {
                    lemma_elifs_view_push(before, (c, b), 0);
                    bs = bs.push(self.pos as int);
                    as_ = as_.push(a0);
                    assert(elif_at(self.tokens@, b0, a0, self.pos as int, (c, b)));
                }
            }
            let ghost k3 = self.pos as int;
            let else_branch = if self.is_at(&Token::Else) {
                self.advance();
                Some(Box::new(self.parse_stmt()?))
            } else {
                None
            };
            proof {
                lemma_elifs_lits_ok(elif_branches@, 0);
                assert(if_rest(
                    self.tokens@,
                    elif_branches@,
                    else_branch,
                    elif_branches@.len() as int,
                    k3,
                    self.pos as int,
                ));
                lemma_if_rest_from(
                    self.tokens@,
                    elif_branches@,
                    else_branch,
                    bs,
                    as_,
                    0,
                    self.pos as int,
                );
                assert(boundary(k2));
            }
            Ok(
                stmt_node(
                    StmtKind::If {
                        condition: Box::new(condition),
                        then_branch: Box::new(then_branch),
                        elif_branches,
                        else_branch,
                    },
                    l,
                    self.prev_end,
                ),
            )
        } else if self.is_at(&Token::Break) {
            self.advance();
            Ok(stmt_node(StmtKind::Break, l, self.prev_end))
        } else if self.is_at(&Token::Continue) {
            self.advance();
            Ok(stmt_node(StmtKind::Continue, l, self.prev_end))
        } else if self.is_at(&Token::Exit) {
            self.advance();
            Ok(stmt_node(StmtKind::Exit, l, self.prev_end))
        } else {
            Err(self.error_here())
        }
    }

    /// The type keyword at the cursor, if any.
    fn type_here(&self) -> (r: Option<Type>)
        requires
            self.wf(),
        ensures
            r is Some ==> self.pos < self.tokens@.len(),
            r matches Some(t) ==> tok_is(self.tokens@, self.pos as int, type_token(t)),
            r == type_at(self.tokens@, self.pos as int),
    {
        if self.is_at(&Token::TypeInteger) {
            Some(Type::Integer)
        } else if self.is_at(&Token::TypeString) {
            Some(Type::String)
        } else if self.is_at(&Token::TypeBoolean) {
            Some(Type::Boolean)
        } else {
            None
        }
    }

    /// Declarations, then instructions, to the end of the tokens.
    fn parse_program(&mut self) -> (r: Result<Program, ParseError>)
        requires
            old(self).wf(),
            old(self).pos == 0,
        ensures
            yields_program(r, parse_program_spec(old(self).tokens@)),
            r matches Err(e) ==> fails_at(old(self).tokens@, old(self).pos as int, e),
            final(self).tokens == old(self).tokens,
            r matches Ok(p) ==> program_lits_ok(p) && program_at(old(self).tokens@, p),
    {
        let mut declarations: Vec<Declaration> = Vec::new();
        loop
            invariant
                self.wf(),
                self.tokens == old(self).tokens,
                old(self).pos == 0,
                self.pos == 3 * declarations@.len(),
                parse_program_spec(self.tokens@) == parse_decls_at(
                    self.tokens@,
                    declarations@,
                    self.pos as int,
                ),
                forall|m: int|
                    0 <= m < declarations@.len() ==> decl_at(
                        self.tokens@,
                        #[trigger] declarations@[m],
                        3 * m,
                    ),
            ensures
                type_at(self.tokens@, self.pos as int) is None,
            decreases self.tokens@.len() - self.pos,
        {
            let var_type = match self.type_here() {
                Some(t) => t,
                None => {
                    break;
                },
            };
            let l = self.start();
            self.advance();
            let identifier = self.expect_ident()?;
            let r = self.prev_end;
            self.expect(&Token::Semicolon)?;
            let d = Declaration { var_type, identifier, span: Range { start: l, end: r } };
            assert(decl_at(self.tokens@, d, 3 * (declarations@.len() as int)));
            declarations.push(d);
        }
        let ghost n = self.pos as int;
        let mut instructions: Vec<Statement> = Vec::new();
        let ghost mut ps: Seq<int> = seq![n];
        while self.pos < self.tokens.len()
            invariant
                self.wf(),
                self.tokens == old(self).tokens,
                old(self).pos == 0,
                n == 3 * declarations@.len(),
                n <= self.pos,
                forall|k: int| 0 <= k < instructions@.len() ==> #[trigger] stmt_lits_ok(instructions@[k]),
                ps.len() == instructions@.len() + 1,
                ps[0] == n,
                ps.last() == self.pos,
                parse_program_spec(self.tokens@) == parse_items_at(
                    self.tokens@,
                    declarations@,
                    stmts_view(instructions@, 0),
                    self.pos as int,
                ),
                forall|q: int|
                    0 <= q < instructions@.len() ==> item_at(
                        self.tokens@,
                        ps[q],
                        ps[q + 1],
                        #[trigger] instructions@[q],
                    ),
            decreases self.tokens@.len() - self.pos,
        {
            let ghost before = instructions@;
            let st = self.parse_stmt()?;
            self.expect(&Token::Semicolon)?;
            instructions.push(st);
            proof {
                ps = ps.push(self.pos as int);
                lemma_stmts_view_push(before, st, 0);
            }
        }
        proof {
            lemma_stmts_lits_ok(instructions@, 0);
            lemma_items_from(self.tokens@, instructions@, ps, 0);
        }
        Ok(Program { declarations, instructions })
    }

    /// The number in the current token, when it is one.
    fn num_here(&self) -> (r: Option<i32>)
        requires
            self.wf(),
        ensures
            r matches Some(n) ==> tok_is(self.tokens@, self.pos as int, Token::Num(n)),
            r is None ==> !(self.pos < self.tokens@.len() && self.tokens@[self.pos as int] is Ok
                && self.tokens@[self.pos as int]->Ok_0.1 is Num),
    {
        if self.pos >= self.tokens.len() {
            return None;
        }
        match &self.tokens[self.pos] {
            Ok((_, Token::Num(n), _)) => Some(*n),
            _ => None,
        }
    }
}


/// The text `s` holds the program `p`: its tokens derive `p`.
pub open spec fn program_text(s: Seq<char>, p: Program) -> bool {
    exists|tv: Toks| #[trigger] lexed(s, tv) && program_at(tv, p)
}

/// `e` is the error for one of the tokens of `s`, or for its end.
pub open spec fn error_in_text(s: Seq<char>, e: ParseError) -> bool {
    exists|tv: Toks| #[trigger] lexed(s, tv) && fails_at(tv, 0, e)
}

/// The text `s` holds the expression `e`: all of its tokens derive `e`.
pub open spec fn expr_text(s: Seq<char>, e: Expr) -> bool {
    exists|tv: Toks| #[trigger] lexed(s, tv) && expr_at(tv, 8, 0, tv.len() as int, e)
}

/// `r` is what the parser gives for the text `s`: the program, or the error,
/// that the parser's rules yield for the tokens of `s`.
pub open spec fn program_parse_of(s: Seq<char>, r: Result<Program, ParseError>) -> bool {
    exists|tv: Toks| #[trigger] lexed(s, tv) && yields_program(r, parse_program_spec(tv))
}

/// What parsing all of the tokens `tv` as one expression yields: the
/// expression, or the error for the first token left over.
pub open spec fn whole_expr_spec(tv: Toks) -> Result<Expr, ParseError> {
    match parse_expr_at(tv, 8, 0) {
        Err(e) => Err(e),
        Ok((e, j)) => if j < tv.len() {
            Err(error_at(tv, j))
        } else {
            Ok(e)
        },
    }
}

/// `r` is what the parser gives for the text `s` as one expression.
pub open spec fn expr_parse_of(s: Seq<char>, r: Result<Expr, ParseError>) -> bool {
    exists|tv: Toks| #[trigger] lexed(s, tv) && r == whole_expr_spec(tv)
}

/// Parses whole programs.
pub struct ProgramParser;

impl ProgramParser {
    pub fn new() -> ProgramParser {
        ProgramParser
    }

    /// The program that `input` holds, or why it holds none: a program is
    /// what the grammar derives from the text's tokens, and its string
    /// literals keep their quotes.
    pub fn parse(&self, input: &str) -> (r: Result<Program, ParseError>)
        ensures
            program_parse_of(input@, r),
            r matches Ok(p) ==> program_lits_ok(p) && program_text(input@, p),
            r matches Err(e) ==> error_in_text(input@, e),
            r is Err ==> exists|tv: Toks|
                #[trigger] lexed(input@, tv) && forall|p: Program| !program_at(tv, p),
    {
        let mut c = Cursor::new(input);
        let r = c.parse_program();
        proof {
            if r is Err {
                assert forall|p: Program| !program_at(c.tokens@, p) by {
                    if program_at(c.tokens@, p) {
                        parser_finds_every_program(c.tokens@, p);
                    }
                }
            }
        }
        assert(r matches Ok(p) ==> lexed(input@, c.tokens@) && program_at(c.tokens@, p));
        assert(r matches Err(e) ==> lexed(input@, c.tokens@) && fails_at(c.tokens@, 0, e));
        assert(lexed(input@, c.tokens@) && yields_program(r, parse_program_spec(c.tokens@)));
        r
    }
}

/// Parses a single expression that makes up the whole text.
pub struct ExprParser;

impl ExprParser {
    pub fn new() -> ExprParser {
        ExprParser
    }

    /// The expression that `input` holds, or why it holds none: the
    /// grammar derives it from all of the text's tokens.
    pub fn parse(&self, input: &str) -> (r: Result<Expr, ParseError>)
        ensures
            expr_parse_of(input@, r),
            r matches Ok(e) ==> expr_lits_ok(e) && expr_text(input@, e),
            r matches Err(e) ==> error_in_text(input@, e),
            r is Err ==> exists|tv: Toks|
                #[trigger] lexed(input@, tv) && forall|e: Expr|
                    !expr_at(tv, 8, 0, tv.len() as int, e),
    {
        let mut c = Cursor::new(input);
        let ghost tv = c.tokens@;
        proof {
            assert forall|e: Expr| expr_at(tv, 8, 0, tv.len() as int, e) implies whole_expr_spec(tv)
                == Ok::<Expr, ParseError>(e) by {
                parser_finds_every_expr(tv, e);
            }
        }
        let e = match c.parse_expr() {
            Ok(e) => e,
            Err(err) => {
                assert(lexed(input@, tv) && fails_at(tv, 0, err));
                assert(lexed(input@, tv) && Err::<Expr, ParseError>(err) == whole_expr_spec(tv));
                return Err(err);
            },
        };
        if c.pos < c.tokens.len() {
            let err = c.error_here();
            assert(lexed(input@, tv) && fails_at(tv, 0, err));
            assert(lexed(input@, tv) && Err::<Expr, ParseError>(err) == whole_expr_spec(tv));
            return Err(err);
        }
        assert(lexed(input@, tv) && Ok::<Expr, ParseError>(e) == whole_expr_spec(tv));
        assert(lexed(input@, c.tokens@) && expr_at(c.tokens@, 8, 0, c.tokens@.len() as int, e));
        Ok(e)
    }
}

} // verus!
