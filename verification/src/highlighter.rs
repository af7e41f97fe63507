//! Syntax highlighting of source lines: each line is cut into pieces by the
//! lexer, and each piece gets the style of the token it holds.
use crate::lexer::{
    agrees, byte_offset, fixed_text, is_fixed, is_ident_start, lemma_byte_offset_le,
    lemma_byte_offset_mono, lemma_lexemes_bounds, lexemes, token_of_word, tokenize, LexicalError,
    Token,
};
use crate::text::is_digit;
use vstd::prelude::*;
use vstd::utf8::encode_utf8;

verus! {

/// How a piece of a line is drawn.
#[derive(Debug, Clone, Copy, PartialEq, Eq, Structural)]
pub enum TokenStyle {
    /// A keyword: bold blue.
    Keyword,
    /// A string literal: green.
    Str,
    /// A number: yellow.
    Number,
    /// Everything else: unstyled.
    Plain,
}

/// The keywords of the language, type names included.
pub open spec fn is_keyword(t: Token) -> bool {
    match t {
        Token::And | Token::Or | Token::Not | Token::True | Token::False | Token::If
        | Token::Then | Token::Elif | Token::Else | Token::For | Token::To | Token::Do
        | Token::Break | Token::Continue | Token::Begin | Token::End | Token::Exit
        | Token::Print | Token::ReadInt | Token::ReadStr | Token::ReadBool | Token::Substring
        | Token::Length | Token::Position | Token::Concatenate | Token::TypeString
        | Token::TypeInteger | Token::TypeBoolean => true,
        _ => false,
    }
}

/// The style of a token.
pub open spec fn token_style(t: Token) -> TokenStyle {
    if is_keyword(t) {
        TokenStyle::Keyword
    } else {
        match t {
            Token::StringLit(_) => TokenStyle::Str,
            Token::Num(_) => TokenStyle::Number,
            _ => TokenStyle::Plain,
        }
    }
}

/// The style of the text of a valid token: string literals start with a
/// quote, numbers with a digit, and keywords are the words the language reserves.
pub open spec fn word_style(w: Seq<char>) -> TokenStyle {
    if w.len() > 0 && w[0] == '"' {
        TokenStyle::Str
    } else if w.len() > 0 && is_digit(w[0]) {
        TokenStyle::Number
    } else if w.len() > 0 && is_ident_start(w[0]) && exists|k: Token|
        is_fixed(k) && #[trigger] fixed_text(k) == w {
        TokenStyle::Keyword
    } else {
        TokenStyle::Plain
    }
}

/// Where a lexeme of `s` stands in bytes, and how it is drawn; invalid text is plain.
pub open spec fn lexeme_piece(s: Seq<char>, l: (bool, int, int)) -> (int, int, TokenStyle) {
    (
        byte_offset(s, l.1),
        byte_offset(s, l.2),
        if l.0 {
            word_style(s.subrange(l.1, l.2))
        } else {
            TokenStyle::Plain
        },
    )
}

/// The styled lexemes of `s`, in order.
pub open spec fn line_pieces(s: Seq<char>) -> Seq<(int, int, TokenStyle)> {
    lexemes(s).map_values(|l: (bool, int, int)| lexeme_piece(s, l))
}

/// The pieces from index `k` on, drawn from byte `pos` to byte `len`: the
/// text before a piece is plain, empty pieces are left out, and plain text
/// follows the last piece up to the end.
pub open spec fn segments_from(
    pieces: Seq<(int, int, TokenStyle)>,
    k: int,
    pos: int,
    len: int,
) -> Seq<(int, int, TokenStyle)>
    decreases pieces.len() - k,
{
    if k < 0 || k >= pieces.len() {
        if pos < len {
            seq![(pos, len, TokenStyle::Plain)]
        } else {
            seq![]
        }
    } else {
        let (start, end, style) = pieces[k];
        let gap = if start > pos {
            seq![(pos, start, TokenStyle::Plain)]
        } else {
            seq![]
        };
        let here = if end > start {
            seq![(start, end, style)]
        } else {
            seq![]
        };
        gap + here + segments_from(pieces, k + 1, end, len)
    }
}

/// How the line `s` is drawn, as byte ranges with their styles; a line
/// that yields no piece at all is drawn plain as a whole.
pub open spec fn highlight_spec(s: Seq<char>) -> Seq<(int, int, TokenStyle)> {
    let len = encode_utf8(s).len() as int;
    let r = segments_from(line_pieces(s), 0, 0, len);
    if r.len() == 0 && len > 0 {
        seq![(0, len, TokenStyle::Plain)]
    } else {
        r
    }
}

pub open spec fn segment_view(seg: (usize, usize, TokenStyle)) -> (int, int, TokenStyle) {
    (seg.0 as int, seg.1 as int, seg.2)
}

/// The style of a token.
pub fn style_for_token(token: &Token) -> (r: TokenStyle)
    ensures
        r == token_style(*token),
{
    match token {
        Token::And | Token::Or | Token::Not | Token::True | Token::False | Token::If
        | Token::Then | Token::Elif | Token::Else | Token::For | Token::To | Token::Do
        | Token::Break | Token::Continue | Token::Begin | Token::End | Token::Exit
        | Token::Print | Token::ReadInt | Token::ReadStr | Token::ReadBool | Token::Substring
        | Token::Length | Token::Position | Token::Concatenate | Token::TypeString
        | Token::TypeInteger | Token::TypeBoolean => TokenStyle::Keyword,
        Token::StringLit(_) => TokenStyle::Str,
        Token::Num(_) => TokenStyle::Number,
        _ => TokenStyle::Plain,
    }
}

/// A token's style follows from its text alone.
pub proof fn lemma_token_style_of_word(w: Seq<char>, t: Token)
    requires
        token_of_word(w, t),
    ensures
        token_style(t) == word_style(w),
{
    if is_fixed(t) {
        assert(fixed_text(t) == w);
        if is_keyword(t) {
            assert(is_fixed(t) && fixed_text(t) == w);
        }
    } else if let Token::Num(n) = t {
        assert(is_digit(w[0]));
    }
}

/// `segs` cover the bytes `from..to` exactly: in order, each non-empty,
/// each starting where the one before ends.
pub open spec fn tiles(segs: Seq<(int, int, TokenStyle)>, from: int, to: int) -> bool {
    &&& segs.len() == 0 ==> from == to
    &&& segs.len() > 0 ==> segs[0].0 == from && segs.last().1 == to
    &&& forall|k: int| 0 <= k < segs.len() ==> (#[trigger] segs[k]).0 < segs[k].1
    &&& forall|k: int| 0 <= k < segs.len() - 1 ==> (#[trigger] segs[k]).1 == segs[k + 1].0
}

/// The pieces from `k` on lie in order between `pos` and `len`, none empty.
spec fn pieces_sorted(pieces: Seq<(int, int, TokenStyle)>, k: int, pos: int, len: int) -> bool {
    &&& pos <= len
    &&& forall|j: int| k <= j < pieces.len() ==> (#[trigger] pieces[j]).0 < pieces[j].1 <= len
    &&& forall|j: int| k <= j < pieces.len() - 1 ==> (#[trigger] pieces[j]).1 <= pieces[j + 1].0
    &&& (0 <= k < pieces.len() ==> pos <= pieces[k].0)
}

proof fn lemma_tiles_concat(
    a: Seq<(int, int, TokenStyle)>,
    b: Seq<(int, int, TokenStyle)>,
    x: int,
    y: int,
    z: int,
)
    requires
        tiles(a, x, y),
        tiles(b, y, z),
    ensures
        tiles(a + b, x, z),
{
    let c = a + b;
    assert forall|k: int| 0 <= k < c.len() - 1 implies (#[trigger] c[k]).1 == c[k + 1].0 by {
        if k < a.len() - 1 {
            assert(c[k] == a[k] && c[k + 1] == a[k + 1]);
        } else if k == a.len() - 1 {
            assert(c[k] == a.last() && c[k + 1] == b[0]);
        } else {
            assert(c[k] == b[k - a.len()] && c[k + 1] == b[k - a.len() + 1]);
        }
    }
    assert forall|k: int| 0 <= k < c.len() implies (#[trigger] c[k]).0 < c[k].1 by {
        if k < a.len() {
            assert(c[k] == a[k]);
        } else {
            assert(c[k] == b[k - a.len()]);
        }
    }
    if a.len() > 0 {
        assert(c[0] == a[0]);
    }
    if b.len() > 0 {
        assert(c.last() == b.last());
    } else if a.len() > 0 {
        assert(c.last() == a.last());
    }
}

proof fn lemma_segments_tile(pieces: Seq<(int, int, TokenStyle)>, k: int, pos: int, len: int)
    requires
        0 <= k,
        pieces_sorted(pieces, k, pos, len),
    ensures
        tiles(segments_from(pieces, k, pos, len), pos, len),
    decreases pieces.len() - k,
{
    if k < pieces.len() {
        let (start, end, style) = pieces[k];
        let gap = if start > pos {
            seq![(pos, start, TokenStyle::Plain)]
        } else {
            seq![]
        };
        let here = seq![(start, end, style)];
        lemma_segments_tile(pieces, k + 1, end, len);
        let rest = segments_from(pieces, k + 1, end, len);
        assert(tiles(gap, pos, start));
        assert(tiles(here, start, end));
        lemma_tiles_concat(gap, here, pos, start, end);
        lemma_tiles_concat(gap + here, rest, pos, end, len);
    }
}

/// The pieces of a line lie in order over its bytes, none empty.
proof fn lemma_line_pieces_sorted(s: Seq<char>)
    ensures
        pieces_sorted(line_pieces(s), 0, 0, encode_utf8(s).len() as int),
{
    let pieces = line_pieces(s);
    let lx = lexemes(s);
    let len = encode_utf8(s).len() as int;
    lemma_lexemes_bounds(s, 0);
    assert forall|j: int| 0 <= j < pieces.len() implies (#[trigger] pieces[j]).0 < pieces[j].1
        <= len by {
        assert(0 <= lx[j].1 < lx[j].2 <= s.len());
        lemma_byte_offset_mono(s, lx[j].1, lx[j].2);
        lemma_byte_offset_le(s, lx[j].2);
    }
    assert forall|j: int| 0 <= j < pieces.len() - 1 implies (#[trigger] pieces[j]).1
        <= pieces[j + 1].0 by {
        assert(lx[j].2 <= lx[j + 1].1);
        assert(0 <= lx[j + 1].1 <= s.len());
        if lx[j].2 < lx[j + 1].1 {
            lemma_byte_offset_mono(s, lx[j].2, lx[j + 1].1);
        }
    }
    if pieces.len() > 0 {
        assert(0 <= lx[0].1 <= s.len());
        lemma_byte_offset_le(s, lx[0].1);
    }
}

/// However a line is cut, its pieces cover all of its bytes, in order,
/// without gaps or overlaps, and none is empty; an empty line has none.
pub proof fn highlight_covers_line(s: Seq<char>)
    ensures
        tiles(highlight_spec(s), 0, encode_utf8(s).len() as int),
{
    let len = encode_utf8(s).len() as int;
    lemma_line_pieces_sorted(s);
    lemma_segments_tile(line_pieces(s), 0, 0, len);
    let r = segments_from(line_pieces(s), 0, 0, len);
    if r.len() == 0 && len > 0 {
        assert(tiles(seq![(0int, len, TokenStyle::Plain)], 0, len));
    }
}

/// Highlights whole source texts.
pub struct WirthianHighlighter;

/// Highlights the lines of one text, one after the other.
pub struct WirthianHighlighterState;

impl WirthianHighlighter {
    /// The state in which the lines of a text are highlighted.
    pub fn start_highlighter_state(&self) -> (r: WirthianHighlighterState) {
        WirthianHighlighterState
    }
}

impl WirthianHighlighterState {
    /// The pieces of `line`, as byte ranges with their styles, in order.
    pub fn highlight_line(&mut self, line: &str) -> (r: Vec<(usize, usize, TokenStyle)>)
        ensures
            r@.map_values(|seg: (usize, usize, TokenStyle)| segment_view(seg)) == highlight_spec(
                line@,
            ),
    {
        let toks = tokenize(line);
        let len = line.as_bytes().len();
        let ghost s = line@;
        let ghost pieces = line_pieces(s);
        let ghost total = segments_from(pieces, 0, 0, len as int);
        let mut result: Vec<(usize, usize, TokenStyle)> = Vec::new();
        let mut pos: usize = 0;
        let mut k: usize = 0;
        assert(result@.map_values(|seg: (usize, usize, TokenStyle)| segment_view(seg))
            + segments_from(pieces, 0, 0, len as int) =~= total);
        while k < toks.len()
            invariant
                k <= toks@.len(),
                toks@.len() == lexemes(s).len(),
                pieces.len() == toks@.len(),
                pieces == line_pieces(s),
                s == line@,
                len == encode_utf8(s).len(),
                total == segments_from(pieces, 0, 0, len as int),
                forall|j: int|
                    0 <= j < toks@.len() ==> agrees(
                        s,
                        #[trigger] toks@[j],
                        lexemes(s)[j].0,
                        lexemes(s)[j].1,
                        lexemes(s)[j].2,
                    ),
                result@.map_values(|seg: (usize, usize, TokenStyle)| segment_view(seg))
                    + segments_from(pieces, k as int, pos as int, len as int) == total,
            decreases toks@.len() - k,
        {
            let (start, end, style) = match &toks[k] {
                Ok((start, token, end)) => (*start, *end, style_for_token(token)),
                Err(LexicalError::InvalidToken(range)) => (range.start, range.end, TokenStyle::Plain),
            };
            proof {
                let l = lexemes(s)[k as int];
                lemma_lexemes_bounds(s, 0);
                assert(0 <= l.1 < l.2 <= s.len());
                lemma_byte_offset_le(s, l.1);
                lemma_byte_offset_le(s, l.2);
                assert(agrees(s, toks@[k as int], l.0, l.1, l.2));
                if l.0 {
                    lemma_token_style_of_word(s.subrange(l.1, l.2), toks@[k as int]->Ok_0.1);
                }
                assert(pieces[k as int] == lexeme_piece(s, l));
                assert(pieces[k as int] == (start as int, end as int, style));
            }
            let ghost before = result@.map_values(|seg: (usize, usize, TokenStyle)| segment_view(seg));
            if start > pos {
                result.push((pos, start, TokenStyle::Plain));
            }
            if end > start {
                result.push((start, end, style));
            }
            proof {
                let gap = if start > pos {
                    seq![(pos as int, start as int, TokenStyle::Plain)]
                } else {
                    seq![]
                };
                let here = if end > start {
                    seq![(start as int, end as int, style)]
                } else {
                    seq![]
                };
                assert(result@.map_values(|seg: (usize, usize, TokenStyle)| segment_view(seg))
                    =~= before + gap + here);
            }
            pos = end;
            k = k + 1;
        }
        if pos < len {
            result.push((pos, len, TokenStyle::Plain));
        }
        assert(result@.map_values(|seg: (usize, usize, TokenStyle)| segment_view(seg)) =~= total);
        if result.len() == 0 && len > 0 {
            result.push((0, len, TokenStyle::Plain));
            assert(result@.map_values(|seg: (usize, usize, TokenStyle)| segment_view(seg))
                =~= seq![(0int, len as int, TokenStyle::Plain)]);
        }
        result
    }
}

} // verus!
