#![verifier::loop_isolation(false)]

//! The lexer: source → a linear token stream that tiles the input.
//!
//! Robust to incomplete input at character granularity: an unterminated
//! construct at end of input becomes one [`TokenKind::Unterminated`] token
//! carrying the lexical state it was in. The lexer never does the top-level
//! resync that is a reader policy.

use vstd::prelude::*;
use vstd::string::*;
use vstd::utf8::*;

use crate::datum::{Delim, Prefix};
use crate::options::{CharSyntax, HashBracket, HashParen, Options};
use crate::source::{at_boundary, bytes_start_with, lemma_ascii_next, starts_with_at};
use crate::span::Span;
use crate::token::{Token, TokenKind, UnterminatedKind};

verus! {

broadcast use vstd::utf8::encode_utf8_valid_utf8;

// ---------------------------------------------------------------------------
// Byte classes

/// The width of the whitespace character starting at `b[p]`, or 0 if it is
/// not whitespace. Whitespace is the Unicode `White_Space` set: ASCII tab,
/// line feed, vertical tab, form feed, carriage return and space; U+0085,
/// U+00A0, U+1680, U+2000–U+200A, U+2028, U+2029, U+202F, U+205F, U+3000.
pub open spec fn spec_ws_width(b: Seq<u8>, p: int) -> int {
    if p < 0 || p >= b.len() {
        0
    } else if b[p] == 9 || b[p] == 10 || b[p] == 11 || b[p] == 12 || b[p] == 13 || b[p] == 32 {
        1
    } else if p + 1 < b.len() && b[p] == 0xc2 && (b[p + 1] == 0x85 || b[p + 1] == 0xa0) {
        2
    } else if p + 2 < b.len() && b[p] == 0xe1 && b[p + 1] == 0x9a && b[p + 2] == 0x80 {
        3
    } else if p + 2 < b.len() && b[p] == 0xe2 && b[p + 1] == 0x80 && ((0x80 <= b[p + 2]
        && b[p + 2] <= 0x8a) || b[p + 2] == 0xa8 || b[p + 2] == 0xa9 || b[p + 2] == 0xaf) {
        3
    } else if p + 2 < b.len() && b[p] == 0xe2 && b[p + 1] == 0x81 && b[p + 2] == 0x9f {
        3
    } else if p + 2 < b.len() && b[p] == 0xe3 && b[p + 1] == 0x80 && b[p + 2] == 0x80 {
        3
    } else {
        0
    }
}

pub(crate) fn ws_width(b: &[u8], p: usize) -> (w: usize)
    requires
        p < b.len(),
    ensures
        w == spec_ws_width(b@, p as int),
{
    let c = b[p];
    if c == 9 || c == 10 || c == 11 || c == 12 || c == 13 || c == 32 {
        1
    } else if b.len() - p > 1 && c == 0xc2 && (b[p + 1] == 0x85 || b[p + 1] == 0xa0) {
        2
    } else if b.len() - p > 2 && c == 0xe1 && b[p + 1] == 0x9a && b[p + 2] == 0x80 {
        3
    } else if b.len() - p > 2 && c == 0xe2 && b[p + 1] == 0x80 && ((0x80 <= b[p + 2] && b[p + 2]
        <= 0x8a) || b[p + 2] == 0xa8 || b[p + 2] == 0xa9 || b[p + 2] == 0xaf) {
        3
    } else if b.len() - p > 2 && c == 0xe2 && b[p + 1] == 0x81 && b[p + 2] == 0x9f {
        3
    } else if b.len() - p > 2 && c == 0xe3 && b[p + 1] == 0x80 && b[p + 2] == 0x80 {
        3
    } else {
        0
    }
}

/// The byte of an ASCII glyph, if the glyph is ASCII.
pub open spec fn spec_ascii_of(c: char) -> Option<u8> {
    if (c as u32) < 128 {
        Some((c as u32) as u8)
    } else {
        None
    }
}

fn ascii_of(c: char) -> (r: Option<u8>)
    ensures
        r == spec_ascii_of(c),
{
    let u = c as u32;
    if u < 128 {
        Some(u as u8)
    } else {
        None
    }
}

/// Whether `b[p]` is the (ASCII) glyph `g`.
pub open spec fn spec_glyph_at(b: Seq<u8>, p: int, g: Option<char>) -> bool {
    &&& 0 <= p < b.len()
    &&& g is Some
    &&& spec_ascii_of(g.unwrap()) == Some(b[p])
}

fn glyph_at(b: &[u8], p: usize, g: Option<char>) -> (r: bool)
    ensures
        r == spec_glyph_at(b@, p as int, g),
{
    if p >= b.len() {
        return false;
    }
    match g {
        Some(c) => match ascii_of(c) {
            Some(x) => x == b[p],
            None => false,
        },
        None => false,
    }
}

/// Whether the character at `b[p]` is whitespace under `o` (a comma counts in
/// comma-is-whitespace dialects).
pub open spec fn spec_is_ws(b: Seq<u8>, o: Options, p: int) -> bool {
    spec_ws_width(b, p) > 0 || (o.comma_is_whitespace && 0 <= p < b.len() && b[p] == 44)
}

/// Whether the character at `b[p]` ends an atom: whitespace, `(`, `)`, `"`,
/// an active bracket, or the line-comment glyph (which Clojure-family readers,
/// those where a comma is whitespace, admit inside a symbol).
pub open spec fn spec_is_term(b: Seq<u8>, o: Options, p: int) -> bool {
    &&& 0 <= p < b.len()
    &&& {
        ||| spec_is_ws(b, o, p)
        ||| b[p] == 40 || b[p] == 41 || b[p] == 34
        ||| (!o.comma_is_whitespace && spec_glyph_at(b, p, Some(o.line_comment)))
        ||| (!(o.square is Ordinary) && (b[p] == 91 || b[p] == 93))
        ||| (!(o.curly is Ordinary) && (b[p] == 123 || b[p] == 125))
    }
}

fn is_ws(b: &[u8], o: &Options, p: usize) -> (r: bool)
    requires
        p < b.len(),
    ensures
        r == spec_is_ws(b@, *o, p as int),
{
    ws_width(b, p) > 0 || (o.comma_is_whitespace && b[p] == 44)
}

fn is_term(b: &[u8], o: &Options, p: usize) -> (r: bool)
    ensures
        r == spec_is_term(b@, *o, p as int),
{
    if p >= b.len() {
        return false;
    }
    let c = b[p];
    is_ws(b, o, p) || c == 40 || c == 41 || c == 34 || (!o.comma_is_whitespace && glyph_at(
        b,
        p,
        Some(o.line_comment),
    )) || (o.square.is_delimiter() && (c == 91 || c == 93)) || (o.curly.is_delimiter() && (c
        == 123 || c == 125))
}

fn is_ascii_alpha(c: u8) -> (r: bool)
    ensures
        r == ((65 <= c <= 90) || (97 <= c <= 122)),
{
    (65 <= c && c <= 90) || (97 <= c && c <= 122)
}

fn is_ascii_digit(c: u8) -> (r: bool)
    ensures
        r == (48 <= c <= 57),
{
    48 <= c && c <= 57
}

/// A letter for character-literal names: an ASCII letter or any non-ASCII
/// character.
fn is_name_start(c: u8) -> (r: bool)
    ensures
        r == ((65 <= c <= 90) || (97 <= c <= 122) || c >= 0x80),
{
    is_ascii_alpha(c) || c >= 0x80
}

/// An alphanumeric for character-literal names: an ASCII letter or digit or
/// any non-ASCII character.
fn is_name_char(c: u8) -> (r: bool)
    ensures
        r == ((65 <= c <= 90) || (97 <= c <= 122) || (48 <= c <= 57) || c >= 0x80),
{
    is_ascii_alpha(c) || is_ascii_digit(c) || c >= 0x80
}

// ---------------------------------------------------------------------------
// Stepping over characters, stated

/// The end of the run of UTF-8 continuation bytes starting at `r`.
pub open spec fn cont_end(b: Seq<u8>, r: int) -> int
    decreases b.len() - r,
{
    if r < 0 || r >= b.len() || !(0x80 <= b[r] <= 0xbf) {
        r
    } else {
        cont_end(b, r + 1)
    }
}

/// `cont_end` does not move backwards, nor past the end.
pub proof fn lemma_cont_end(b: Seq<u8>, r: int)
    ensures
        r <= cont_end(b, r),
        0 <= r <= b.len() ==> cont_end(b, r) <= b.len(),
    decreases b.len() - r,
{
    if !(r < 0 || r >= b.len() || !(0x80 <= b[r] <= 0xbf)) {
        lemma_cont_end(b, r + 1);
    }
}

/// The position just past the character starting at `p`: one byte for
/// ASCII, else the lead byte and its continuation bytes.
pub open spec fn char_end(b: Seq<u8>, p: int) -> int {
    if 0 <= p < b.len() && b[p] < 0x80 {
        p + 1
    } else {
        cont_end(b, p + 1)
    }
}

/// `char_end` moves forward and stays within the input.
pub proof fn lemma_char_end(b: Seq<u8>, p: int)
    ensures
        p < char_end(b, p),
        0 <= p < b.len() ==> char_end(b, p) <= b.len(),
{
    lemma_cont_end(b, p + 1);
}

/// Whole characters stepped over from `r` until at least `target`, or the
/// end of input.
pub open spec fn skip_to(b: Seq<u8>, r: int, target: int) -> int
    decreases b.len() - r,
{
    if r >= target || r < 0 || r >= b.len() {
        r
    } else {
        proof {
            lemma_char_end(b, r);
        }
        skip_to(b, char_end(b, r), target)
    }
}

/// The next `\n` (not consumed) from `r`, stepping whole characters, or the
/// end of input.
pub open spec fn line_end(b: Seq<u8>, r: int) -> int
    decreases b.len() - r,
{
    if r < 0 || r >= b.len() || b[r] == 10 {
        r
    } else {
        proof {
            lemma_char_end(b, r);
        }
        line_end(b, char_end(b, r))
    }
}

/// A body closed by the ASCII byte `close`, from `r`, honoring `\\` escapes
/// when `escapes` is set: whether the closer was found, and the offset just
/// past it (or the end of input).
pub open spec fn delim_from(b: Seq<u8>, r: int, close: u8, escapes: bool) -> (bool, int)
    decreases b.len() - r,
{
    if r < 0 || r >= b.len() {
        (false, r)
    } else if b[r] == close {
        (true, r + 1)
    } else if escapes && b[r] == 92 {
        proof {
            lemma_char_end(b, r + 1);
        }
        if r + 1 < b.len() {
            delim_from(b, char_end(b, r + 1), close, escapes)
        } else {
            delim_from(b, r + 1, close, escapes)
        }
    } else {
        proof {
            lemma_char_end(b, r);
        }
        delim_from(b, char_end(b, r), close, escapes)
    }
}

/// One unit of an atom body at `p`: an escaped character, a `|...|`
/// segment, or one character.
pub open spec fn atom_unit_end(b: Seq<u8>, o: Options, p: int) -> int {
    if o.symbol_escape && b[p] == 92 {
        if p + 1 < b.len() {
            char_end(b, p + 1)
        } else {
            p + 1
        }
    } else if o.piped_symbols && b[p] == 124 {
        delim_from(b, p + 1, 124, true).1
    } else {
        char_end(b, p)
    }
}

/// The rest of an atom from `r`: units up to the next terminator.
pub open spec fn atom_rest(b: Seq<u8>, o: Options, r: int) -> int
    decreases b.len() - r,
{
    if 0 <= r < b.len() && !spec_is_term(b, o, r) && r < atom_unit_end(b, o, r) <= b.len() {
        atom_rest(b, o, atom_unit_end(b, o, r))
    } else {
        r
    }
}

/// An atom starting at `p`: its first unit, then the rest.
pub open spec fn atom_end(b: Seq<u8>, o: Options, p: int) -> int {
    atom_rest(b, o, atom_unit_end(b, o, p))
}

/// The end of a whitespace run from `r`: a comma steps one byte; other
/// whitespace steps its width in whole characters.
pub open spec fn ws_run(b: Seq<u8>, o: Options, r: int) -> int
    decreases b.len() - r,
{
    if 0 <= r < b.len() && spec_is_ws(b, o, r) {
        let n = if b[r] == 44 {
            r + 1
        } else {
            skip_to(b, r, r + spec_ws_width(b, r))
        };
        if r < n <= b.len() {
            ws_run(b, o, n)
        } else {
            r
        }
    } else {
        r
    }
}

// ---------------------------------------------------------------------------
// Stepping over characters

/// Step over the character starting at `p`.
fn next_char(b: &[u8], p: usize) -> (r: usize)
    requires
        valid_utf8(b@),
        at_boundary(b@, p as int),
        p < b.len(),
    ensures
        p < r <= b.len(),
        at_boundary(b@, r as int),
        b@[p as int] < 0x80 ==> r == p + 1,
        forall|k: int| p < k < r ==> 0x80 <= #[trigger] b@[k] <= 0xbf,
        r == char_end(b@, p as int),
{
    if b[p] < 0x80 {
        proof {
            lemma_ascii_next(b@, p as int);
        }
        return p + 1;
    }
    let mut r = p + 1;
    while r < b.len() && b[r] >= 0x80 && b[r] <= 0xbf
        invariant
            p < r <= b.len(),
            forall|k: int| p < k < r ==> 0x80 <= #[trigger] b@[k] <= 0xbf,
            cont_end(b@, p + 1) == cont_end(b@, r as int),
        decreases b.len() - r,
    {
        r = r + 1;
    }
    r
}

/// Step over the ASCII byte at `p`.
fn step_ascii(b: &[u8], p: usize) -> (r: usize)
    requires
        valid_utf8(b@),
        at_boundary(b@, p as int),
        p < b.len(),
        b@[p as int] < 0x80,
    ensures
        r == p + 1,
        at_boundary(b@, r as int),
{
    proof {
        lemma_ascii_next(b@, p as int);
    }
    p + 1
}

/// Step over at least `n` bytes, whole characters at a time.
fn skip_bytes(b: &[u8], p: usize, n: usize) -> (r: usize)
    requires
        valid_utf8(b@),
        at_boundary(b@, p as int),
        p + n <= b.len(),
    ensures
        p + n <= r <= b.len(),
        at_boundary(b@, r as int),
        r == skip_to(b@, p as int, p + n),
{
    let mut r = p;
    while r < p + n
        invariant
            p <= r <= b.len(),
            p + n <= b.len(),
            at_boundary(b@, r as int),
            skip_to(b@, p as int, p + n) == skip_to(b@, r as int, p + n),
        decreases b.len() - r,
    {
        r = next_char(b, r);
    }
    r
}

/// Step to the next `\n` (not consumed), or to the end of input.
fn to_line_end(b: &[u8], p: usize) -> (r: usize)
    requires
        valid_utf8(b@),
        at_boundary(b@, p as int),
        p <= b.len(),
    ensures
        p <= r <= b.len(),
        at_boundary(b@, r as int),
        r < b.len() ==> b@[r as int] == 10,
        forall|k: int| p <= k < r ==> b@[k] != 10,
        r == line_end(b@, p as int),
{
    let mut r = p;
    while r < b.len() && b[r] != 10
        invariant
            p <= r <= b.len(),
            at_boundary(b@, r as int),
            forall|k: int| p <= k < r ==> b@[k] != 10,
            line_end(b@, p as int) == line_end(b@, r as int),
        decreases b.len() - r,
    {
        let q = next_char(b, r);
        assert forall|k: int| r < k < q implies b@[k] != 10 by {
            assert(0x80 <= b@[k]);
        }
        r = q;
    }
    r
}

/// Step over an atom body: characters up to the next terminator, honoring
/// `\\` escapes (when the dialect has symbol escapes) and `|...|` segments
/// (when it has piped symbols). The character at `p` is always consumed.
fn atom_from(b: &[u8], o: &Options, p: usize) -> (r: usize)
    requires
        valid_utf8(b@),
        at_boundary(b@, p as int),
        p < b.len(),
    ensures
        p < r <= b.len(),
        at_boundary(b@, r as int),
        r == atom_end(b@, *o, p as int),
{
    let mut r = atom_unit(b, o, p);
    while r < b.len() && !is_term(b, o, r)
        invariant
            p < r <= b.len(),
            at_boundary(b@, r as int),
            atom_end(b@, *o, p as int) == atom_rest(b@, *o, r as int),
        decreases b.len() - r,
    {
        r = atom_unit(b, o, r);
    }
    r
}

/// One unit of an atom body starting at `p`.
fn atom_unit(b: &[u8], o: &Options, p: usize) -> (r: usize)
    requires
        valid_utf8(b@),
        at_boundary(b@, p as int),
        p < b.len(),
    ensures
        p < r <= b.len(),
        at_boundary(b@, r as int),
        r == atom_unit_end(b@, *o, p as int),
{
    if o.symbol_escape && b[p] == 92 {
        let r = step_ascii(b, p);
        if r < b.len() {
            next_char(b, r)
        } else {
            r
        }
    } else if o.piped_symbols && b[p] == 124 {
        let (_closed, r) = delimited(b, step_ascii(b, p), 124, true);
        r
    } else {
        next_char(b, p)
    }
}

/// Scan a body closed by the ASCII byte `close`, honoring `\\` escapes when
/// `escapes` is set. Returns whether the closer was found, and the offset just
/// past it (or the end of input).
fn delimited(b: &[u8], p: usize, close: u8, escapes: bool) -> (r: (bool, usize))
    requires
        valid_utf8(b@),
        at_boundary(b@, p as int),
        p <= b.len(),
        close < 0x80,
    ensures
        p <= r.1 <= b.len(),
        at_boundary(b@, r.1 as int),
        r.0 ==> p < r.1,
        !r.0 ==> r.1 == b.len(),
        r.0 == delim_from(b@, p as int, close, escapes).0,
        r.1 == delim_from(b@, p as int, close, escapes).1,
{
    let mut r = p;
    while r < b.len()
        invariant
            p <= r <= b.len(),
            at_boundary(b@, r as int),
            delim_from(b@, p as int, close, escapes) == delim_from(b@, r as int, close, escapes),
        decreases b.len() - r,
    {
        let c = b[r];
        if c == close {
            return (true, step_ascii(b, r));
        }
        if escapes && c == 92 {
            r = step_ascii(b, r);
            if r < b.len() {
                r = next_char(b, r);
            }
        } else {
            r = next_char(b, r);
        }
    }
    (false, r)
}

// ---------------------------------------------------------------------------
// Token shapes

/// The opening byte of a delimiter shape (`SetBrace` opens with `{` after `#`).
pub open spec fn open_byte(d: Delim) -> u8 {
    match d {
        Delim::Round => 40,
        Delim::Square => 91,
        Delim::Curly => 123,
        Delim::SetBrace => 123,
    }
}

/// The closing byte of a delimiter shape.
pub open spec fn close_byte(d: Delim) -> u8 {
    match d {
        Delim::Round => 41,
        Delim::Square => 93,
        Delim::Curly => 125,
        Delim::SetBrace => 125,
    }
}

/// What the bytes `[s, e)` of a token of kind `k` look like: delimiters are
/// exactly their glyphs; `#`-led tokens start with `#` (and a hash opening
/// ends with its opening glyph, a label with `=` or `#`); a line comment holds
/// no line feed.
pub open spec fn token_shape(b: Seq<u8>, k: TokenKind, s: int, e: int) -> bool {
    match k {
        TokenKind::Open(d) => if d is SetBrace {
            e == s + 2 && b[s] == 35 && b[s + 1] == 123
        } else {
            e == s + 1 && b[s] == open_byte(d)
        },
        TokenKind::Close(d) => !(d is SetBrace) && e == s + 1 && b[s] == close_byte(d),
        TokenKind::HashOpen(d) => !(d is SetBrace) && s + 2 <= e && b[s] == 35 && b[e - 1]
            == open_byte(d),
        TokenKind::HashTag => s + 2 <= e && b[s] == 35,
        TokenKind::Label => s + 3 <= e && b[s] == 35 && b[e - 1] == 61,
        TokenKind::LabelRef => s + 3 <= e && b[s] == 35 && b[e - 1] == 35,
        TokenKind::LineComment => forall|k: int| s <= k < e ==> b[k] != 10,
        _ => true,
    }
}

/// A token read from `b` at `s`: a non-empty span ending on a character
/// boundary, with the shape its kind promises.
pub open spec fn token_at(b: Seq<u8>, t: Token, s: int) -> bool {
    &&& t.span.start == s
    &&& at_boundary(b, s)
    &&& s < t.span.end <= b.len()
    &&& at_boundary(b, t.span.end as int)
    &&& token_shape(b, t.kind, s, t.span.end as int)
}

/// Whether `toks` tile `b` exactly: consecutive non-empty tokens, the first
/// starting at 0 and the last ending at the end of `b`, each with its shape.
pub open spec fn tiles(b: Seq<u8>, toks: Seq<Token>) -> bool {
    &&& forall|i: int| 0 <= i < toks.len() ==> #[trigger] token_at(b, toks[i], toks[i].span.start as int)
    &&& toks.len() == 0 ==> b.len() == 0
    &&& toks.len() > 0 ==> toks[0].span.start == 0 && toks[toks.len() - 1].span.end == b.len()
    &&& forall|i: int| 0 <= i < toks.len() - 1 ==> #[trigger] toks[i].span.end == toks[i + 1].span.start
}


// ---------------------------------------------------------------------------
// Scanners, stated

/// A block comment body from `r` at nesting `depth`: a nested opener (when
/// `nestable`) deepens, a closer at depth 1 ends the comment, any other
/// character is stepped over.
pub open spec fn block_from(b: Seq<u8>, r: int, depth: int, open: Seq<u8>, close: Seq<u8>, nestable: bool) -> (
    TokenKind,
    int,
)
    decreases b.len() - r,
{
    if r < 0 || r >= b.len() || open.len() == 0 || close.len() == 0 {
        (TokenKind::Unterminated(UnterminatedKind::BlockComment { depth: depth as u32 }), r)
    } else if nestable && starts_with_at(b, r, open) {
        let n = skip_to(b, r, r + open.len());
        if r < n <= b.len() {
            block_from(b, n, depth + 1, open, close, nestable)
        } else {
            (TokenKind::Unterminated(UnterminatedKind::BlockComment { depth: depth as u32 }), r)
        }
    } else if starts_with_at(b, r, close) {
        let n = skip_to(b, r, r + close.len());
        if depth == 1 {
            (TokenKind::BlockComment, n)
        } else if r < n <= b.len() {
            block_from(b, n, depth - 1, open, close, nestable)
        } else {
            (TokenKind::Unterminated(UnterminatedKind::BlockComment { depth: depth as u32 }), r)
        }
    } else {
        proof {
            lemma_char_end(b, r);
        }
        block_from(b, char_end(b, r), depth, open, close, nestable)
    }
}

/// Where a runaway string from `k` stops: just after a `\n` followed by
/// `(`, or the end of input.
pub open spec fn runaway_end(b: Seq<u8>, k: int) -> int
    decreases b.len() - k,
{
    if k < 0 || k >= b.len() || b.len() - k <= 1 {
        b.len() as int
    } else if b[k] == 10 && b[k + 1] == 40 {
        k + 1
    } else {
        proof {
            lemma_char_end(b, k);
        }
        runaway_end(b, char_end(b, k))
    }
}

/// A `"..."` string whose opening quote is just before `q`: closed, or
/// unterminated and cut at the first line that starts with `(`.
pub open spec fn spec_string(b: Seq<u8>, q: int) -> (TokenKind, int) {
    let (closed, r) = delim_from(b, q, 34, true);
    if closed {
        (TokenKind::Str, r)
    } else {
        (TokenKind::Unterminated(UnterminatedKind::Str), runaway_end(b, q))
    }
}

/// The end of a run of bytes `c` from `r`.
pub open spec fn byte_run(b: Seq<u8>, r: int, c: u8) -> int
    decreases b.len() - r,
{
    if 0 <= r < b.len() && b[r] == c {
        byte_run(b, r + 1, c)
    } else {
        r
    }
}

/// Whether `b[r..r + n]` are all backticks.
pub open spec fn ticks_at(b: Seq<u8>, r: int, n: int) -> bool {
    &&& 0 <= r
    &&& r + n <= b.len()
    &&& forall|k: int| r <= k < r + n ==> b[k] == 96
}

/// A long string's body from `r`, closed by a run of `n` backticks.
pub open spec fn long_from(b: Seq<u8>, r: int, n: int) -> (TokenKind, int)
    decreases b.len() - r,
{
    if r < 0 || r >= b.len() {
        (TokenKind::Unterminated(UnterminatedKind::LongString), r)
    } else if ticks_at(b, r, n) {
        (TokenKind::Str, skip_to(b, r, r + n))
    } else {
        proof {
            lemma_char_end(b, r);
        }
        long_from(b, char_end(b, r), n)
    }
}

/// A Janet long string at `p`: a run of backticks, closed by an equal run.
pub open spec fn spec_long_string(b: Seq<u8>, p: int) -> (TokenKind, int) {
    let r = byte_run(b, p, 96);
    long_from(b, r, r - p)
}

/// Whether `c` may continue a character-literal name.
pub open spec fn name_char(c: u8) -> bool {
    (65 <= c <= 90) || (97 <= c <= 122) || (48 <= c <= 57) || c >= 0x80
}

/// The end of a character-literal name from `r`.
pub open spec fn name_run(b: Seq<u8>, r: int) -> int
    decreases b.len() - r,
{
    if 0 <= r < b.len() && name_char(b[r]) {
        proof {
            lemma_char_end(b, r);
        }
        name_run(b, char_end(b, r))
    } else {
        r
    }
}

/// The rest of a character literal from `q`: one character, then, if it is
/// a letter, the alphanumerics of a name.
pub open spec fn spec_char_tail(b: Seq<u8>, q: int) -> int {
    if q < 0 || q >= b.len() {
        q
    } else if (65 <= b[q] <= 90) || (97 <= b[q] <= 122) || b[q] >= 0x80 {
        name_run(b, char_end(b, q))
    } else {
        char_end(b, q)
    }
}

/// The end of a run of ASCII alphanumerics from `r`.
pub open spec fn alnum_run(b: Seq<u8>, r: int) -> int
    decreases b.len() - r,
{
    if 0 <= r < b.len() && ((65 <= b[r] <= 90) || (97 <= b[r] <= 122) || (48 <= b[r] <= 57)) {
        alnum_run(b, r + 1)
    } else {
        r
    }
}

/// An Emacs Lisp character escape at the backslash `r`: a modifier `C-`,
/// `M-`, `S-`, `H-`, `s-`, `A-` before a further escape or character, `^`
/// and one character, a hex/unicode/octal escape with its alphanumerics, or
/// one escaped character.
pub open spec fn escape_end(b: Seq<u8>, r: int) -> int
    decreases b.len() - r,
{
    if r < 0 || r + 1 >= b.len() {
        r + 1
    } else {
        let c2 = b[r + 1];
        let r2 = char_end(b, r + 1);
        if (c2 == 67 || c2 == 77 || c2 == 83 || c2 == 72 || c2 == 115 || c2 == 65) && r2 < b.len()
            && b[r2] == 45 {
            if r2 + 1 >= b.len() {
                r2 + 1
            } else if b[r2 + 1] != 92 {
                char_end(b, r2 + 1)
            } else {
                proof {
                    lemma_char_end(b, r + 1);
                }
                escape_end(b, r2 + 1)
            }
        } else if c2 == 94 {
            if r2 < b.len() {
                char_end(b, r2)
            } else {
                r2
            }
        } else if c2 == 120 || c2 == 117 || c2 == 85 || (48 <= c2 <= 57) {
            alnum_run(b, r2)
        } else {
            r2
        }
    }
}

/// An Emacs Lisp `?x` character literal at `p`.
pub open spec fn spec_question_char(b: Seq<u8>, p: int) -> int {
    if p + 1 >= b.len() {
        p + 1
    } else if b[p + 1] != 92 {
        char_end(b, p + 1)
    } else {
        escape_end(b, p + 1)
    }
}

/// A Guile `#{...}#` extended symbol body from `r`.
pub open spec fn extended_from(b: Seq<u8>, r: int) -> (TokenKind, int)
    decreases b.len() - r,
{
    if r < 0 || r >= b.len() {
        (TokenKind::Unterminated(UnterminatedKind::PipedSymbol), r)
    } else if b[r] == 125 && r + 1 < b.len() && b[r + 1] == 35 {
        (TokenKind::Atom, r + 2)
    } else {
        proof {
            lemma_char_end(b, r);
        }
        extended_from(b, char_end(b, r))
    }
}

/// A `#/.../` regexp whose body starts at `q`, with an optional `i` flag.
pub open spec fn spec_regex(b: Seq<u8>, q: int) -> (TokenKind, int) {
    let (closed, r) = delim_from(b, q, 47, true);
    if !closed {
        (TokenKind::Unterminated(UnterminatedKind::Regex), r)
    } else if r < b.len() && b[r] == 105 {
        (TokenKind::Str, r + 1)
    } else {
        (TokenKind::Str, r)
    }
}

/// The end of a run of at most 16 ASCII letters from `k`, counted from `j`.
pub open spec fn class_name_run(b: Seq<u8>, j: int, k: int) -> int
    decreases b.len() - k,
{
    if 0 <= k < b.len() && k - j < 16 && ((65 <= b[k] <= 90) || (97 <= b[k] <= 122)) {
        class_name_run(b, j, k + 1)
    } else {
        k
    }
}

/// At a `[:` at `r`, the offset past a well-formed POSIX class `[:name:]`
/// (or `[:^name:]`), or past just the `[`.
pub open spec fn posix_end(b: Seq<u8>, r: int) -> int {
    let j = if r + 2 < b.len() && b[r + 2] == 94 {
        r + 3
    } else {
        r + 2
    };
    let k = class_name_run(b, j, j);
    if k > j && b.len() - k > 1 && b[k] == 58 && b[k + 1] == 93 {
        k + 2
    } else {
        r + 1
    }
}

/// A `#[...]` character set body from `r`.
pub open spec fn charset_from(b: Seq<u8>, r: int) -> (TokenKind, int)
    decreases b.len() - r,
{
    if r < 0 || r >= b.len() {
        (TokenKind::Unterminated(UnterminatedKind::CharSet), r)
    } else if b[r] == 93 {
        (TokenKind::Str, r + 1)
    } else {
        let n = if b[r] == 92 {
            if r + 1 < b.len() {
                char_end(b, r + 1)
            } else {
                r + 1
            }
        } else if b[r] == 91 && r + 1 < b.len() && b[r + 1] == 58 {
            posix_end(b, r)
        } else {
            char_end(b, r)
        };
        if r < n <= b.len() {
            charset_from(b, n)
        } else {
            (TokenKind::Unterminated(UnterminatedKind::CharSet), r)
        }
    }
}

/// The first `[` from `r`, stepping whole characters, or the end of input.
pub open spec fn bracket_open(b: Seq<u8>, r: int) -> int
    decreases b.len() - r,
{
    if r < 0 || r >= b.len() || b[r] == 91 {
        r
    } else {
        proof {
            lemma_char_end(b, r);
        }
        bracket_open(b, char_end(b, r))
    }
}

/// Whether `b[r..]` is `]`, the delimiter `b[q..q + dlen]`, then `]`.
pub open spec fn closes_at(b: Seq<u8>, q: int, dlen: int, r: int) -> bool {
    &&& 0 <= q
    &&& r + dlen + 2 <= b.len()
    &&& b.subrange(r + 1, r + 1 + dlen) == b.subrange(q, q + dlen)
    &&& b[r + 1 + dlen] == 93
}

/// A bracket string body from `r` with a delimiter `b[q..q + dlen]`.
pub open spec fn bracket_from(b: Seq<u8>, q: int, dlen: int, r: int) -> (TokenKind, int)
    decreases b.len() - r,
{
    if r < 0 || r >= b.len() {
        (TokenKind::Unterminated(UnterminatedKind::BracketString), r)
    } else if b[r] == 93 && closes_at(b, q, dlen, r) {
        (TokenKind::Str, skip_to(b, r, r + dlen + 2))
    } else {
        proof {
            lemma_char_end(b, r);
        }
        bracket_from(b, q, dlen, char_end(b, r))
    }
}

/// A Hy `#[DELIM[...]DELIM]` bracket string whose delimiter starts at `q`.
pub open spec fn spec_bracket_string(b: Seq<u8>, q: int) -> (TokenKind, int) {
    let r = bracket_open(b, q);
    if r >= b.len() {
        (TokenKind::Unterminated(UnterminatedKind::BracketString), r)
    } else {
        bracket_from(b, q, r - q, r + 1)
    }
}

/// The end of a run of ASCII digits from `r`.
pub open spec fn digit_run(b: Seq<u8>, r: int) -> int
    decreases b.len() - r,
{
    if 0 <= r < b.len() && 48 <= b[r] <= 57 {
        digit_run(b, r + 1)
    } else {
        r
    }
}

/// The `#…` forms not decided by the character after the `#` at `q`: a
/// datum label `#n=` / reference `#n#`, else the tag text up to a
/// terminator, which opens a hash literal when a delimiter follows and is
/// otherwise a boolean, a tagged-literal marker, or an atom.
pub open spec fn hash_tail(b: Seq<u8>, o: Options, q: int) -> (TokenKind, int) {
    let d = b[q];
    let labelled = 48 <= d <= 57 && o.datum_labels;
    let r = digit_run(b, q);
    if labelled && r < b.len() && b[r] == 61 {
        (TokenKind::Label, r + 1)
    } else if labelled && r < b.len() && b[r] == 35 {
        (TokenKind::LabelRef, r + 1)
    } else {
        let t = if spec_is_term(b, o, q) {
            q
        } else {
            atom_end(b, o, q)
        };
        if t < b.len() && b[t] == 40 {
            (TokenKind::HashOpen(Delim::Round), t + 1)
        } else if t < b.len() && b[t] == 91 && !(o.square is Ordinary) {
            (TokenKind::HashOpen(Delim::Square), t + 1)
        } else if t < b.len() && b[t] == 123 && !(o.curly is Ordinary) {
            (TokenKind::HashOpen(Delim::Curly), t + 1)
        } else if o.booleans && t - q == 1 && (d == 116 || d == 102) {
            (TokenKind::Bool(d == 116), t)
        } else if o.booleans && t - q == 4 && b.subrange(q, q + 4) == seq![116u8, 114, 117, 101] {
            (TokenKind::Bool(true), t)
        } else if o.booleans && t - q == 5 && b.subrange(q, q + 5) == seq![102u8, 97, 108, 115, 101] {
            (TokenKind::Bool(false), t)
        } else if o.tagged_literals && t > q {
            (TokenKind::HashTag, t)
        } else {
            (TokenKind::Atom, t)
        }
    }
}

/// Hash-led reader syntax at `p` (where `b[p]` is `#`), decided by the
/// character after the `#` and the dialect's options.
pub open spec fn spec_hash(b: Seq<u8>, o: Options, p: int) -> (TokenKind, int) {
    let q = p + 1;
    if q >= b.len() {
        (TokenKind::Atom, q)
    } else {
        let d = b[q];
        if o.datum_comment && d == 59 {
            (TokenKind::Prefix(Prefix::Discard), q + 1)
        } else if o.discard_underscore && d == 95 {
            (TokenKind::Prefix(Prefix::Discard), q + 1)
        } else if o.char_syntax == Some(CharSyntax::HashBackslash) && d == 92 {
            (TokenKind::Char, spec_char_tail(b, q + 1))
        } else if d == 40 {
            if o.hash_paren is HashFn {
                (TokenKind::Prefix(Prefix::HashFn), q)
            } else {
                (TokenKind::HashOpen(Delim::Round), q + 1)
            }
        } else if d == 91 && o.hash_bracket is CharSet {
            charset_from(b, q + 1)
        } else if d == 91 && o.hash_bracket is BracketString {
            spec_bracket_string(b, q + 1)
        } else if d == 91 && o.hash_bracket is Plain && !(o.square is Ordinary) {
            (TokenKind::HashOpen(Delim::Square), q + 1)
        } else if d == 123 && o.set_literal {
            (TokenKind::Open(Delim::SetBrace), q + 1)
        } else if d == 123 && o.hash_curly_symbol {
            extended_from(b, q + 1)
        } else if d == 123 && !(o.curly is Ordinary) {
            (TokenKind::HashOpen(Delim::Curly), q + 1)
        } else if d == 34 && o.regex_literal {
            spec_string(b, q + 1)
        } else if d == 47 && o.regex_slash {
            spec_regex(b, q + 1)
        } else if d == 39 && o.hash_apostrophe is Some {
            (TokenKind::Prefix(o.hash_apostrophe.unwrap()), q + 1)
        } else if d == 63 && o.reader_conditional {
            if q + 1 < b.len() && b[q + 1] == 64 {
                (TokenKind::Prefix(Prefix::ReaderConditional { splicing: true }), q + 2)
            } else {
                (TokenKind::Prefix(Prefix::ReaderConditional { splicing: false }), q + 1)
            }
        } else if (d == 43 || d == 45) && o.feature_conditional {
            (TokenKind::Prefix(Prefix::FeatureConditional { present: d == 43 }), q + 1)
        } else if d == 46 && o.read_eval {
            (TokenKind::Prefix(Prefix::ReadEval), q + 1)
        } else if d == 94 && o.roles.meta is Some {
            (TokenKind::Prefix(Prefix::Meta), q + 1)
        } else if d == 35 {
            (TokenKind::Atom, atom_end(b, o, q))
        } else {
            hash_tail(b, o, q)
        }
    }
}

/// The token that starts at `p` (not at the end of input) under `o`: its
/// kind and end offset. The first rule that applies decides: a block
/// comment opener; a whitespace run; a leading `#!` line; a `#lang` line;
/// a line comment; a delimiter (brackets and braces only where the
/// dialect makes them delimiters); a string, long string or piped symbol;
/// the short-function glyph; hash-led syntax; a character literal; a
/// quote-family or other prefix glyph; otherwise an atom.
pub open spec fn spec_scan(b: Seq<u8>, o: Options, p: int) -> (TokenKind, int) {
    let c = b[p];
    if o.block_comment is Some && o.block_comment.unwrap().open.spec_bytes().len() > 0
        && o.block_comment.unwrap().close.spec_bytes().len() > 0 && starts_with_at(
        b,
        p,
        o.block_comment.unwrap().open.spec_bytes(),
    ) {
        let bc = o.block_comment.unwrap();
        block_from(
            b,
            skip_to(b, p, p + bc.open.spec_bytes().len()),
            1,
            bc.open.spec_bytes(),
            bc.close.spec_bytes(),
            bc.nestable,
        )
    } else if spec_is_ws(b, o, p) {
        (TokenKind::Whitespace, ws_run(b, o, p))
    } else if p == 0 && o.shebang_line && b.len() - p > 1 && c == 35 && b[p + 1] == 33 {
        (TokenKind::LineComment, line_end(b, p + 1))
    } else if o.lang_line && (p == 0 || b[p - 1] == 10) && b.len() - p > 4 && c == 35 && b[p + 1]
        == 108 && b[p + 2] == 97 && b[p + 3] == 110 && b[p + 4] == 103 {
        (TokenKind::LangLine, line_end(b, p + 1))
    } else if spec_glyph_at(b, p, Some(o.line_comment)) && line_end(b, p) > p {
        (TokenKind::LineComment, line_end(b, p))
    } else if c == 40 {
        (TokenKind::Open(Delim::Round), p + 1)
    } else if c == 41 {
        (TokenKind::Close(Delim::Round), p + 1)
    } else if !(o.square is Ordinary) && c == 91 {
        (TokenKind::Open(Delim::Square), p + 1)
    } else if !(o.square is Ordinary) && c == 93 {
        (TokenKind::Close(Delim::Square), p + 1)
    } else if !(o.curly is Ordinary) && c == 123 {
        (TokenKind::Open(Delim::Curly), p + 1)
    } else if !(o.curly is Ordinary) && c == 125 {
        (TokenKind::Close(Delim::Curly), p + 1)
    } else if c == 34 {
        spec_string(b, p + 1)
    } else if o.long_string_backtick && c == 96 {
        spec_long_string(b, p)
    } else if o.piped_symbols && c == 124 {
        let (closed, r) = delim_from(b, p + 1, 124, true);
        (
            if closed {
                TokenKind::Atom
            } else {
                TokenKind::Unterminated(UnterminatedKind::PipedSymbol)
            },
            r,
        )
    } else if spec_glyph_at(b, p, o.roles.short_fn) {
        (TokenKind::Prefix(Prefix::HashFn), p + 1)
    } else if c == 35 && o.hash_syntax {
        spec_hash(b, o, p)
    } else if o.char_syntax == Some(CharSyntax::Backslash) && c == 92 {
        (TokenKind::Char, spec_char_tail(b, p + 1))
    } else if o.char_syntax == Some(CharSyntax::Question) && c == 63 {
        (TokenKind::Char, spec_question_char(b, p))
    } else if spec_glyph_at(b, p, o.roles.quote) {
        (TokenKind::Prefix(Prefix::Quote), p + 1)
    } else if spec_glyph_at(b, p, o.roles.quasiquote) {
        (TokenKind::Prefix(Prefix::Quasiquote), p + 1)
    } else if spec_glyph_at(b, p, o.roles.unquote) {
        if spec_glyph_at(b, p + 1, Some(o.roles.splicing_suffix)) {
            (TokenKind::Prefix(Prefix::UnquoteSplicing), p + 2)
        } else {
            (TokenKind::Prefix(Prefix::Unquote), p + 1)
        }
    } else if spec_glyph_at(b, p, o.roles.deref) {
        (TokenKind::Prefix(Prefix::Deref), p + 1)
    } else if spec_glyph_at(b, p, o.roles.meta) {
        (TokenKind::Prefix(Prefix::Meta), p + 1)
    } else if spec_glyph_at(b, p, o.roles.splice) {
        (TokenKind::Prefix(Prefix::Splice), p + 1)
    } else if spec_glyph_at(b, p, o.roles.mutable) {
        (TokenKind::Prefix(Prefix::Mutable), p + 1)
    } else {
        (TokenKind::Atom, atom_end(b, o, p))
    }
}

// ---------------------------------------------------------------------------
// The scanners

/// Read one token at `p` (not at the end of input): its kind and end offset.
fn scan(b: &[u8], o: &Options, p: usize) -> (r: (TokenKind, usize))
    requires
        valid_utf8(b@),
        b.len() <= u32::MAX,
        at_boundary(b@, p as int),
        p < b.len(),
    ensures
        p < r.1 <= b.len(),
        at_boundary(b@, r.1 as int),
        token_shape(b@, r.0, p as int, r.1 as int),
        r.0 == spec_scan(b@, *o, p as int).0,
        r.1 == spec_scan(b@, *o, p as int).1,
{
    let c = b[p];
    // Block comment (its opener may start with `#` or `;`).
    match o.block_comment {
        Some(bc) => {
            let open = bc.open.as_bytes();
            let close = bc.close.as_bytes();
            if open.len() > 0 && close.len() > 0 && bytes_start_with(b, p, open) {
                return block_comment(b, p, open, close, bc.nestable);
            }
        },
        None => {},
    }
    // Whitespace run.
    if is_ws(b, o, p) {
        let mut r = p;
        while r < b.len() && is_ws(b, o, r)
            invariant
                p <= r <= b.len(),
                at_boundary(b@, r as int),
                r == p ==> spec_is_ws(b@, *o, p as int),
                ws_run(b@, *o, p as int) == ws_run(b@, *o, r as int),
            decreases b.len() - r,
        {
            r = if b[r] == 44 {
                step_ascii(b, r)
            } else {
                skip_bytes(b, r, ws_width(b, r))
            };
        }
        return (TokenKind::Whitespace, r);
    }
    // A leading `#!` shebang line, and a `#lang` directive line.
    if p == 0 && o.shebang_line && b.len() - p > 1 && c == 35 && b[p + 1] == 33 {
        let r = to_line_end(b, step_ascii(b, p));
        return (TokenKind::LineComment, r);
    }
    if o.lang_line && (p == 0 || b[p - 1] == 10) && b.len() - p > 4 && c == 35 && b[p + 1] == 108
        && b[p + 2] == 97 && b[p + 3] == 110 && b[p + 4] == 103 {
        let r = to_line_end(b, step_ascii(b, p));
        return (TokenKind::LangLine, r);
    }
    // Line comment.
    if glyph_at(b, p, Some(o.line_comment)) {
        let r = to_line_end(b, p);
        if r > p {
            return (TokenKind::LineComment, r);
        }
    }
    // Delimiters.
    if c == 40 {
        return (TokenKind::Open(Delim::Round), step_ascii(b, p));
    }
    if c == 41 {
        return (TokenKind::Close(Delim::Round), step_ascii(b, p));
    }
    if o.square.is_delimiter() && c == 91 {
        return (TokenKind::Open(Delim::Square), step_ascii(b, p));
    }
    if o.square.is_delimiter() && c == 93 {
        return (TokenKind::Close(Delim::Square), step_ascii(b, p));
    }
    if o.curly.is_delimiter() && c == 123 {
        return (TokenKind::Open(Delim::Curly), step_ascii(b, p));
    }
    if o.curly.is_delimiter() && c == 125 {
        return (TokenKind::Close(Delim::Curly), step_ascii(b, p));
    }
    // Strings and string-shaped leaves.
    if c == 34 {
        return string(b, p, step_ascii(b, p));
    }
    if o.long_string_backtick && c == 96 {
        return long_string(b, p);
    }
    if o.piped_symbols && c == 124 {
        let (closed, r) = delimited(b, step_ascii(b, p), 124, true);
        return (
            if closed {
                TokenKind::Atom
            } else {
                TokenKind::Unterminated(UnterminatedKind::PipedSymbol)
            },
            r,
        );
    }
    if glyph_at(b, p, o.roles.short_fn) {
        return (TokenKind::Prefix(Prefix::HashFn), step_ascii(b, p));
    }
    // Hash-led reader syntax.
    if c == 35 && o.hash_syntax {
        return hash(b, o, p);
    }
    // Character literals.
    match o.char_syntax {
        Some(CharSyntax::Backslash) => {
            if c == 92 {
                return (TokenKind::Char, char_tail(b, step_ascii(b, p)));
            }
        },
        Some(CharSyntax::Question) => {
            if c == 63 {
                return (TokenKind::Char, question_char(b, p));
            }
        },
        _ => {},
    }
    // The quote family and the other prefix glyphs.
    if glyph_at(b, p, o.roles.quote) {
        return (TokenKind::Prefix(Prefix::Quote), step_ascii(b, p));
    }
    if glyph_at(b, p, o.roles.quasiquote) {
        return (TokenKind::Prefix(Prefix::Quasiquote), step_ascii(b, p));
    }
    if glyph_at(b, p, o.roles.unquote) {
        let q = step_ascii(b, p);
        if glyph_at(b, q, Some(o.roles.splicing_suffix)) {
            return (TokenKind::Prefix(Prefix::UnquoteSplicing), step_ascii(b, q));
        }
        return (TokenKind::Prefix(Prefix::Unquote), q);
    }
    if glyph_at(b, p, o.roles.deref) {
        return (TokenKind::Prefix(Prefix::Deref), step_ascii(b, p));
    }
    if glyph_at(b, p, o.roles.meta) {
        return (TokenKind::Prefix(Prefix::Meta), step_ascii(b, p));
    }
    if glyph_at(b, p, o.roles.splice) {
        return (TokenKind::Prefix(Prefix::Splice), step_ascii(b, p));
    }
    if glyph_at(b, p, o.roles.mutable) {
        return (TokenKind::Prefix(Prefix::Mutable), step_ascii(b, p));
    }
    // Otherwise, an atom (symbol or number).
    (TokenKind::Atom, atom_from(b, o, p))
}

/// A block comment starting at `p` with the given delimiters.
fn block_comment(b: &[u8], p: usize, open: &[u8], close: &[u8], nestable: bool) -> (r: (
    TokenKind,
    usize,
))
    requires
        valid_utf8(b@),
        at_boundary(b@, p as int),
        b.len() <= u32::MAX,
        open.len() > 0,
        close.len() > 0,
        starts_with_at(b@, p as int, open@),
    ensures
        p < r.1 <= b.len(),
        at_boundary(b@, r.1 as int),
        token_shape(b@, r.0, p as int, r.1 as int),
        r.0 == block_from(b@, skip_to(b@, p as int, p + open.len()), 1, open@, close@, nestable).0,
        r.1 == block_from(b@, skip_to(b@, p as int, p + open.len()), 1, open@, close@, nestable).1,
{
    let mut r = skip_bytes(b, p, open.len());
    let mut depth: u32 = 1;
    let ghost goal = block_from(b@, r as int, 1, open@, close@, nestable);
    while r < b.len()
        invariant
            p < r <= b.len(),
            b.len() <= u32::MAX,
            at_boundary(b@, r as int),
            1 <= depth <= r,
            open.len() > 0,
            close.len() > 0,
            block_from(b@, r as int, depth as int, open@, close@, nestable) == goal,
        decreases b.len() - r,
    {
        if nestable && bytes_start_with(b, r, open) {
            r = skip_bytes(b, r, open.len());
            depth = depth + 1;
        } else if bytes_start_with(b, r, close) {
            r = skip_bytes(b, r, close.len());
            if depth == 1 {
                return (TokenKind::BlockComment, r);
            }
            depth = depth - 1;
        } else {
            r = next_char(b, r);
        }
    }
    (TokenKind::Unterminated(UnterminatedKind::BlockComment { depth }), r)
}

/// A `"..."` string whose opening quote is at `q - 1`; the token starts at
/// `p`. An unterminated string ends just before the first line that starts
/// with `(`, so a later top-level form is not swallowed.
fn string(b: &[u8], p: usize, q: usize) -> (r: (TokenKind, usize))
    requires
        valid_utf8(b@),
        at_boundary(b@, q as int),
        p < q <= b.len(),
    ensures
        p < r.1 <= b.len(),
        at_boundary(b@, r.1 as int),
        token_shape(b@, r.0, p as int, r.1 as int),
        r.0 == spec_string(b@, q as int).0,
        r.1 == spec_string(b@, q as int).1,
{
    let (closed, r) = delimited(b, q, 34, true);
    if closed {
        return (TokenKind::Str, r);
    }
    // Backtrack to the first line-start `(` inside the runaway string.
    let mut k = q;
    while k < b.len() && b.len() - k > 1
        invariant
            q <= k <= b.len(),
            at_boundary(b@, k as int),
            runaway_end(b@, q as int) == runaway_end(b@, k as int),
        decreases b.len() - k,
    {
        if b[k] == 10 && b[k + 1] == 40 {
            return (TokenKind::Unterminated(UnterminatedKind::Str), step_ascii(b, k));
        }
        k = next_char(b, k);
    }
    (TokenKind::Unterminated(UnterminatedKind::Str), b.len())
}

/// A Janet long string: a run of backticks, closed by an equal run.
fn long_string(b: &[u8], p: usize) -> (r: (TokenKind, usize))
    requires
        valid_utf8(b@),
        at_boundary(b@, p as int),
        p < b.len(),
        b@[p as int] == 96,
    ensures
        p < r.1 <= b.len(),
        at_boundary(b@, r.1 as int),
        token_shape(b@, r.0, p as int, r.1 as int),
        r.0 == spec_long_string(b@, p as int).0,
        r.1 == spec_long_string(b@, p as int).1,
{
    let mut r = p;
    while r < b.len() && b[r] == 96
        invariant
            p <= r <= b.len(),
            at_boundary(b@, r as int),
            forall|k: int| p <= k < r ==> b@[k] == 96,
            byte_run(b@, p as int, 96) == byte_run(b@, r as int, 96),
        decreases b.len() - r,
    {
        r = step_ascii(b, r);
    }
    let n = r - p;
    let ghost goal = long_from(b@, r as int, n as int);
    while r < b.len()
        invariant
            p < r <= b.len(),
            n == r - p || n <= r - p,
            n >= 1,
            p + n <= b.len(),
            at_boundary(b@, r as int),
            long_from(b@, r as int, n as int) == goal,
        decreases b.len() - r,
    {
        if run_of_ticks(b, r, n) {
            return (TokenKind::Str, skip_bytes(b, r, n));
        }
        r = next_char(b, r);
    }
    (TokenKind::Unterminated(UnterminatedKind::LongString), r)
}

/// Whether `b[r..r + n]` are all backticks.
fn run_of_ticks(b: &[u8], r: usize, n: usize) -> (ok: bool)
    ensures
        ok ==> r + n <= b.len(),
        ok == ticks_at(b@, r as int, n as int),
{
    if r > b.len() || n > b.len() - r {
        return false;
    }
    let mut i: usize = 0;
    while i < n
        invariant
            r + n <= b.len(),
            0 <= i <= n,
            forall|k: int| r <= k < r + i ==> b@[k] == 96,
        decreases n - i,
    {
        if b[r + i] != 96 {
            return false;
        }
        i = i + 1;
    }
    true
}

/// The rest of a character literal after its lead (`#\\` or `\\`): one
/// character, then, if it is a letter, the alphanumerics of a name.
fn char_tail(b: &[u8], q: usize) -> (r: usize)
    requires
        valid_utf8(b@),
        at_boundary(b@, q as int),
        q <= b.len(),
    ensures
        q <= r <= b.len(),
        at_boundary(b@, r as int),
        r == spec_char_tail(b@, q as int),
{
    if q >= b.len() {
        return q;
    }
    let c = b[q];
    let mut r = next_char(b, q);
    if is_name_start(c) {
        while r < b.len() && is_name_char(b[r])
            invariant
                q < r <= b.len(),
                at_boundary(b@, r as int),
                name_run(b@, char_end(b@, q as int)) == name_run(b@, r as int),
            decreases b.len() - r,
        {
            r = next_char(b, r);
        }
    }
    r
}

/// An Emacs Lisp `?x` character literal at `p`: `?a`, `?(`, `?\\n`,
/// `?\\C-x`, `?\\M-\\C-b`, `?\\^I`, `?\\x41`, `?\\123`.
fn question_char(b: &[u8], p: usize) -> (r: usize)
    requires
        valid_utf8(b@),
        at_boundary(b@, p as int),
        p < b.len(),
        b@[p as int] == 63,
    ensures
        p < r <= b.len(),
        at_boundary(b@, r as int),
        r == spec_question_char(b@, p as int),
{
    let q = step_ascii(b, p);
    if q >= b.len() {
        return q;
    }
    if b[q] != 92 {
        return next_char(b, q);
    }
    let mut r = q;
    // `r` sits on a backslash.
    while r < b.len() && b[r] == 92
        invariant
            q <= r < b.len(),
            b@[r as int] == 92,
            at_boundary(b@, r as int),
            escape_end(b@, q as int) == escape_end(b@, r as int),
        decreases b.len() - r,
    {
        r = step_ascii(b, r);
        if r >= b.len() {
            return r;
        }
        let c2 = b[r];
        r = next_char(b, r);
        if (c2 == 67 || c2 == 77 || c2 == 83 || c2 == 72 || c2 == 115 || c2 == 65) && r < b.len()
            && b[r] == 45 {
            // A modifier `C-`, `M-`, `S-`, `H-`, `s-`, `A-`.
            r = step_ascii(b, r);
            if r >= b.len() {
                return r;
            }
            if b[r] != 92 {
                return next_char(b, r);
            }
            // Another escape follows (`?\\C-\\M-x`): loop.
        } else if c2 == 94 {
            // `?\\^I`
            if r < b.len() {
                r = next_char(b, r);
            }
            return r;
        } else if c2 == 120 || c2 == 117 || c2 == 85 || is_ascii_digit(c2) {
            // Hex / unicode / octal escapes take the following alphanumerics.
            let ghost r2 = r;
            while r < b.len() && (is_ascii_alpha(b[r]) || is_ascii_digit(b[r]))
                invariant
                    q < r <= b.len(),
                    at_boundary(b@, r as int),
                    alnum_run(b@, r2 as int) == alnum_run(b@, r as int),
                decreases b.len() - r,
            {
                r = step_ascii(b, r);
            }
            return r;
        } else {
            return r;
        }
    }
    if r == q {
        next_char(b, q)
    } else {
        r
    }
}

/// Hash-led reader syntax at `p` (where `b[p]` is `#`).
fn hash(b: &[u8], o: &Options, p: usize) -> (r: (TokenKind, usize))
    requires
        valid_utf8(b@),
        at_boundary(b@, p as int),
        p < b.len(),
        b@[p as int] == 35,
    ensures
        p < r.1 <= b.len(),
        at_boundary(b@, r.1 as int),
        token_shape(b@, r.0, p as int, r.1 as int),
        r.0 == spec_hash(b@, *o, p as int).0,
        r.1 == spec_hash(b@, *o, p as int).1,
{
    let q = step_ascii(b, p);
    if q >= b.len() {
        return (TokenKind::Atom, q);
    }
    let d = b[q];
    if o.datum_comment && d == 59 {
        return (TokenKind::Prefix(Prefix::Discard), step_ascii(b, q));
    }
    if o.discard_underscore && d == 95 {
        return (TokenKind::Prefix(Prefix::Discard), step_ascii(b, q));
    }
    match o.char_syntax {
        Some(CharSyntax::HashBackslash) => {
            if d == 92 {
                return (TokenKind::Char, char_tail(b, step_ascii(b, q)));
            }
        },
        _ => {},
    }
    if d == 40 {
        match o.hash_paren {
            HashParen::HashFn => {
                return (TokenKind::Prefix(Prefix::HashFn), q);
            },
            _ => {
                return (TokenKind::HashOpen(Delim::Round), step_ascii(b, q));
            },
        }
    }
    if d == 91 {
        match o.hash_bracket {
            HashBracket::CharSet => {
                return char_set(b, p, step_ascii(b, q));
            },
            HashBracket::BracketString => {
                return bracket_string(b, p, step_ascii(b, q));
            },
            HashBracket::Plain => {
                if o.square.is_delimiter() {
                    return (TokenKind::HashOpen(Delim::Square), step_ascii(b, q));
                }
            },
        }
    }
    if d == 123 {
        if o.set_literal {
            return (TokenKind::Open(Delim::SetBrace), step_ascii(b, q));
        }
        if o.hash_curly_symbol {
            return extended_symbol(b, step_ascii(b, q));
        }
        if o.curly.is_delimiter() {
            return (TokenKind::HashOpen(Delim::Curly), step_ascii(b, q));
        }
    }
    if d == 34 && o.regex_literal {
        return string(b, p, step_ascii(b, q));
    }
    if d == 47 && o.regex_slash {
        return regex(b, step_ascii(b, q));
    }
    if d == 39 {
        match o.hash_apostrophe {
            Some(pf) => {
                return (TokenKind::Prefix(pf), step_ascii(b, q));
            },
            None => {},
        }
    }
    if d == 63 && o.reader_conditional {
        let r = step_ascii(b, q);
        if r < b.len() && b[r] == 64 {
            return (
                TokenKind::Prefix(Prefix::ReaderConditional { splicing: true }),
                step_ascii(b, r),
            );
        }
        return (TokenKind::Prefix(Prefix::ReaderConditional { splicing: false }), r);
    }
    if (d == 43 || d == 45) && o.feature_conditional {
        return (
            TokenKind::Prefix(Prefix::FeatureConditional { present: d == 43 }),
            step_ascii(b, q),
        );
    }
    if d == 46 && o.read_eval {
        return (TokenKind::Prefix(Prefix::ReadEval), step_ascii(b, q));
    }
    if d == 94 && o.roles.meta.is_some() {
        return (TokenKind::Prefix(Prefix::Meta), step_ascii(b, q));
    }
    if d == 35 {
        // `##Inf`, `##NaN`: a self-contained literal.
        return (TokenKind::Atom, atom_from(b, o, q));
    }
    if is_ascii_digit(d) && o.datum_labels {
        let mut r = q;
        while r < b.len() && is_ascii_digit(b[r])
            invariant
                q <= r <= b.len(),
                at_boundary(b@, r as int),
                r > q ==> is_ascii_digit_byte(b@[q as int]),
                digit_run(b@, q as int) == digit_run(b@, r as int),
            decreases b.len() - r,
        {
            r = step_ascii(b, r);
        }
        if r < b.len() && b[r] == 61 {
            return (TokenKind::Label, step_ascii(b, r));
        }
        if r < b.len() && b[r] == 35 {
            return (TokenKind::LabelRef, step_ascii(b, r));
        }
    }
    // A `#tag`: followed by an opening delimiter it opens a hash literal;
    // otherwise it is a boolean, a tagged-literal marker, or an atom.
    let t = if is_term(b, o, q) {
        q
    } else {
        atom_from(b, o, q)
    };
    if t < b.len() {
        let e = b[t];
        if e == 40 {
            return (TokenKind::HashOpen(Delim::Round), step_ascii(b, t));
        }
        if e == 91 && o.square.is_delimiter() {
            return (TokenKind::HashOpen(Delim::Square), step_ascii(b, t));
        }
        if e == 123 && o.curly.is_delimiter() {
            return (TokenKind::HashOpen(Delim::Curly), step_ascii(b, t));
        }
    }
    if o.booleans {
        if t - q == 1 && (d == 116 || d == 102) {
            return (TokenKind::Bool(d == 116), t);
        }
        if t - q == 4 {
            assert(b@.subrange(q as int, q + 4) == seq![116u8, 114, 117, 101] <==> (b@[q as int] == 116
                && b@[q + 1] == 114 && b@[q + 2] == 117 && b@[q + 3] == 101)) by {
                if b@[q as int] == 116 && b@[q + 1] == 114 && b@[q + 2] == 117 && b@[q + 3] == 101 {
                    assert(b@.subrange(q as int, q + 4) =~= seq![116u8, 114, 117, 101]);
                }
                if b@.subrange(q as int, q + 4) == seq![116u8, 114, 117, 101] {
                    assert(b@.subrange(q as int, q + 4)[0] == 116);
                    assert(b@.subrange(q as int, q + 4)[1] == 114);
                    assert(b@.subrange(q as int, q + 4)[2] == 117);
                    assert(b@.subrange(q as int, q + 4)[3] == 101);
                }
            }
        }
        if t - q == 5 {
            assert(b@.subrange(q as int, q + 5) == seq![102u8, 97, 108, 115, 101] <==> (b@[q as int]
                == 102 && b@[q + 1] == 97 && b@[q + 2] == 108 && b@[q + 3] == 115 && b@[q + 4] == 101)) by {
                if b@[q as int] == 102 && b@[q + 1] == 97 && b@[q + 2] == 108 && b@[q + 3] == 115 && b@[q
                    + 4] == 101 {
                    assert(b@.subrange(q as int, q + 5) =~= seq![102u8, 97, 108, 115, 101]);
                }
                if b@.subrange(q as int, q + 5) == seq![102u8, 97, 108, 115, 101] {
                    assert(b@.subrange(q as int, q + 5)[0] == 102);
                    assert(b@.subrange(q as int, q + 5)[1] == 97);
                    assert(b@.subrange(q as int, q + 5)[2] == 108);
                    assert(b@.subrange(q as int, q + 5)[3] == 115);
                    assert(b@.subrange(q as int, q + 5)[4] == 101);
                }
            }
        }
        if t - q == 4 && b[q] == 116 && b[q + 1] == 114 && b[q + 2] == 117 && b[q + 3] == 101 {
            return (TokenKind::Bool(true), t);
        }
        if t - q == 5 && b[q] == 102 && b[q + 1] == 97 && b[q + 2] == 108 && b[q + 3] == 115
            && b[q + 4] == 101 {
            return (TokenKind::Bool(false), t);
        }
    }
    if o.tagged_literals && t > q {
        return (TokenKind::HashTag, t);
    }
    (TokenKind::Atom, t)
}

/// An ASCII decimal digit.
pub open spec fn is_ascii_digit_byte(c: u8) -> bool {
    48 <= c <= 57
}

/// A Guile `#{...}#` extended symbol whose body starts at `q`.
fn extended_symbol(b: &[u8], q: usize) -> (r: (TokenKind, usize))
    requires
        valid_utf8(b@),
        at_boundary(b@, q as int),
        2 <= q <= b.len(),
    ensures
        q <= r.1 <= b.len(),
        at_boundary(b@, r.1 as int),
        token_shape(b@, r.0, (q - 2) as int, r.1 as int),
        r.0 == extended_from(b@, q as int).0,
        r.1 == extended_from(b@, q as int).1,
{
    let mut r = q;
    while r < b.len()
        invariant
            q <= r <= b.len(),
            at_boundary(b@, r as int),
            extended_from(b@, q as int) == extended_from(b@, r as int),
        decreases b.len() - r,
    {
        if b[r] == 125 && r + 1 < b.len() && b[r + 1] == 35 {
            let s = step_ascii(b, r);
            return (TokenKind::Atom, step_ascii(b, s));
        }
        r = next_char(b, r);
    }
    (TokenKind::Unterminated(UnterminatedKind::PipedSymbol), r)
}

/// A Gauche/Mosh `#/.../` regexp whose body starts at `q`, with an optional
/// trailing `i` flag.
fn regex(b: &[u8], q: usize) -> (r: (TokenKind, usize))
    requires
        valid_utf8(b@),
        at_boundary(b@, q as int),
        2 <= q <= b.len(),
    ensures
        q <= r.1 <= b.len(),
        at_boundary(b@, r.1 as int),
        token_shape(b@, r.0, (q - 2) as int, r.1 as int),
        r.0 == spec_regex(b@, q as int).0,
        r.1 == spec_regex(b@, q as int).1,
{
    let (closed, r) = delimited(b, q, 47, true);
    if !closed {
        return (TokenKind::Unterminated(UnterminatedKind::Regex), r);
    }
    if r < b.len() && b[r] == 105 {
        return (TokenKind::Str, step_ascii(b, r));
    }
    (TokenKind::Str, r)
}

/// A Gauche `#[...]` character set whose body starts at `q`: `\\` escapes the
/// next character, a well-formed POSIX class `[:name:]` (or `[:^name:]`) is
/// consumed whole, and the first other `]` closes the set.
fn char_set(b: &[u8], p: usize, q: usize) -> (r: (TokenKind, usize))
    requires
        valid_utf8(b@),
        at_boundary(b@, q as int),
        p < q <= b.len(),
    ensures
        q <= r.1 <= b.len(),
        at_boundary(b@, r.1 as int),
        token_shape(b@, r.0, p as int, r.1 as int),
        r.0 == charset_from(b@, q as int).0,
        r.1 == charset_from(b@, q as int).1,
{
    let mut r = q;
    while r < b.len()
        invariant
            q <= r <= b.len(),
            at_boundary(b@, r as int),
            charset_from(b@, q as int) == charset_from(b@, r as int),
        decreases b.len() - r,
    {
        let c = b[r];
        if c == 93 {
            return (TokenKind::Str, step_ascii(b, r));
        }
        if c == 92 {
            r = step_ascii(b, r);
            if r < b.len() {
                r = next_char(b, r);
            }
        } else if c == 91 && r + 1 < b.len() && b[r + 1] == 58 {
            r = posix_class(b, r);
        } else {
            r = next_char(b, r);
        }
    }
    (TokenKind::Unterminated(UnterminatedKind::CharSet), r)
}

/// At a `[:`, the offset past a well-formed POSIX class `[:name:]`, or past
/// just the `[` when the class is malformed.
fn posix_class(b: &[u8], r: usize) -> (n: usize)
    requires
        valid_utf8(b@),
        at_boundary(b@, r as int),
        r + 1 < b.len(),
        b@[r as int] == 91,
        b@[r + 1] == 58,
    ensures
        r < n <= b.len(),
        at_boundary(b@, n as int),
        n == posix_end(b@, r as int),
{
    let open = step_ascii(b, r);
    let mut j = step_ascii(b, open);
    if j < b.len() && b[j] == 94 {
        j = step_ascii(b, j);
    }
    let mut k = j;
    while k < b.len() && k - j < 16 && is_ascii_alpha(b[k])
        invariant
            j <= k <= b.len(),
            r < j,
            at_boundary(b@, k as int),
            class_name_run(b@, j as int, j as int) == class_name_run(b@, j as int, k as int),
        decreases b.len() - k,
    {
        k = step_ascii(b, k);
    }
    if k > j && b.len() - k > 1 && b[k] == 58 && b[k + 1] == 93 {
        let m = step_ascii(b, k);
        return step_ascii(b, m);
    }
    open
}

/// A Hy `#[DELIM[...]DELIM]` bracket string whose delimiter starts at `q`.
fn bracket_string(b: &[u8], p: usize, q: usize) -> (r: (TokenKind, usize))
    requires
        valid_utf8(b@),
        at_boundary(b@, q as int),
        p < q <= b.len(),
    ensures
        q <= r.1 <= b.len(),
        at_boundary(b@, r.1 as int),
        token_shape(b@, r.0, p as int, r.1 as int),
        r.0 == spec_bracket_string(b@, q as int).0,
        r.1 == spec_bracket_string(b@, q as int).1,
{
    let mut r = q;
    while r < b.len() && b[r] != 91
        invariant
            q <= r <= b.len(),
            at_boundary(b@, r as int),
            bracket_open(b@, q as int) == bracket_open(b@, r as int),
        decreases b.len() - r,
    {
        r = next_char(b, r);
    }
    if r >= b.len() {
        return (TokenKind::Unterminated(UnterminatedKind::BracketString), r);
    }
    let dlen = r - q;
    r = step_ascii(b, r);
    let ghost goal = bracket_from(b@, q as int, dlen as int, r as int);
    while r < b.len()
        invariant
            q < r <= b.len(),
            q + dlen < r,
            at_boundary(b@, r as int),
            bracket_from(b@, q as int, dlen as int, r as int) == goal,
        decreases b.len() - r,
    {
        if b[r] == 93 && closes_bracket(b, q, dlen, r) {
            return (TokenKind::Str, skip_bytes(b, r, dlen + 2));
        }
        r = next_char(b, r);
    }
    (TokenKind::Unterminated(UnterminatedKind::BracketString), r)
}

/// Whether `b[r..]` is `]` + the delimiter `b[q..q + dlen]` + `]`.
fn closes_bracket(b: &[u8], q: usize, dlen: usize, r: usize) -> (ok: bool)
    requires
        q + dlen < r < b.len(),
    ensures
        ok ==> r + dlen + 2 <= b.len(),
        ok == closes_at(b@, q as int, dlen as int, r as int),
{
    if dlen + 2 > b.len() - r {
        return false;
    }
    let mut i: usize = 0;
    while i < dlen
        invariant
            r + dlen + 2 <= b.len(),
            q + dlen < r,
            0 <= i <= dlen,
            b@.subrange(r + 1, r + 1 + i) == b@.subrange(q as int, q + i),
        decreases dlen - i,
    {
        if b[r + 1 + i] != b[q + i] {
            assert(b@.subrange(r + 1, r + 1 + dlen)[i as int] != b@.subrange(q as int, q + dlen)[i as int]);
            return false;
        }
        assert(b@.subrange(r + 1, r + 1 + i + 1) =~= b@.subrange(r + 1, r + 1 + i).push(b@[r + 1 + i]));
        assert(b@.subrange(q as int, q + i + 1) =~= b@.subrange(q as int, q + i).push(b@[q + i]));
        i = i + 1;
    }
    b[r + 1 + dlen] == 93
}

// ---------------------------------------------------------------------------
// The public lexer

/// The tokens of `b` under `o` from position `p` on: each is the token
/// [`spec_scan`] reads where the previous one ended.
pub open spec fn tokens_from(b: Seq<u8>, o: Options, p: int) -> Seq<Token>
    decreases b.len() - p,
{
    if p < 0 || p >= b.len() {
        Seq::empty()
    } else {
        let (k, e) = spec_scan(b, o, p);
        if p < e <= b.len() {
            seq![Token { kind: k, span: Span { start: p as u32, end: e as u32 } }] + tokens_from(b, o, e)
        } else {
            Seq::empty()
        }
    }
}

/// Lex `source` under `options`, yielding a token stream that tiles the input.
pub fn lex<'a>(source: &'a str, options: &'a Options) -> (l: Lexer<'a>)
    requires
        source.spec_bytes().len() <= u32::MAX,
    ensures
        l.wf(),
        l.source() == source,
        l.options() == *options,
        l.pos() == 0,
{
    Lexer::new(source, options)
}

/// The lexer: call [`Lexer::next_token`] until it returns `None`, or collect
/// the whole stream with [`Lexer::tokens`].
pub struct Lexer<'a> {
    src: &'a str,
    opts: &'a Options,
    pos: usize,
}

impl<'a> Lexer<'a> {
    /// The source being lexed.
    pub closed spec fn source(&self) -> &'a str {
        self.src
    }

    /// The options the source is lexed under.
    pub closed spec fn options(&self) -> Options {
        *self.opts
    }

    /// The byte offset of the next token.
    pub closed spec fn pos(&self) -> nat {
        self.pos as nat
    }

    /// The lexer's invariant: the source fits `u32` offsets and the position
    /// is a character boundary within it.
    pub closed spec fn wf(&self) -> bool {
        &&& self.src.spec_bytes().len() <= u32::MAX
        &&& self.pos <= self.src.spec_bytes().len()
        &&& at_boundary(self.src.spec_bytes(), self.pos as int)
    }

    /// A lexer at the start of `src`.
    pub fn new(src: &'a str, opts: &'a Options) -> (l: Self)
        requires
            src.spec_bytes().len() <= u32::MAX,
        ensures
            l.wf(),
            l.source() == src,
            l.options() == *opts,
            l.pos() == 0,
    {
        Lexer { src, opts, pos: 0 }
    }

    /// The next token, or `None` at the end of input. Each token starts where
    /// the previous one ended, is non-empty, and ends on a character boundary.
    pub fn next_token(&mut self) -> (t: Option<Token>)
        requires
            old(self).wf(),
        ensures
            final(self).wf(),
            final(self).source() == old(self).source(),
            final(self).options() == old(self).options(),
            old(self).pos() == old(self).source().spec_bytes().len() ==> t.is_none()
                && final(self).pos() == old(self).pos(),
            old(self).pos() < old(self).source().spec_bytes().len() ==> t.is_some() && token_at(
                old(self).source().spec_bytes(),
                t.unwrap(),
                old(self).pos() as int,
            ) && final(self).pos() == t.unwrap().span.end,
            old(self).pos() < old(self).source().spec_bytes().len() ==> old(self).pos() < spec_scan(
                old(self).source().spec_bytes(),
                old(self).options(),
                old(self).pos() as int,
            ).1 <= old(self).source().spec_bytes().len(),
            old(self).pos() < old(self).source().spec_bytes().len() ==> t == Some(
                Token {
                    kind: spec_scan(old(self).source().spec_bytes(), old(self).options(), old(self).pos() as int).0,
                    span: Span {
                        start: old(self).pos() as u32,
                        end: spec_scan(
                            old(self).source().spec_bytes(),
                            old(self).options(),
                            old(self).pos() as int,
                        ).1 as u32,
                    },
                },
            ),
    {
        let b = self.src.as_bytes();
        if self.pos >= b.len() {
            return None;
        }
        let start = self.pos;
        let (kind, end) = scan(b, self.opts, start);
        self.pos = end;
        Some(Token { kind, span: Span::new(start as u32, end as u32) })
    }

    /// Every remaining token, in order. From a fresh lexer the tokens tile the
    /// whole input.
    pub fn tokens(self) -> (v: Vec<Token>)
        requires
            self.wf(),
            self.pos() == 0,
        ensures
            tiles(self.source().spec_bytes(), v@),
            v@ == tokens_from(self.source().spec_bytes(), self.options(), 0),
    {
        let mut l = self;
        let mut v: Vec<Token> = Vec::new();
        let ghost b = l.source().spec_bytes();
        let ghost o = l.options();
        assert(v@ + tokens_from(b, o, 0) =~= tokens_from(b, o, 0));
        while l.pos < l.src.as_bytes().len()
            invariant
                l.wf(),
                l.source().spec_bytes() == b,
                l.options() == o,
                v@ + tokens_from(b, o, l.pos as int) == tokens_from(b, o, 0),
                forall|i: int| 0 <= i < v.len() ==> #[trigger] token_at(b, v@[i], v@[i].span.start as int),
                v.len() == 0 ==> l.pos == 0,
                v.len() > 0 ==> v@[0].span.start == 0 && v@[v.len() - 1].span.end == l.pos,
                forall|i: int| 0 <= i < v.len() - 1 ==> #[trigger] v@[i].span.end == v@[i + 1].span.start,
            decreases b.len() - l.pos,
        {
            let ghost before = v@;
            let ghost p0 = l.pos as int;
            let t = l.next_token();
            match t {
                Some(t) => {
                    v.push(t);
                    assert(tokens_from(b, o, p0) == seq![t] + tokens_from(b, o, l.pos as int));
                    assert(v@ + tokens_from(b, o, l.pos as int) =~= before + tokens_from(b, o, p0));
                },
                None => {},
            }
        }
        assert(tokens_from(b, o, l.pos as int) =~= Seq::<Token>::empty());
        assert(v@ =~= tokens_from(b, o, 0));
        v
    }
}

} // verus!
