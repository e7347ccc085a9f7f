//! What the reader makes of a stream of significant tokens, stated as spec
//! functions over shapes: the data it reads, where it stops, and the
//! diagnostics it reports, in order.
//!
//! Each function here describes one step of the recursive-descent reader in
//! [`crate::reader`]; the reader's functions are proved to agree with them.

use vstd::prelude::*;

use crate::datum::{Delim, Notation, Prefix};
use crate::lexer::tokens_from;
use crate::options::Options;
use crate::reader::{spec_close_matches, spec_looks_like_number, spec_quote_symbol, MAX_DEPTH};
use crate::shape::{Diag, Fault, LeafKind, Shape};
use crate::span::Span;
use crate::token::{Token, TokenKind};

verus! {

/// The reader's input: the source bytes, its significant tokens, and the
/// dialect options.
pub struct Stream {
    /// The source bytes.
    pub b: Seq<u8>,
    /// The significant tokens (no whitespace, comments or lang line).
    pub toks: Seq<Token>,
    /// The dialect options.
    pub o: Options,
}

/// One read: the datum read, if any, the token position after it, and the
/// diagnostics reported on the way.
pub struct Read {
    /// The datum read, if any.
    pub datum: Option<Shape>,
    /// The position of the next unread token.
    pub pos: int,
    /// The diagnostics reported, in order.
    pub diags: Seq<Diag>,
}

/// A list being read: its items, its dotted tail and the dot before it, and
/// the end of the last datum read.
pub struct Items {
    /// The items read so far.
    pub items: Seq<Shape>,
    /// The dotted tail, if one was read last.
    pub tail: Option<Box<Shape>>,
    /// The dot before the tail.
    pub dot: Option<Span>,
    /// The end of the last datum read (the opening delimiter's end at first).
    pub last_end: u32,
}

/// The items of a list read up to its end.
pub struct ItemsRead {
    /// The items, tail and dot read.
    pub acc: Items,
    /// The end of the list's span.
    pub end: u32,
    /// The position of the next unread token.
    pub pos: int,
    /// The diagnostics reported, in order.
    pub diags: Seq<Diag>,
}

/// One step of reading a list's items: the items so far, the position after
/// the step, its diagnostics, and the list's end when the step closed it.
pub struct Step {
    /// The items, tail and dot read so far.
    pub acc: Items,
    /// The position of the next unread token.
    pub pos: int,
    /// The diagnostics reported, in order.
    pub diags: Seq<Diag>,
    /// The end of the list's span, when this step ended the list.
    pub end: Option<u32>,
}

/// A balanced region skipped over.
pub struct Skip {
    /// The position of the next unread token.
    pub pos: int,
    /// The end of the last token skipped.
    pub end: u32,
    /// The diagnostics reported, in order.
    pub diags: Seq<Diag>,
}

/// The top-level data read and the diagnostics reported.
pub struct Top {
    /// The top-level data, in order.
    pub data: Seq<Shape>,
    /// The diagnostics reported, in order.
    pub diags: Seq<Diag>,
}

/// A diagnostic at `span`.
pub open spec fn diag(span: Span, fault: Fault) -> Diag {
    Diag { span, fault }
}

/// The diagnostic for a close `t` (of shape `found`) ending a list opened
/// with `open`: none when they match.
pub open spec fn mismatch(open: Delim, t: Token, found: Delim) -> Seq<Diag> {
    if spec_close_matches(open, found) {
        seq![]
    } else {
        seq![diag(t.span, Fault::MismatchedDelimiter { expected: open, found })]
    }
}

/// How an atom's bytes classify: an extended `#{…}#` symbol, a `#:` or `:`
/// keyword, a number, a trailing-colon keyword, or else a symbol — each only
/// where the dialect enables it.
pub open spec fn atom_leaf(b: Seq<u8>, o: Options) -> LeafKind {
    if o.hash_curly_symbol && b.len() >= 2 && b[0] == 35 && b[1] == 123 {
        LeafKind::Symbol
    } else if o.hash_keyword && b.len() >= 2 && b[0] == 35 && b[1] == 58 {
        LeafKind::Keyword
    } else if o.keyword_colon && b.len() >= 1 && b[0] == 58 {
        LeafKind::Keyword
    } else if spec_looks_like_number(b) {
        LeafKind::Number
    } else if o.keyword_trailing_colon && b.len() > 1 && b[b.len() - 1] == 58 {
        LeafKind::Keyword
    } else {
        LeafKind::Symbol
    }
}

/// The datum a single token makes, if it makes one by itself.
pub open spec fn leaf_of(s: Stream, t: Token) -> Option<Shape> {
    match t.kind {
        TokenKind::Str => Some(Shape::Leaf { kind: LeafKind::Str, span: t.span }),
        TokenKind::Char => Some(Shape::Leaf { kind: LeafKind::Char, span: t.span }),
        TokenKind::Bool(v) => Some(Shape::Leaf { kind: LeafKind::Bool(v), span: t.span }),
        TokenKind::Atom => Some(
            Shape::Leaf {
                kind: atom_leaf(s.b.subrange(t.span.start as int, t.span.end as int), s.o),
                span: t.span,
            },
        ),
        TokenKind::LabelRef => Some(
            Shape::LabelRef { id_len: (t.span.end - t.span.start - 2) as nat, span: t.span },
        ),
        _ => None,
    }
}

/// A read that stands for no datum. The guards that lead here never fail:
/// reading only moves forward ([`lemma_read_progress`]).
pub open spec fn stalled(pos: int) -> Read {
    Read { datum: None, pos, diags: seq![] }
}

/// The list items before any is read.
pub open spec fn items_start(last_end: u32) -> Items {
    Items { items: seq![], tail: None, dot: None, last_end }
}

/// Fold a dotted tail back into the items; the result and whether there
/// was one.
pub open spec fn fold_tail(acc: Items) -> (Items, bool) {
    match acc.tail {
        Some(t) => (Items { items: acc.items.push(*t), tail: None, dot: None, last_end: acc.last_end }, true),
        None => (Items { items: acc.items, tail: None, dot: None, last_end: acc.last_end }, false),
    }
}

/// Whether token `t` is the dot of a dotted list whose items are non-empty
/// when `has_items`.
pub open spec fn is_dot(s: Stream, t: Token, has_items: bool) -> bool {
    &&& t.kind is Atom
    &&& s.o.dotted_pairs
    &&& has_items
    &&& t.span.end - t.span.start == 1
    &&& s.b[t.span.start as int] == 46
}

/// `(quote x)` and friends as a longhand prefixed datum: only a two-item
/// round list without tail whose head symbol names a quote form that the
/// dialect has.
pub open spec fn fold_shape(sh: Shape, b: Seq<u8>, o: Options) -> Shape {
    match sh {
        Shape::List { delim: Delim::Round, items, tail: None, span, .. } => {
            let head = items[0];
            if items.len() == 2 && head is Leaf && head->kind == LeafKind::Symbol {
                match spec_quote_symbol(b.subrange(head.span().start as int, head.span().end as int), o) {
                    Some(p) => Shape::Prefixed {
                        prefix: p,
                        notation: Notation::Longhand,
                        inner: Box::new(items[1]),
                        arg: None,
                        span,
                    },
                    None => sh,
                }
            } else {
                sh
            }
        },
        _ => sh,
    }
}

/// Skip a balanced region from `pos` with `nesting` levels open: nested
/// opens are counted, and the close that brings the count to zero ends it.
pub open spec fn skip(s: Stream, delim: Delim, pos: int, nesting: int, end: u32) -> Skip
    decreases s.toks.len() - pos,
{
    if pos < 0 || pos >= s.toks.len() {
        Skip { pos, end, diags: seq![] }
    } else {
        let t = s.toks[pos];
        match t.kind {
            TokenKind::Open(_) => skip(s, delim, pos + 1, nesting + 1, t.span.end),
            TokenKind::HashOpen(_) => skip(s, delim, pos + 1, nesting + 1, t.span.end),
            TokenKind::Close(found) => if nesting - 1 == 0 {
                Skip { pos: pos + 1, end: t.span.end, diags: mismatch(delim, t, found) }
            } else {
                skip(s, delim, pos + 1, nesting - 1, t.span.end)
            },
            _ => skip(s, delim, pos + 1, nesting, t.span.end),
        }
    }
}

/// Read one datum at `pos`, at list nesting `depth`: discarded data are
/// skipped and unfinished tokens reported; nothing is read at the end of
/// input or before a closing delimiter.
pub open spec fn read_datum(s: Stream, pos: int, depth: int) -> Read
    decreases s.toks.len() - pos, 0nat,
{
    if pos < 0 || pos >= s.toks.len() {
        Read { datum: None, pos, diags: seq![] }
    } else {
        let t = s.toks[pos];
        match t.kind {
            TokenKind::Close(_) => Read { datum: None, pos, diags: seq![] },
            TokenKind::Unterminated(_) => {
                let r = read_datum(s, pos + 1, depth);
                Read { datum: r.datum, pos: r.pos, diags: seq![diag(t.span, Fault::MalformedToken)] + r.diags }
            },
            TokenKind::Prefix(Prefix::Discard) if !s.o.keep_discarded => {
                let k = read_datum(s, pos + 1, depth);
                let e = if k.datum is None {
                    seq![diag(t.span, Fault::DanglingPrefix { prefix: Prefix::Discard })]
                } else {
                    seq![]
                };
                if pos < k.pos <= s.toks.len() {
                    let r = read_datum(s, k.pos, depth);
                    Read { datum: r.datum, pos: r.pos, diags: k.diags + e + r.diags }
                } else {
                    stalled(pos)
                }
            },
            TokenKind::Open(delim) => read_list(s, delim, t.span, true, pos + 1, depth),
            TokenKind::HashOpen(delim) => read_hash(s, delim, t.span, pos + 1, depth),
            TokenKind::HashTag => read_tagged(s, t, pos + 1, depth),
            TokenKind::Prefix(prefix) => read_prefixed(s, prefix, t, pos + 1, depth),
            TokenKind::Label => read_label(s, t, pos + 1, depth),
            _ => Read { datum: leaf_of(s, t), pos: pos + 1, diags: seq![] },
        }
    }
}

/// `#tag <form>` after the tag token `t`: the tag applies to the following
/// datum, if any.
pub open spec fn read_tagged(s: Stream, t: Token, pos: int, depth: int) -> Read
    decreases s.toks.len() - pos, 1nat,
{
    let r = read_datum(s, pos, depth);
    let tag_len = (t.span.end - t.span.start - 1) as nat;
    match r.datum {
        Some(d) => Read {
            datum: Some(
                Shape::HashLiteral {
                    tag_len,
                    inner: Some(Box::new(d)),
                    span: Span { start: t.span.start, end: d.span().end },
                },
            ),
            pos: r.pos,
            diags: r.diags,
        },
        None => Read {
            datum: Some(Shape::HashLiteral { tag_len, inner: None, span: t.span }),
            pos: r.pos,
            diags: r.diags.push(diag(t.span, Fault::DanglingTag)),
        },
    }
}

/// A prefixed datum after the prefix token `t`: for `^meta` and
/// `#+feature`, an auxiliary datum first, then the datum the prefix applies
/// to.
pub open spec fn read_prefixed(s: Stream, prefix: Prefix, t: Token, pos: int, depth: int) -> Read
    decreases s.toks.len() - pos, 1nat,
{
    let with_arg = match prefix {
        Prefix::Meta => true,
        Prefix::FeatureConditional { .. } => s.o.feature_conditional,
        _ => false,
    };
    let a = if with_arg {
        read_datum(s, pos, depth)
    } else {
        Read { datum: None, pos, diags: seq![] }
    };
    if pos <= a.pos <= s.toks.len() {
        let i = read_datum(s, a.pos, depth);
        match i.datum {
            Some(d) => Read {
                datum: Some(
                    Shape::Prefixed {
                        prefix,
                        notation: Notation::Shorthand,
                        inner: Box::new(d),
                        arg: match a.datum {
                            Some(x) => Some(Box::new(x)),
                            None => None,
                        },
                        span: Span { start: t.span.start, end: d.span().end },
                    },
                ),
                pos: i.pos,
                diags: a.diags + i.diags,
            },
            None => Read {
                datum: None,
                pos: i.pos,
                diags: (a.diags + i.diags).push(diag(t.span, Fault::DanglingPrefix { prefix })),
            },
        }
    } else {
        stalled(pos)
    }
}

/// A datum label `#n=` (token `t`) and the datum it labels.
pub open spec fn read_label(s: Stream, t: Token, pos: int, depth: int) -> Read
    decreases s.toks.len() - pos, 1nat,
{
    let r = read_datum(s, pos, depth);
    match r.datum {
        Some(d) => Read {
            datum: Some(
                Shape::Label {
                    id_len: (t.span.end - t.span.start - 2) as nat,
                    inner: Box::new(d),
                    span: Span { start: t.span.start, end: d.span().end },
                },
            ),
            pos: r.pos,
            diags: r.diags,
        },
        None => Read { datum: None, pos: r.pos, diags: r.diags.push(diag(t.span, Fault::DanglingLabel)) },
    }
}

/// A list opened by `open` (shape `delim`), read from `pos` at nesting
/// `depth`: too deep, its balanced region is skipped and reported; else its
/// items are read up to the close, and a longhand quote form is folded when
/// `fold` is set and the dialect folds.
pub open spec fn read_list(s: Stream, delim: Delim, open: Span, fold: bool, pos: int, depth: int) -> Read
    decreases s.toks.len() - pos, 3nat,
{
    if depth >= MAX_DEPTH {
        let k = skip(s, delim, pos, 1, open.end);
        Read {
            datum: Some(
                Shape::List {
                    delim,
                    items: seq![],
                    tail: None,
                    dot: None,
                    span: Span { start: open.start, end: k.end },
                },
            ),
            pos: k.pos,
            diags: seq![diag(open, Fault::DepthLimitExceeded)] + k.diags,
        }
    } else {
        let r = read_items(s, delim, open, items_start(open.end), pos, depth + 1);
        let list = Shape::List {
            delim,
            items: r.acc.items,
            tail: r.acc.tail,
            dot: r.acc.dot,
            span: Span { start: open.start, end: r.end },
        };
        Read {
            datum: Some(
                if fold && s.o.fold_longhand {
                    fold_shape(list, s.b, s.o)
                } else {
                    list
                },
            ),
            pos: r.pos,
            diags: r.diags,
        }
    }
}

/// A list's items from `pos` on, after `acc`: up to the close, which may
/// not match; or up to the end of input, where the list is unclosed.
pub open spec fn read_items(s: Stream, delim: Delim, open: Span, acc: Items, pos: int, depth: int) -> ItemsRead
    decreases s.toks.len() - pos, 2nat,
{
    if pos < 0 || pos >= s.toks.len() {
        ItemsRead {
            acc,
            end: acc.last_end,
            pos,
            diags: seq![diag(open, Fault::UnclosedList { open: delim })],
        }
    } else {
        let t = s.toks[pos];
        match t.kind {
            TokenKind::Close(found) => ItemsRead {
                acc,
                end: t.span.end,
                pos: pos + 1,
                diags: mismatch(delim, t, found),
            },
            _ => {
                let st = if is_dot(s, t, acc.items.len() > 0) {
                    dotted_step(s, t, acc, pos + 1, depth)
                } else {
                    item_step(s, delim, open, acc, pos, depth)
                };
                match st.end {
                    Some(end) => ItemsRead { acc: st.acc, end, pos: st.pos, diags: st.diags },
                    None => if pos < st.pos <= s.toks.len() {
                        let r = read_items(s, delim, open, st.acc, st.pos, depth);
                        ItemsRead { acc: r.acc, end: r.end, pos: r.pos, diags: st.diags + r.diags }
                    } else {
                        ItemsRead { acc: st.acc, end: acc.last_end, pos, diags: seq![] }
                    },
                }
            },
        }
    }
}

/// The dot `t` of a dotted list and the tail after it, read from `pos`. A
/// prior tail folds back into the items; that is malformed unless the
/// dialect has infix dots.
pub open spec fn dotted_step(s: Stream, t: Token, acc: Items, pos: int, depth: int) -> Step
    decreases s.toks.len() - pos, 1nat,
{
    let (acc1, had) = fold_tail(acc);
    let e = if had && !s.o.dotted_pairs_infix {
        seq![diag(t.span, Fault::ItemAfterDottedTail)]
    } else {
        seq![]
    };
    let r = read_datum(s, pos, depth);
    match r.datum {
        Some(d) => Step {
            acc: Items { items: acc1.items, tail: Some(Box::new(d)), dot: Some(t.span), last_end: d.span().end },
            pos: r.pos,
            diags: e + r.diags,
            end: None,
        },
        None => Step {
            acc: acc1,
            pos: r.pos,
            diags: (e + r.diags).push(diag(t.span, Fault::DanglingDot)),
            end: None,
        },
    }
}

/// The next item of a list, read at `pos`. An item after a dotted tail
/// folds the tail back into the items; that is malformed unless the dialect
/// has infix dots. When no item can be read, a close ends the list, or the
/// list is unclosed.
pub open spec fn item_step(s: Stream, delim: Delim, open: Span, acc: Items, pos: int, depth: int) -> Step
    decreases s.toks.len() - pos, 1nat,
{
    let r = read_datum(s, pos, depth);
    match r.datum {
        Some(d) => {
            let (acc1, had) = fold_tail(acc);
            let e = if had && !s.o.dotted_pairs_infix {
                seq![diag(d.span(), Fault::ItemAfterDottedTail)]
            } else {
                seq![]
            };
            Step {
                acc: Items { items: acc1.items.push(d), tail: None, dot: None, last_end: d.span().end },
                pos: r.pos,
                diags: r.diags + e,
                end: None,
            }
        },
        None => if 0 <= r.pos < s.toks.len() && s.toks[r.pos].kind is Close {
            let c = s.toks[r.pos];
            Step {
                acc,
                pos: r.pos + 1,
                diags: r.diags + mismatch(delim, c, c.kind->Close_0),
                end: Some(c.span.end),
            }
        } else {
            Step {
                acc,
                pos: r.pos,
                diags: r.diags.push(diag(open, Fault::UnclosedList { open: delim })),
                end: Some(acc.last_end),
            }
        },
    }
}

/// A `#(`-style hash literal opened by `open`: the list inside, read as
/// data (no quote folding), tagged with the text between `#` and the
/// delimiter.
pub open spec fn read_hash(s: Stream, delim: Delim, open: Span, pos: int, depth: int) -> Read
    decreases s.toks.len() - pos, 4nat,
{
    let r = read_list(s, delim, Span { start: (open.end - 1) as u32, end: open.end }, false, pos, depth);
    match r.datum {
        Some(inner) => Read {
            datum: Some(
                Shape::HashLiteral {
                    tag_len: (open.end - open.start - 2) as nat,
                    inner: Some(Box::new(inner)),
                    span: Span { start: open.start, end: inner.span().end },
                },
            ),
            pos: r.pos,
            diags: r.diags,
        },
        None => stalled(pos),
    }
}

/// The top-level data from `pos` on: stray closes are reported, and a
/// position where nothing can be read is stepped over.
pub open spec fn read_top(s: Stream, pos: int) -> Top
    decreases s.toks.len() - pos,
{
    if pos < 0 || pos >= s.toks.len() {
        Top { data: seq![], diags: seq![] }
    } else {
        let t = s.toks[pos];
        match t.kind {
            TokenKind::Close(found) => {
                let r = read_top(s, pos + 1);
                Top {
                    data: r.data,
                    diags: seq![diag(t.span, Fault::UnexpectedDelimiter { found })] + r.diags,
                }
            },
            _ => {
                let d = read_datum(s, pos, 0);
                let next = if d.datum is None && d.pos == pos {
                    pos + 1
                } else {
                    d.pos
                };
                if pos < next <= s.toks.len() {
                    let r = read_top(s, next);
                    Top {
                        data: match d.datum {
                            Some(x) => seq![x] + r.data,
                            None => r.data,
                        },
                        diags: d.diags + r.diags,
                    }
                } else {
                    Top { data: seq![], diags: seq![] }
                }
            },
        }
    }
}

/// One form read at `pos`, after any stray closes (each reported).
pub open spec fn read_form_at(s: Stream, pos: int) -> Read
    decreases s.toks.len() - pos,
{
    if pos < 0 || pos >= s.toks.len() {
        Read { datum: None, pos, diags: seq![] }
    } else {
        let t = s.toks[pos];
        match t.kind {
            TokenKind::Close(found) => {
                let r = read_form_at(s, pos + 1);
                Read {
                    datum: r.datum,
                    pos: r.pos,
                    diags: seq![diag(t.span, Fault::UnexpectedDelimiter { found })] + r.diags,
                }
            },
            _ => read_datum(s, pos, 0),
        }
    }
}

/// The first token position at or after `i` whose start is at or after
/// `start`.
pub open spec fn first_at(toks: Seq<Token>, start: u32, i: int) -> int
    decreases toks.len() - i,
{
    if i < 0 || i >= toks.len() || toks[i].span.start >= start {
        i
    } else {
        first_at(toks, start, i + 1)
    }
}

/// Whether a token carries no datum: whitespace, a comment, or the lang
/// line.
pub open spec fn is_trivia(t: Token) -> bool {
    ||| t.kind is Whitespace
    ||| t.kind is LineComment
    ||| t.kind is BlockComment
    ||| t.kind is LangLine
}

/// The tokens of `toks` that are not trivia, in order.
pub open spec fn significant(toks: Seq<Token>) -> Seq<Token>
    decreases toks.len(),
{
    if toks.len() == 0 {
        seq![]
    } else {
        let r = significant(toks.drop_last());
        if is_trivia(toks.last()) {
            r
        } else {
            r.push(toks.last())
        }
    }
}

/// The reader's input for source bytes `b` under options `o`: the
/// significant tokens the lexer makes of `b`.
pub open spec fn stream_of(b: Seq<u8>, o: Options) -> Stream {
    Stream { b, toks: significant(tokens_from(b, o, 0)), o }
}

/// The first lang-line token of `toks` at or after `i`.
pub open spec fn first_lang(toks: Seq<Token>, i: int) -> Option<Token>
    decreases toks.len() - i,
{
    if i < 0 || i >= toks.len() {
        None
    } else if toks[i].kind is LangLine {
        Some(toks[i])
    } else {
        first_lang(toks, i + 1)
    }
}

/// Past any number of `#lang` at `i`, before `e`.
pub open spec fn strip_lang(b: Seq<u8>, i: int, e: int) -> int
    decreases e - i,
{
    if 0 <= i && i + 5 <= e && e <= b.len() && b[i] == 35 && b[i + 1] == 108 && b[i + 2] == 97
        && b[i + 3] == 110 && b[i + 4] == 103 {
        strip_lang(b, i + 5, e)
    } else {
        i
    }
}

/// Whether `c` is an ASCII white-space byte (tab, line feed, vertical tab,
/// form feed, carriage return, space).
pub open spec fn ascii_ws(c: u8) -> bool {
    c == 9 || c == 10 || c == 11 || c == 12 || c == 13 || c == 32
}

/// Whether the three UTF-8 bytes `x y z` encode a non-ASCII white-space
/// character of three bytes: U+1680, U+2000 to U+200A, U+2028, U+2029,
/// U+202F, U+205F or U+3000.
pub open spec fn ws3(x: u8, y: u8, z: u8) -> bool {
    ||| x == 0xE1 && y == 0x9A && z == 0x80
    ||| x == 0xE2 && y == 0x80 && (0x80 <= z <= 0x8A || z == 0xA8 || z == 0xA9 || z == 0xAF)
    ||| x == 0xE2 && y == 0x81 && z == 0x9F
    ||| x == 0xE3 && y == 0x80 && z == 0x80
}

/// The length in bytes of the white-space character (Unicode White_Space)
/// that starts at `i` and ends by `e`; 0 when there is none.
pub open spec fn ws_at(b: Seq<u8>, i: int, e: int) -> int {
    if 0 <= i < e <= b.len() && ascii_ws(b[i]) {
        1
    } else if 0 <= i && i + 2 <= e <= b.len() && b[i] == 0xC2 && (b[i + 1] == 0x85 || b[i + 1]
        == 0xA0) {
        2
    } else if 0 <= i && i + 3 <= e <= b.len() && ws3(b[i], b[i + 1], b[i + 2]) {
        3
    } else {
        0
    }
}

/// The length in bytes of the white-space character that ends at `j` and
/// starts at or after `i`; 0 when there is none.
pub open spec fn ws_before(b: Seq<u8>, i: int, j: int) -> int {
    if 0 <= i < j <= b.len() && ascii_ws(b[j - 1]) {
        1
    } else if 0 <= i && i + 2 <= j <= b.len() && b[j - 2] == 0xC2 && (b[j - 1] == 0x85 || b[j
        - 1] == 0xA0) {
        2
    } else if 0 <= i && i + 3 <= j <= b.len() && ws3(b[j - 3], b[j - 2], b[j - 1]) {
        3
    } else {
        0
    }
}

/// Past the white space at the front of `[i, e)`.
pub open spec fn trim_front(b: Seq<u8>, i: int, e: int) -> int
    decreases e - i,
{
    let k = ws_at(b, i, e);
    if k > 0 {
        trim_front(b, i + k, e)
    } else {
        i
    }
}

/// Before the white space at the back of `[i, j)`.
pub open spec fn trim_back(b: Seq<u8>, i: int, j: int) -> int
    decreases j - i,
{
    let k = ws_before(b, i, j);
    if k > 0 {
        trim_back(b, i, j - k)
    } else {
        j
    }
}

/// The name a lang line `[s, e)` declares: the text after any leading
/// `#lang`, without white space at either end.
pub open spec fn lang_name_bytes(b: Seq<u8>, s: int, e: int) -> Seq<u8> {
    let i = trim_front(b, strip_lang(b, s, e), e);
    b.subrange(i, trim_back(b, i, e))
}

/// The name declared by the first lang line of source bytes `b` under `o`,
/// if there is one.
pub open spec fn lang_of(b: Seq<u8>, o: Options) -> Option<Seq<u8>> {
    match first_lang(tokens_from(b, o, 0), 0) {
        Some(t) => Some(lang_name_bytes(b, t.span.start as int, t.span.end as int)),
        None => None,
    }
}

/// Token starts strictly increase along `toks`.
pub open spec fn sorted_starts(toks: Seq<Token>) -> bool {
    forall|i: int, j: int| 0 <= i < j < toks.len() ==> #[trigger] toks[i].span.start < #[trigger] toks[j].span.start
}

/// The tokens the lexer makes from `p` on start at or after `p`, in strictly
/// increasing order.
pub proof fn lemma_tokens_sorted(b: Seq<u8>, o: Options, p: int)
    requires
        0 <= p,
        b.len() <= u32::MAX,
    ensures
        sorted_starts(tokens_from(b, o, p)),
        forall|i: int| 0 <= i < tokens_from(b, o, p).len() ==> p <= #[trigger] tokens_from(b, o, p)[i].span.start,
    decreases b.len() - p,
{
    if p < b.len() {
        let (k, e) = crate::lexer::spec_scan(b, o, p);
        if p < e <= b.len() {
            lemma_tokens_sorted(b, o, e);
            let t = Token { kind: k, span: Span { start: p as u32, end: e as u32 } };
            let rest = tokens_from(b, o, e);
            let all = tokens_from(b, o, p);
            assert(all == seq![t] + rest);
            assert(t.span.start == p);
            assert forall|i: int| 0 <= i < all.len() implies p <= #[trigger] all[i].span.start by {
                if i > 0 {
                    assert(all[i] == rest[i - 1]);
                    assert(e <= rest[i - 1].span.start);
                } else {
                    assert(all[0] == t);
                }
            }
            assert forall|i: int, j: int| 0 <= i < j < all.len() implies #[trigger] all[i].span.start
                < #[trigger] all[j].span.start by {
                assert(all[j] == rest[j - 1]);
                assert(e <= rest[j - 1].span.start);
                if i > 0 {
                    assert(all[i] == rest[i - 1]);
                    assert(rest[i - 1].span.start < rest[j - 1].span.start);
                } else {
                    assert(all[0] == t);
                }
            }
        }
    }
}

/// The significant tokens are tokens of `toks`, and keep sorted starts.
pub proof fn lemma_significant_sorted(toks: Seq<Token>)
    requires
        sorted_starts(toks),
    ensures
        sorted_starts(significant(toks)),
        forall|x: Token| #[trigger] significant(toks).contains(x) ==> toks.contains(x),
    decreases toks.len(),
{
    if toks.len() > 0 {
        let d = toks.drop_last();
        assert(sorted_starts(d)) by {
            assert forall|i: int, j: int| 0 <= i < j < d.len() implies #[trigger] d[i].span.start
                < #[trigger] d[j].span.start by {
                assert(d[i] == toks[i] && d[j] == toks[j]);
            }
        }
        lemma_significant_sorted(d);
        let r = significant(d);
        assert forall|x: Token| #[trigger] r.contains(x) implies toks.contains(x) && x.span.start
            < toks.last().span.start by {
            let k = choose|k: int| 0 <= k < d.len() && d[k] == x;
            assert(toks[k] == x);
        }
        if !is_trivia(toks.last()) {
            let r2 = r.push(toks.last());
            assert forall|i: int, j: int| 0 <= i < j < r2.len() implies #[trigger] r2[i].span.start
                < #[trigger] r2[j].span.start by {
                assert(r2[i] == r[i]);
                if j == r.len() {
                    assert(r.contains(r[i]));
                    assert(r2[j] == toks.last());
                } else {
                    assert(r2[j] == r[j]);
                    assert(r[i].span.start < r[j].span.start);
                }
            }
            assert(sorted_starts(r2));
            assert(significant(toks) == r2);
            assert forall|x: Token| #[trigger] r2.contains(x) implies toks.contains(x) by {
                let k = choose|k: int| 0 <= k < r2.len() && r2[k] == x;
                if k < r.len() {
                    assert(r.contains(x));
                } else {
                    assert(toks[toks.len() - 1] == x);
                }
            }
        }
    }
}

/// The significant tokens of source bytes `b` have sorted starts.
pub proof fn lemma_stream_sorted(b: Seq<u8>, o: Options)
    requires
        b.len() <= u32::MAX,
    ensures
        sorted_starts(stream_of(b, o).toks),
{
    lemma_tokens_sorted(b, o, 0);
    lemma_significant_sorted(tokens_from(b, o, 0));
}

/// Where reading a datum at `pos` finds its first token: past discarded
/// data and unfinished tokens.
pub open spec fn landing(s: Stream, pos: int, depth: int) -> int
    decreases s.toks.len() - pos,
{
    if pos < 0 || pos >= s.toks.len() {
        pos
    } else {
        let t = s.toks[pos];
        match t.kind {
            TokenKind::Unterminated(_) => landing(s, pos + 1, depth),
            TokenKind::Prefix(Prefix::Discard) if !s.o.keep_discarded => {
                let k = read_datum(s, pos + 1, depth);
                if pos < k.pos <= s.toks.len() {
                    landing(s, k.pos, depth)
                } else {
                    pos
                }
            },
            _ => pos,
        }
    }
}

/// A datum read at a token that is neither a close, an unfinished token,
/// nor a discard starts where that token starts.
proof fn lemma_read_start(s: Stream, q: int, depth: int)
    requires
        0 <= q < s.toks.len(),
        !(s.toks[q].kind is Close),
        !(s.toks[q].kind is Unterminated),
        !(s.toks[q].kind == TokenKind::Prefix(Prefix::Discard) && !s.o.keep_discarded),
    ensures
        read_datum(s, q, depth).datum matches Some(d) ==> d.span().start == s.toks[q].span.start,
{
    let t = s.toks[q];
    match t.kind {
        TokenKind::Open(delim) => {
            let r = read_list(s, delim, t.span, true, q + 1, depth);
            if depth < MAX_DEPTH {
                let ir = read_items(s, delim, t.span, items_start(t.span.end), q + 1, depth + 1);
                let list = Shape::List {
                    delim,
                    items: ir.acc.items,
                    tail: ir.acc.tail,
                    dot: ir.acc.dot,
                    span: Span { start: t.span.start, end: ir.end },
                };
                assert(fold_shape(list, s.b, s.o).span() == list.span());
            }
            assert(read_datum(s, q, depth) == r);
        },
        TokenKind::HashOpen(delim) => {
            let r = read_hash(s, delim, t.span, q + 1, depth);
            assert(read_datum(s, q, depth) == r);
        },
        TokenKind::HashTag => {
            let r = read_tagged(s, t, q + 1, depth);
            assert(read_datum(s, q, depth) == r);
        },
        TokenKind::Prefix(p) => {
            let r = read_prefixed(s, p, t, q + 1, depth);
            assert(read_datum(s, q, depth) == r);
        },
        TokenKind::Label => {
            let r = read_label(s, t, q + 1, depth);
            assert(read_datum(s, q, depth) == r);
        },
        _ => {},
    }
}

/// Reading at `pos` and reading at its landing give the same datum; a datum
/// read starts where its landing token starts.
proof fn lemma_landing(s: Stream, pos: int, depth: int)
    requires
        0 <= pos,
    ensures
        read_datum(s, landing(s, pos, depth), depth).datum == read_datum(s, pos, depth).datum,
        read_datum(s, pos, depth).datum matches Some(d) ==> {
            let q = landing(s, pos, depth);
            &&& 0 <= q < s.toks.len()
            &&& !(s.toks[q].kind is Close)
            &&& d.span().start == s.toks[q].span.start
        },
    decreases s.toks.len() - pos,
{
    if pos < s.toks.len() {
        let t = s.toks[pos];
        match t.kind {
            TokenKind::Unterminated(_) => {
                lemma_landing(s, pos + 1, depth);
            },
            TokenKind::Prefix(Prefix::Discard) if !s.o.keep_discarded => {
                let k = read_datum(s, pos + 1, depth);
                if pos < k.pos <= s.toks.len() {
                    lemma_landing(s, k.pos, depth);
                }
            },
            _ => {
                if !(t.kind is Close) {
                    lemma_read_start(s, pos, depth);
                }
            },
        }
    }
}

/// Every top-level datum read from `p` on is a datum read at some position
/// from `p` on, at depth 0.
proof fn lemma_top_datum(s: Stream, p: int, i: int)
    requires
        0 <= p,
        0 <= i < read_top(s, p).data.len(),
    ensures
        exists|p2: int| p <= p2 < s.toks.len() && #[trigger] read_datum(s, p2, 0).datum == Some(read_top(s, p).data[i]),
    decreases s.toks.len() - p,
{
    if p < s.toks.len() {
        let t = s.toks[p];
        match t.kind {
            TokenKind::Close(_) => {
                lemma_top_datum(s, p + 1, i);
            },
            _ => {
                let d = read_datum(s, p, 0);
                let next = if d.datum is None && d.pos == p {
                    p + 1
                } else {
                    d.pos
                };
                if p < next <= s.toks.len() {
                    let r = read_top(s, next);
                    match d.datum {
                        Some(x) => {
                            if i == 0 {
                                assert(read_datum(s, p, 0).datum == Some(read_top(s, p).data[i]));
                            } else {
                                assert(read_top(s, p).data[i] == r.data[i - 1]);
                                lemma_top_datum(s, next, i - 1);
                            }
                        },
                        None => {
                            lemma_top_datum(s, next, i);
                        },
                    }
                }
            },
        }
    }
}

/// When every token before `r` starts before `start` and the token at `r`
/// (if any) does not, the first token at or after `start` from `i` is `r`.
pub proof fn lemma_first_at(toks: Seq<Token>, start: u32, i: int, r: int)
    requires
        0 <= i <= r <= toks.len(),
        forall|k: int| i <= k < r ==> #[trigger] toks[k].span.start < start,
        r < toks.len() ==> start <= toks[r].span.start,
    ensures
        first_at(toks, start, i) == r,
    decreases r - i,
{
    if i < r {
        lemma_first_at(toks, start, i + 1, r);
    }
}

/// Reading one form at the start of a top-level form that the reader read
/// from the same source reads that form again.
pub proof fn lemma_form_at_reads_parsed_form(b: Seq<u8>, o: Options, i: int)
    requires
        b.len() <= u32::MAX,
        0 <= i < read_top(stream_of(b, o), 0).data.len(),
    ensures
        ({
            let s = stream_of(b, o);
            let d = read_top(s, 0).data[i];
            read_form_at(s, first_at(s.toks, d.span().start, 0)).datum == Some(d)
        }),
{
    let s = stream_of(b, o);
    let d = read_top(s, 0).data[i];
    lemma_top_datum(s, 0, i);
    let p2 = choose|p2: int| 0 <= p2 < s.toks.len() && #[trigger] read_datum(s, p2, 0).datum == Some(d);
    lemma_landing(s, p2, 0);
    let q = landing(s, p2, 0);
    lemma_stream_sorted(b, o);
    assert forall|k: int| 0 <= k < q implies #[trigger] s.toks[k].span.start < d.span().start by {
        assert(s.toks[k].span.start < s.toks[q].span.start);
    }
    lemma_first_at(s.toks, d.span().start, 0, q);
}

/// Skipping a balanced region moves forward and stays within the tokens.
pub proof fn lemma_skip_progress(s: Stream, delim: Delim, pos: int, nesting: int, end: u32)
    requires
        0 <= pos <= s.toks.len(),
    ensures
        pos <= skip(s, delim, pos, nesting, end).pos <= s.toks.len(),
    decreases s.toks.len() - pos,
{
    if pos < s.toks.len() {
        let t = s.toks[pos];
        match t.kind {
            TokenKind::Close(_) => {
                if nesting - 1 != 0 {
                    lemma_skip_progress(s, delim, pos + 1, nesting - 1, t.span.end);
                }
            },
            TokenKind::Open(_) => lemma_skip_progress(s, delim, pos + 1, nesting + 1, t.span.end),
            TokenKind::HashOpen(_) => lemma_skip_progress(s, delim, pos + 1, nesting + 1, t.span.end),
            _ => lemma_skip_progress(s, delim, pos + 1, nesting, t.span.end),
        }
    }
}

/// Reading a datum only moves forward and stays within the tokens; a datum
/// read consumes at least one token. So the guarded steps of the reader
/// always take their reading branch, and reading never stalls.
pub proof fn lemma_read_progress(s: Stream, pos: int, depth: int)
    requires
        0 <= pos <= s.toks.len(),
    ensures
        pos <= read_datum(s, pos, depth).pos <= s.toks.len(),
        read_datum(s, pos, depth).datum is Some ==> pos < read_datum(s, pos, depth).pos,
    decreases s.toks.len() - pos, 0nat,
{
    if pos < s.toks.len() {
        let t = s.toks[pos];
        match t.kind {
            TokenKind::Close(_) => {},
            TokenKind::Unterminated(_) => lemma_read_progress(s, pos + 1, depth),
            TokenKind::Prefix(Prefix::Discard) if !s.o.keep_discarded => {
                lemma_read_progress(s, pos + 1, depth);
                let k = read_datum(s, pos + 1, depth);
                lemma_read_progress(s, k.pos, depth);
            },
            TokenKind::Open(delim) => {
                lemma_list_progress(s, delim, t.span, true, pos + 1, depth);
                assert(read_datum(s, pos, depth) == read_list(s, delim, t.span, true, pos + 1, depth));
            },
            TokenKind::HashOpen(delim) => {
                let inner_open = Span { start: (t.span.end - 1) as u32, end: t.span.end };
                lemma_list_progress(s, delim, inner_open, false, pos + 1, depth);
                assert(read_datum(s, pos, depth) == read_hash(s, delim, t.span, pos + 1, depth));
            },
            TokenKind::HashTag => {
                lemma_read_progress(s, pos + 1, depth);
                assert(read_datum(s, pos, depth) == read_tagged(s, t, pos + 1, depth));
            },
            TokenKind::Prefix(prefix) => {
                lemma_prefixed_progress(s, prefix, t, pos + 1, depth);
                assert(read_datum(s, pos, depth) == read_prefixed(s, prefix, t, pos + 1, depth));
            },
            TokenKind::Label => {
                lemma_read_progress(s, pos + 1, depth);
                assert(read_datum(s, pos, depth) == read_label(s, t, pos + 1, depth));
            },
            _ => {},
        }
    }
}

proof fn lemma_prefixed_progress(s: Stream, prefix: Prefix, t: Token, pos: int, depth: int)
    requires
        0 <= pos <= s.toks.len(),
    ensures
        pos <= read_prefixed(s, prefix, t, pos, depth).pos <= s.toks.len(),
    decreases s.toks.len() - pos, 1nat,
{
    let with_arg = match prefix {
        Prefix::Meta => true,
        Prefix::FeatureConditional { .. } => s.o.feature_conditional,
        _ => false,
    };
    if with_arg {
        lemma_read_progress(s, pos, depth);
    }
    let a = if with_arg {
        read_datum(s, pos, depth)
    } else {
        Read { datum: None, pos, diags: seq![] }
    };
    lemma_read_progress(s, a.pos, depth);
}

proof fn lemma_list_progress(s: Stream, delim: Delim, open: Span, fold: bool, pos: int, depth: int)
    requires
        0 <= pos <= s.toks.len(),
    ensures
        pos <= read_list(s, delim, open, fold, pos, depth).pos <= s.toks.len(),
        read_list(s, delim, open, fold, pos, depth).datum is Some,
    decreases s.toks.len() - pos, 3nat,
{
    if depth >= MAX_DEPTH {
        lemma_skip_progress(s, delim, pos, 1, open.end);
    } else {
        lemma_items_progress(s, delim, open, items_start(open.end), pos, depth + 1);
    }
}

proof fn lemma_items_progress(s: Stream, delim: Delim, open: Span, acc: Items, pos: int, depth: int)
    requires
        0 <= pos <= s.toks.len(),
    ensures
        pos <= read_items(s, delim, open, acc, pos, depth).pos <= s.toks.len(),
    decreases s.toks.len() - pos, 2nat,
{
    if pos < s.toks.len() {
        let t = s.toks[pos];
        if !(t.kind is Close) {
            if is_dot(s, t, acc.items.len() > 0) {
                lemma_dotted_progress(s, t, acc, pos + 1, depth);
                let st = dotted_step(s, t, acc, pos + 1, depth);
                lemma_items_progress(s, delim, open, st.acc, st.pos, depth);
            } else {
                lemma_item_progress(s, delim, open, acc, pos, depth);
                let st = item_step(s, delim, open, acc, pos, depth);
                if st.end is None {
                    lemma_items_progress(s, delim, open, st.acc, st.pos, depth);
                }
            }
        }
    }
}

proof fn lemma_dotted_progress(s: Stream, t: Token, acc: Items, pos: int, depth: int)
    requires
        0 <= pos <= s.toks.len(),
    ensures
        pos <= dotted_step(s, t, acc, pos, depth).pos <= s.toks.len(),
        dotted_step(s, t, acc, pos, depth).end is None,
    decreases s.toks.len() - pos, 1nat,
{
    lemma_read_progress(s, pos, depth);
}

proof fn lemma_item_progress(s: Stream, delim: Delim, open: Span, acc: Items, pos: int, depth: int)
    requires
        0 <= pos <= s.toks.len(),
    ensures
        pos <= item_step(s, delim, open, acc, pos, depth).pos <= s.toks.len(),
        item_step(s, delim, open, acc, pos, depth).end is None ==> pos < item_step(
            s,
            delim,
            open,
            acc,
            pos,
            depth,
        ).pos,
    decreases s.toks.len() - pos, 1nat,
{
    lemma_read_progress(s, pos, depth);
}

} // verus!
