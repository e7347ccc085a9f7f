#![verifier::loop_isolation(false)]

//! The reader: builds the [`Parsed`] datum tree on top of the lexer.
//!
//! Fault-tolerant with top-level resync: a malformed form never panics and
//! never loses the rest of the file.

use vstd::prelude::*;
use vstd::string::*;
use vstd::utf8::{encode_utf8, valid_utf8};

use crate::datum::{span_within, text_at, Datum, DatumKind, Delim, Notation, Prefix};
use crate::error::{ErrorKind, ParseError};
use crate::lexer::{token_shape, tiles, tokens_from, Lexer};
use crate::options::Options;
use crate::reading::{
    stream_of, first_at, first_lang, lemma_first_at, lang_of, significant, lang_name_bytes, strip_lang, trim_back, trim_front, ws3, ws_at, ws_before, dotted_step, fold_shape, fold_tail, item_step, leaf_of, mismatch, read_datum, read_form_at,
    read_hash, read_items, read_label, read_list, read_prefixed, read_tagged, read_top, skip, Items,
    Read, Stream,
};
use crate::shape::{
    diag_of, diags_of, lemma_diags_push, lemma_list_shape, lemma_shape_fixes_datum, same_datum, lemma_shapes_push, opt_box_shape, shape_of,
    shapes_of, Shape,
};
use crate::source::{
    at_boundary, count_newlines, lemma_ascii_next, lemma_wide_next, lemma_count_newlines_mono,
    lemma_count_newlines_bound, lemma_count_newlines_step, lemma_str_valid, line_of, slice,
};
use crate::span::Span;
use crate::token::{Token, TokenKind};

verus! {

broadcast use vstd::utf8::encode_utf8_valid_utf8;

/// The result of reading a source string. Borrows the source.
#[derive(Debug, PartialEq)]
pub struct Parsed<'a> {
    /// A leading dialect directive such as Racket's `#lang racket`, if any.
    /// Passive — captured, not acted on.
    pub lang_line: Option<&'a str>,
    /// Top-level forms, in source order.
    pub data: Vec<Datum<'a>>,
    /// Diagnostics from fault-tolerant recovery.
    pub errors: Vec<ParseError>,
}

/// One top-level form read at or after a byte offset; the result of
/// [`parse_form_at`]. Spans are absolute into the original source.
#[derive(Debug, PartialEq)]
pub struct FormAt<'a> {
    /// The form that was read.
    pub form: Datum<'a>,
    /// Diagnostics produced while reading just this form.
    pub errors: Vec<ParseError>,
    /// Byte offset just past the form (`form.span.end`).
    pub end: u32,
}

/// A diagnostic located in source bytes `b`: its span lies in the source and
/// its line is the 1-based line of its start.
pub open spec fn error_wf(e: ParseError, b: Seq<u8>) -> bool {
    &&& e.span.start <= e.span.end <= b.len()
    &&& e.line == line_of(b, e.span.start as int)
    &&& match e.kind {
        ErrorKind::MalformedToken { text } => encode_utf8(text@) == b.subrange(
            e.span.start as int,
            e.span.end as int,
        ),
        _ => true,
    }
}

/// Every datum of `data` is well-formed over `b`, in source order without
/// overlap.
#[verifier::opaque]
pub open spec fn data_wf(data: Seq<Datum>, b: Seq<u8>) -> bool {
    &&& forall|i: int| 0 <= i < data.len() ==> (#[trigger] data[i]).wf(b)
    &&& forall|i: int| 0 <= i < data.len() - 1 ==> (#[trigger] data[i]).span.end <= data[i + 1].span.start
}

/// Well-formed data are each well-formed.
pub proof fn reveal_data_wf(data: Seq<Datum>, b: Seq<u8>)
    requires
        data_wf(data, b),
    ensures
        forall|i: int| 0 <= i < data.len() ==> (#[trigger] data[i]).wf(b),
        forall|i: int| 0 <= i < data.len() - 1 ==> (#[trigger] data[i]).span.end <= data[i + 1].span.start,
{
    reveal(data_wf);
}

/// Two sequences of data well-formed over the same source with the same
/// shapes are the same data, datum for datum (up to the identity of their
/// string slices, whose text is the same). So [`read_all`] returns the data
/// that [`parse`] returns: both are well-formed over the source and have
/// the shapes [`read_top`] gives.
pub proof fn lemma_shapes_fix_data(d1: Seq<Datum>, d2: Seq<Datum>, src: Seq<u8>)
    requires
        data_wf(d1, src),
        data_wf(d2, src),
        shapes_of(d1) == shapes_of(d2),
    ensures
        d1.len() == d2.len(),
        forall|i: int| 0 <= i < d1.len() ==> same_datum(#[trigger] d1[i], d2[i]),
{
    reveal(data_wf);
    assert(shapes_of(d1).len() == d1.len() && shapes_of(d2).len() == d2.len());
    assert forall|i: int| 0 <= i < d1.len() implies same_datum(#[trigger] d1[i], d2[i]) by {
        assert(shapes_of(d1)[i] == shape_of(d1[i]));
        assert(shapes_of(d2)[i] == shape_of(d2[i]));
        lemma_shape_fixes_datum(d1[i], d2[i], src);
    }
}

/// Appending a well-formed datum that starts after the last one keeps the
/// data well-formed.
proof fn lemma_data_push(data: Seq<Datum>, d: Datum, b: Seq<u8>)
    requires
        data_wf(data, b),
        d.wf(b),
        data.len() > 0 ==> data[data.len() - 1].span.end <= d.span.start,
    ensures
        data_wf(data.push(d), b),
{
    reveal(data_wf);
    let s = data.push(d);
    assert forall|i: int| 0 <= i < s.len() implies (#[trigger] s[i]).wf(b) by {
        if i < data.len() {
            assert(s[i] == data[i]);
        }
    }
    assert forall|i: int| 0 <= i < s.len() - 1 implies (#[trigger] s[i]).span.end <= s[i + 1].span.start by {
        assert(s[i] == data[i]);
        if i + 1 < data.len() {
            assert(s[i + 1] == data[i + 1]);
        }
    }
}

/// Whether `text` is a piece of the source bytes `b`.
pub open spec fn is_text_of(text: &str, b: Seq<u8>) -> bool {
    exists|i: int, j: int| 0 <= i <= j <= b.len() && #[trigger] text_at(text, b, i, j)
}

/// Every diagnostic of `errors` is located in `b`.
#[verifier::opaque]
pub open spec fn errors_wf(errors: Seq<ParseError>, b: Seq<u8>) -> bool {
    forall|i: int| 0 <= i < errors.len() ==> error_wf(#[trigger] errors[i], b)
}

/// The maximum list/hash nesting depth the reader builds before it stops
/// descending, reports [`ErrorKind::DepthLimitExceeded`] once, and skips the
/// too-deep subtree.
pub const MAX_DEPTH: usize = 200;

/// Parse `source` under `options` into a datum tree. Never panics — including
/// on pathologically nested input: nesting deeper than [`MAX_DEPTH`] stops
/// descending, reports [`ErrorKind::DepthLimitExceeded`] once, and skips the
/// too-deep subtree, keeping prior siblings.
///
/// Every datum returned is well-formed over the source ([`Datum::wf`]): its
/// span lies in the source, its line is the line of its start, every leaf is
/// the verbatim source text of its span, and children nest within parents in
/// source order. The data and diagnostics are exactly those that
/// [`read_top`] describes for the lexer's significant tokens, and the lang
/// line is the name the first `#lang` line declares ([`lang_of`]).
pub fn parse<'a>(source: &'a str, options: &Options) -> (p: Parsed<'a>)
    requires
        source.spec_bytes().len() < u32::MAX,
    ensures
        data_wf(p.data@, source.spec_bytes()),
        forall|i: int| 0 <= i < p.data.len() ==> atoms_classified(#[trigger] p.data@[i], *options),
        errors_wf(p.errors@, source.spec_bytes()),
        match p.lang_line {
            Some(l) => is_text_of(l, source.spec_bytes()),
            None => true,
        },
        shapes_of(p.data@) == read_top(stream_of(source.spec_bytes(), *options), 0).data,
        diags_of(p.errors@) == read_top(stream_of(source.spec_bytes(), *options), 0).diags,
        match p.lang_line {
            Some(l) => lang_of(source.spec_bytes(), *options) == Some(l.spec_bytes()),
            None => lang_of(source.spec_bytes(), *options) is None,
        },
{
    let (tokens, lang_line) = significant_tokens(source, options, true);
    let mut parser = Parser::new(source, tokens, options);
    let data = parser.parse_top_level();
    proof {
        assert(diags_of(Seq::<ParseError>::empty()) =~= seq![]);
        assert(seq![] + read_top(stream_of(source.spec_bytes(), *options), 0).diags
            =~= read_top(stream_of(source.spec_bytes(), *options), 0).diags);
    }
    Parsed { lang_line, data, errors: parser.errors }
}

/// Convenience: the top-level data, discarding diagnostics.
pub fn read_all<'a>(source: &'a str, options: &Options) -> (data: Vec<Datum<'a>>)
    requires
        source.spec_bytes().len() < u32::MAX,
    ensures
        data_wf(data@, source.spec_bytes()),
        forall|i: int| 0 <= i < data.len() ==> atoms_classified(#[trigger] data@[i], *options),
        shapes_of(data@) == read_top(stream_of(source.spec_bytes(), *options), 0).data,
{
    parse(source, options).data
}

/// Read exactly one top-level form at or after byte offset `start`.
///
/// Returns `None` if there is no further form (only whitespace/comments, or
/// `start` is past end of input). Spans are absolute into `source`. `start`
/// should sit at or before a top-level form boundary; an offset inside a form
/// reads the next inner datum as if it were top-level. A leading `#lang` line
/// is skipped.
pub fn parse_form_at<'a>(source: &'a str, start: u32, options: &Options) -> (r: Option<FormAt<'a>>)
    requires
        source.spec_bytes().len() < u32::MAX,
    ensures
        match r {
            Some(f) => {
                &&& f.form.wf(source.spec_bytes())
                &&& atoms_classified(f.form, *options)
                &&& start <= f.form.span.start
                &&& f.end == f.form.span.end
                &&& errors_wf(f.errors@, source.spec_bytes())
            },
            None => true,
        },
        ({
            let s = stream_of(source.spec_bytes(), *options);
            let rd = read_form_at(s, first_at(s.toks, start, 0));
            &&& r is Some <==> rd.datum is Some
            &&& r matches Some(f) ==> {
                &&& rd.datum == Some(shape_of(f.form))
                &&& diags_of(f.errors@) == rd.diags
            }
        }),
{
    let (tokens, _lang) = significant_tokens(source, options, false);
    let mut parser = Parser::new(source, tokens, options);
    parser.pos = parser.first_at_or_after(start);
    let ghost s0 = parser.stream();
    let ghost total = read_form_at(s0, parser.pos as int);
    proof {
        assert(diags_of(parser.errors@) =~= seq![]);
        assert(seq![] + total.diags =~= total.diags);
    }
    loop
        invariant
            parser.wf(),
            parser.source == source,
            *parser.opts == *options,
            parser.pos <= parser.tokens.len(),
            parser.pos < parser.tokens.len() ==> start <= parser.tokens@[parser.pos as int].span.start,
            parser.depth == 0,
            s0 == parser.stream(),
            s0 == stream_of(source.spec_bytes(), *options),
            total == read_form_at(s0, first_at(s0.toks, start, 0)),
            ({
                let cur = read_form_at(s0, parser.pos as int);
                &&& cur.datum == total.datum
                &&& total.diags == diags_of(parser.errors@) + cur.diags
            }),
        decreases parser.tokens.len() - parser.pos,
    {
        let t = match parser.peek() {
            Some(t) => t,
            None => {
                return None;
            },
        };
        let ghost p0 = parser.pos as int;
        proof {
            lemma_sig_token(parser.bytes(), parser.tokens@, parser.pos as int);
        }
        match t.kind {
            TokenKind::Close(found) => {
                let ghost e0 = diags_of(parser.errors@);
                parser.advance();
                parser.error(t.span, ErrorKind::UnexpectedDelimiter { found });
                proof {
                    let next = read_form_at(s0, parser.pos as int);
                    assert(total.diags =~= diags_of(parser.errors@) + next.diags);
                    if parser.pos < parser.tokens.len() {
                        lemma_sig_ordered(
                            parser.bytes(),
                            parser.tokens@,
                            parser.pos - 1,
                            parser.pos as int,
                        );
                        lemma_sig_token(parser.bytes(), parser.tokens@, parser.pos - 1);
                    }
                }
            },
            _ => {
                let ghost e0 = diags_of(parser.errors@);
                match parser.parse_datum() {
                    Some(form) => {
                        let end = form.span.end;
                        proof {
                            assert(total.diags =~= diags_of(parser.errors@));
                        }
                        return Some(FormAt { form, errors: parser.errors, end });
                    },
                    None => {
                        return None;
                    },
                }
            },
        }
    }
}

/// Lex `source` and drop insignificant tokens (whitespace, comments, the lang
/// line). When `capture_lang` is set, the first `#lang` line's name is
/// returned, trimmed.
fn significant_tokens<'a>(source: &'a str, options: &Options, capture_lang: bool) -> (r: (
    Vec<Token>,
    Option<&'a str>,
))
    requires
        source.spec_bytes().len() < u32::MAX,
    ensures
        sig_wf(source.spec_bytes(), r.0@),
        match r.1 {
            Some(l) => is_text_of(l, source.spec_bytes()),
            None => true,
        },
        r.0@ == significant(tokens_from(source.spec_bytes(), *options, 0)),
        capture_lang ==> match r.1 {
            Some(l) => lang_of(source.spec_bytes(), *options) == Some(l.spec_bytes()),
            None => lang_of(source.spec_bytes(), *options) is None,
        },
        !capture_lang ==> r.1 is None,
{
    let ghost b = source.spec_bytes();
    let all = Lexer::new(source, options).tokens();
    assert(all@.take(0) =~= seq![]);
    let mut out: Vec<Token> = Vec::new();
    let mut lang: Option<&'a str> = None;
    let mut i: usize = 0;
    assert(sig_wf(b, out@)) by {
        reveal(sig_wf);
    }
    while i < all.len()
        invariant
            tiles(b, all@),
            b == source.spec_bytes(),
            b.len() < u32::MAX,
            0 <= i <= all.len(),
            sig_wf(b, out@),
            out.len() > 0 ==> (i > 0 && out@[out.len() - 1].span.end <= all@[i - 1].span.end),
            i > 0 ==> all@[i - 1].span.end <= (if i < all.len() {
                all@[i as int].span.start as int
            } else {
                b.len() as int
            }),
            match lang {
                Some(l) => is_text_of(l, b),
                None => true,
            },
            all@ == tokens_from(b, *options, 0),
            out@ == significant(all@.take(i as int)),
            capture_lang ==> match lang {
                Some(l) => lang_of(b, *options) == Some(l.spec_bytes()),
                None => first_lang(all@, 0) == first_lang(all@, i as int),
            },
            !capture_lang ==> lang is None,
        decreases all.len() - i,
    {
        let t = all[i];
        proof {
            assert(crate::lexer::token_at(b, all@[i as int], all@[i as int].span.start as int));
            if i + 1 < all.len() {
                assert(all@[i as int].span.end == all@[i + 1].span.start);
            }
        }
        assert(all@.take(i + 1).drop_last() =~= all@.take(i as int));
        match t.kind {
            TokenKind::LangLine => {
                if capture_lang && lang.is_none() {
                    let name = lang_name(source, t.span.start as usize, t.span.end as usize);
                    lang = Some(name);
                }
            },
            TokenKind::Whitespace | TokenKind::LineComment | TokenKind::BlockComment => {},
            _ => {
                proof {
                    lemma_sig_push(b, out@, t);
                }
                out.push(t);
            },
        }
        i = i + 1;
    }
    proof {
        assert(all@.take(i as int) =~= all@);
    }
    (out, lang)
}

/// The name of a `#lang NAME` line spanning `[s, e)`: the text after any
/// number of leading `#lang`, without white space (Unicode White_Space) at
/// either end.
fn lang_name<'a>(source: &'a str, s: usize, e: usize) -> (r: &'a str)
    requires
        s < e <= source.spec_bytes().len(),
        at_boundary(source.spec_bytes(), s as int),
        at_boundary(source.spec_bytes(), e as int),
    ensures
        is_text_of(r, source.spec_bytes()),
        r.spec_bytes() == lang_name_bytes(source.spec_bytes(), s as int, e as int),
{
    let b = source.as_bytes();
    let ghost bb = source.spec_bytes();
    proof {
        lemma_str_valid(source);
    }
    let mut i = s;
    while e - i >= 5 && b[i] == 35 && b[i + 1] == 108 && b[i + 2] == 97 && b[i + 3] == 110 && b[i
        + 4] == 103
        invariant
            s <= i <= e,
            b@ == bb,
            valid_utf8(bb),
            e <= bb.len(),
            at_boundary(bb, i as int),
            strip_lang(bb, s as int, e as int) == strip_lang(bb, i as int, e as int),
        decreases e - i,
    {
        proof {
            lemma_ascii_next(bb, i as int);
            lemma_ascii_next(bb, i + 1);
            lemma_ascii_next(bb, i + 2);
            lemma_ascii_next(bb, i + 3);
            lemma_ascii_next(bb, i + 4);
        }
        i = i + 5;
    }
    let ghost i0 = i as int;
    loop
        invariant
            i0 <= i <= e,
            b@ == bb,
            valid_utf8(bb),
            e <= bb.len(),
            at_boundary(bb, i as int),
            trim_front(bb, i0, e as int) == trim_front(bb, i as int, e as int),
        decreases e - i,
    {
        let k = ws_len_at(b, i, e);
        if k == 0 {
            break;
        }
        proof {
            if k == 1 {
                lemma_ascii_next(bb, i as int);
            } else {
                lemma_wide_next(bb, i as int, k as int);
            }
        }
        i = i + k;
    }
    let mut j = e;
    loop
        invariant
            i <= j <= e,
            b@ == bb,
            e <= bb.len(),
            at_boundary(bb, j as int),
            trim_back(bb, i as int, e as int) == trim_back(bb, i as int, j as int),
        decreases j - i,
    {
        let k = ws_len_before(b, i, j);
        if k == 0 {
            break;
        }
        j = j - k;
    }
    let r = slice(source, i, j);
    assert(text_at(r, source.spec_bytes(), i as int, j as int));
    r
}

/// The length of the white-space character at `i`, ending by `e`; 0 when
/// there is none.
fn ws_len_at(b: &[u8], i: usize, e: usize) -> (k: usize)
    requires
        i <= e <= b@.len(),
    ensures
        k == ws_at(b@, i as int, e as int),
{
    if i < e && is_ascii_space(b[i]) {
        1
    } else if e - i >= 2 && b[i] == 0xC2 && (b[i + 1] == 0x85 || b[i + 1] == 0xA0) {
        2
    } else if e - i >= 3 && ws3_bytes(b[i], b[i + 1], b[i + 2]) {
        3
    } else {
        0
    }
}

/// The length of the white-space character ending at `j`, starting at or
/// after `i`; 0 when there is none.
fn ws_len_before(b: &[u8], i: usize, j: usize) -> (k: usize)
    requires
        i <= j <= b@.len(),
    ensures
        k == ws_before(b@, i as int, j as int),
{
    if i < j && is_ascii_space(b[j - 1]) {
        1
    } else if j - i >= 2 && b[j - 2] == 0xC2 && (b[j - 1] == 0x85 || b[j - 1] == 0xA0) {
        2
    } else if j - i >= 3 && ws3_bytes(b[j - 3], b[j - 2], b[j - 1]) {
        3
    } else {
        0
    }
}

/// Whether three bytes encode a three-byte white-space character.
fn ws3_bytes(x: u8, y: u8, z: u8) -> (r: bool)
    ensures
        r == ws3(x, y, z),
{
    (x == 0xE1 && y == 0x9A && z == 0x80) || (x == 0xE2 && y == 0x80 && ((0x80 <= z && z <= 0x8A)
        || z == 0xA8 || z == 0xA9 || z == 0xAF)) || (x == 0xE2 && y == 0x81 && z == 0x9F) || (x
        == 0xE3 && y == 0x80 && z == 0x80)
}

/// Whether `c` is an ASCII white-space byte.
fn is_ascii_space(c: u8) -> (r: bool)
    ensures
        r == (c == 9 || c == 10 || c == 11 || c == 12 || c == 13 || c == 32),
{
    c == 9 || c == 10 || c == 11 || c == 12 || c == 13 || c == 32
}

/// The significant tokens of `b`: in order, non-empty, within `b`, with both
/// ends on character boundaries and their lexical shape.
#[verifier::opaque]
pub open spec fn sig_wf(b: Seq<u8>, toks: Seq<Token>) -> bool {
    &&& forall|i: int| 0 <= i < toks.len() ==> token_ok(b, #[trigger] toks[i])
    &&& forall|i: int| 0 <= i < toks.len() - 1 ==> (#[trigger] toks[i]).span.end <= toks[i + 1].span.start
}

/// `ls` holds the byte offset of the start of every line of `b`: offset 0,
/// then one past each `\n`, in order.
#[verifier::opaque]
pub open spec fn line_starts_wf(b: Seq<u8>, ls: Seq<u32>) -> bool {
    &&& ls.len() == count_newlines(b) + 1
    &&& ls[0] == 0
    &&& forall|k: int|
        1 <= k < ls.len() ==> {
            &&& 1 <= #[trigger] ls[k] <= b.len()
            &&& b[ls[k] - 1] == 10u8
            &&& count_newlines(b.take(ls[k] as int)) == k
        }
}

/// The offsets of the starts of the lines of `source`.
fn line_starts(source: &str) -> (ls: Vec<u32>)
    requires
        source.spec_bytes().len() < u32::MAX,
    ensures
        line_starts_wf(source.spec_bytes(), ls@),
{
    let b = source.as_bytes();
    let mut ls: Vec<u32> = Vec::new();
    ls.push(0);
    let mut i: usize = 0;
    while i < b.len()
        invariant
            b@ == source.spec_bytes(),
            b.len() < u32::MAX,
            0 <= i <= b.len(),
            ls.len() == count_newlines(b@.take(i as int)) + 1,
            ls@[0] == 0,
            forall|k: int|
                1 <= k < ls.len() ==> {
                    &&& 1 <= #[trigger] ls@[k] <= i
                    &&& b@[ls@[k] - 1] == 10u8
                    &&& count_newlines(b@.take(ls@[k] as int)) == k
                },
        decreases b.len() - i,
    {
        proof {
            lemma_count_newlines_step(b@, i as int);
        }
        if b[i] == 10 {
            ls.push((i + 1) as u32);
        }
        i = i + 1;
    }
    assert(b@.take(b.len() as int) =~= b@);
    proof {
        reveal(line_starts_wf);
    }
    ls
}

/// There is one line start per newline, plus one; and no more newlines than
/// bytes.
proof fn lemma_line_starts_len(b: Seq<u8>, ls: Seq<u32>)
    requires
        line_starts_wf(b, ls),
    ensures
        ls.len() == count_newlines(b) + 1,
        count_newlines(b) <= b.len(),
{
    reveal(line_starts_wf);
    lemma_count_newlines_bound(b);
}

/// A line start is at or before `off` exactly when at least its index many
/// newlines precede `off`.
proof fn lemma_line_starts(b: Seq<u8>, ls: Seq<u32>, off: int, k: int)
    requires
        line_starts_wf(b, ls),
        0 <= off <= b.len(),
        0 <= k < ls.len(),
    ensures
        (ls[k] <= off) <==> (k <= count_newlines(b.take(off))),
{
    reveal(line_starts_wf);
    if k > 0 {
        let s = ls[k] as int;
        if s <= off {
            lemma_count_newlines_mono(b, s, off);
        } else {
            lemma_count_newlines_mono(b, off, s - 1);
            lemma_count_newlines_step(b, s - 1);
        }
    }
}

struct Parser<'a, 'o> {
    source: &'a str,
    tokens: Vec<Token>,
    pos: usize,
    line_starts: Vec<u32>,
    errors: Vec<ParseError>,
    depth: usize,
    opts: &'o Options,
}

/// The shape of an optional datum.
pub open spec fn opt_shape(d: Option<Datum>) -> Option<Shape> {
    match d {
        Some(x) => Some(shape_of(x)),
        None => None,
    }
}

/// The end of the tokens consumed before position `pos`.
spec fn consumed_end(toks: Seq<Token>, pos: int) -> int {
    if pos <= 0 {
        0
    } else {
        toks[pos - 1].span.end as int
    }
}

/// The start of the token at position `pos`, or the end of input.
spec fn next_start(toks: Seq<Token>, pos: int, len: int) -> int {
    if pos < toks.len() {
        toks[pos].span.start as int
    } else {
        len
    }
}

impl<'a, 'o> Parser<'a, 'o> {
    spec fn bytes(&self) -> Seq<u8> {
        self.source.spec_bytes()
    }

    /// The reader's input: the source, its significant tokens and options.
    spec fn stream(&self) -> Stream {
        Stream { b: self.bytes(), toks: self.tokens@, o: *self.opts }
    }

    /// `self` is where reading from `old` ends by the read `r`, having made
    /// the datum `d`.
    spec fn follows(&self, old: &Self, r: Read, d: Option<Datum>) -> bool {
        &&& self.pos == r.pos
        &&& diags_of(self.errors@) == diags_of(old.errors@) + r.diags
        &&& r.datum == opt_shape(d)
    }

    spec fn wf(&self) -> bool {
        &&& self.bytes().len() < u32::MAX
        &&& sig_wf(self.bytes(), self.tokens@)
        &&& self.pos <= self.tokens.len()
        &&& line_starts_wf(self.bytes(), self.line_starts@)
        &&& errors_wf(self.errors@, self.bytes())
        &&& self.depth <= MAX_DEPTH
        &&& self.tokens.len() <= self.bytes().len()
    }

    /// The parser only moves forward over a fixed token stream.
    spec fn same_stream(&self, other: &Self) -> bool {
        &&& self.source == other.source
        &&& self.tokens@ == other.tokens@
        &&& self.line_starts@ == other.line_starts@
        &&& self.opts == other.opts
        &&& self.depth == other.depth
        &&& self.pos >= other.pos
    }

    fn new(source: &'a str, tokens: Vec<Token>, options: &'o Options) -> (p: Self)
        requires
            source.spec_bytes().len() < u32::MAX,
            sig_wf(source.spec_bytes(), tokens@),
        ensures
            p.wf(),
            p.source == source,
            p.tokens@ == tokens@,
            p.pos == 0,
            p.errors@.len() == 0,
            p.depth == 0,
            *p.opts == *options,
    {
        proof {
            lemma_sig_len(source.spec_bytes(), tokens@);
            reveal(errors_wf);
        }
        Parser {
            source,
            tokens,
            pos: 0,
            line_starts: line_starts(source),
            errors: Vec::new(),
            depth: 0,
            opts: options,
        }
    }

    /// The first token position whose start is at or after `start`.
    fn first_at_or_after(&self, start: u32) -> (r: usize)
        requires
            self.wf(),
        ensures
            r <= self.tokens.len(),
            r < self.tokens.len() ==> start <= self.tokens@[r as int].span.start,
            r == first_at(self.tokens@, start, 0),
    {
        let ghost toks = self.tokens@;
        let mut lo: usize = 0;
        let mut hi: usize = self.tokens.len();
        while lo < hi
            invariant
                0 <= lo <= hi <= self.tokens.len(),
                toks == self.tokens@,
                sig_wf(self.bytes(), toks),
                forall|k: int| 0 <= k < lo ==> #[trigger] toks[k].span.start < start,
                hi < self.tokens.len() ==> start <= self.tokens@[hi as int].span.start,
            decreases hi - lo,
        {
            let mid = lo + (hi - lo) / 2;
            if self.tokens[mid].span.start < start {
                proof {
                    assert forall|k: int| 0 <= k <= mid implies #[trigger] toks[k].span.start < start by {
                        if k < mid {
                            lemma_sig_ordered(self.bytes(), toks, k, mid as int);
                            lemma_sig_token(self.bytes(), toks, k);
                        }
                    }
                }
                lo = mid + 1;
            } else {
                hi = mid;
            }
        }
        proof {
            lemma_first_at(toks, start, 0, hi as int);
        }
        hi
    }

    fn peek(&self) -> (t: Option<Token>)
        requires
            self.wf(),
        ensures
            self.pos < self.tokens.len() ==> t == Some(self.tokens@[self.pos as int]),
            self.pos >= self.tokens.len() ==> t.is_none(),
    {
        if self.pos < self.tokens.len() {
            Some(self.tokens[self.pos])
        } else {
            None
        }
    }

    fn advance(&mut self) -> (t: Option<Token>)
        requires
            old(self).wf(),
        ensures
            final(self).wf(),
            final(self).same_stream(old(self)),
            final(self).errors@ == old(self).errors@,
            old(self).pos < old(self).tokens.len() ==> t == Some(old(self).tokens@[old(self).pos as int])
                && final(self).pos == old(self).pos + 1,
            old(self).pos >= old(self).tokens.len() ==> t.is_none() && final(self).pos == old(self).pos,
    {
        if self.pos < self.tokens.len() {
            let t = self.tokens[self.pos];
            self.pos = self.pos + 1;
            Some(t)
        } else {
            None
        }
    }

    fn text(&self, s: usize, e: usize) -> (r: &'a str)
        requires
            self.wf(),
            s <= e <= self.bytes().len(),
            at_boundary(self.bytes(), s as int),
            at_boundary(self.bytes(), e as int),
        ensures
            r.spec_bytes() == self.bytes().subrange(s as int, e as int),
    {
        slice(self.source, s, e)
    }

    /// The 1-based line of byte offset `offset`: the number of line starts at
    /// or before it.
    fn line_of(&self, offset: u32) -> (line: u32)
        requires
            self.wf(),
            offset <= self.bytes().len(),
        ensures
            line == line_of(self.bytes(), offset as int),
    {
        let ghost b = self.bytes();
        let ls = &self.line_starts;
        proof {
            lemma_line_starts_len(b, ls@);
        }
        let mut lo: usize = 0;
        let mut hi: usize = ls.len();
        while lo < hi
            invariant
                0 <= lo <= hi <= ls.len(),
                forall|k: int| 0 <= k < lo ==> ls@[k] <= offset,
                forall|k: int| hi <= k < ls.len() ==> ls@[k] > offset,
            decreases hi - lo,
        {
            let mid = lo + (hi - lo) / 2;
            if ls[mid] <= offset {
                proof {
                    assert forall|k: int| 0 <= k <= mid implies ls@[k] <= offset by {
                        lemma_line_starts(b, ls@, offset as int, k);
                        lemma_line_starts(b, ls@, offset as int, mid as int);
                    }
                }
                lo = mid + 1;
            } else {
                proof {
                    assert forall|k: int| mid <= k < ls.len() implies ls@[k] > offset by {
                        lemma_line_starts(b, ls@, offset as int, k);
                        lemma_line_starts(b, ls@, offset as int, mid as int);
                    }
                }
                hi = mid;
            }
        }
        proof {
            let c = count_newlines(b.take(offset as int));
            lemma_count_newlines_mono(b, offset as int, b.len() as int);
            assert(b.take(b.len() as int) =~= b);
            lemma_line_starts(b, ls@, offset as int, c as int);
            if c + 1 < ls.len() {
                lemma_line_starts(b, ls@, offset as int, c as int + 1);
            }
        }
        lo as u32
    }

    fn error(&mut self, span: Span, kind: ErrorKind)
        requires
            old(self).wf(),
            span.start <= span.end <= old(self).bytes().len(),
            match kind {
                ErrorKind::MalformedToken { text } => encode_utf8(text@) == old(self).bytes().subrange(
                    span.start as int,
                    span.end as int,
                ),
                _ => true,
            },
        ensures
            final(self).wf(),
            final(self).same_stream(old(self)),
            final(self).pos == old(self).pos,
            diags_of(final(self).errors@) == diags_of(old(self).errors@).push(
                crate::reading::diag(span, crate::shape::fault_of(kind)),
            ),
    {
        let line = self.line_of(span.start);
        let ghost old_errors = self.errors@;
        let ghost e = ParseError { span, line, kind };
        self.errors.push(ParseError { span, line, kind });
        proof {
            lemma_diags_push(old_errors, e);
            reveal(errors_wf);
            assert(errors_wf(old_errors, self.bytes()));
            assert forall|i: int| 0 <= i < self.errors@.len() implies error_wf(
                #[trigger] self.errors@[i],
                self.bytes(),
            ) by {
                if i < old_errors.len() {
                    assert(self.errors@[i] == old_errors[i]);
                }
            }
        }
    }
}


/// A token of `b`: non-empty, within `b`, both ends on character
/// boundaries, with its lexical shape.
pub open spec fn token_ok(b: Seq<u8>, t: Token) -> bool {
    &&& t.span.start < t.span.end <= b.len()
    &&& at_boundary(b, t.span.start as int)
    &&& at_boundary(b, t.span.end as int)
    &&& token_shape(b, t.kind, t.span.start as int, t.span.end as int)
}

/// A significant stream extended by a later token is still one.
proof fn lemma_sig_push(b: Seq<u8>, toks: Seq<Token>, t: Token)
    requires
        sig_wf(b, toks),
        token_ok(b, t),
        toks.len() > 0 ==> toks[toks.len() - 1].span.end <= t.span.start,
    ensures
        sig_wf(b, toks.push(t)),
{
    reveal(sig_wf);
    let s = toks.push(t);
    assert forall|i: int| 0 <= i < s.len() implies token_ok(b, #[trigger] s[i]) by {
        if i < toks.len() {
            assert(s[i] == toks[i]);
        }
    }
    assert forall|i: int| 0 <= i < s.len() - 1 implies (#[trigger] s[i]).span.end <= s[i + 1].span.start by {
        assert(s[i] == toks[i]);
        if i + 1 < toks.len() {
            assert(s[i + 1] == toks[i + 1]);
        }
    }
}

/// The facts a significant stream gives of its `i`-th token.
proof fn lemma_sig_token(b: Seq<u8>, toks: Seq<Token>, i: int)
    requires
        sig_wf(b, toks),
        0 <= i < toks.len(),
    ensures
        token_ok(b, toks[i]),
{
    reveal(sig_wf);
}

/// Tokens of a significant stream end before any later token starts.
proof fn lemma_sig_ordered(b: Seq<u8>, toks: Seq<Token>, i: int, j: int)
    requires
        sig_wf(b, toks),
        0 <= i < j < toks.len(),
    ensures
        toks[i].span.end <= toks[j].span.start,
    decreases j - i,
{
    reveal(sig_wf);
    if j > i + 1 {
        lemma_sig_ordered(b, toks, i, j - 1);
        assert(toks[j - 1].span.start < toks[j - 1].span.end);
        assert(toks[j - 1].span.end <= toks[j].span.start);
    }
}

/// The `i`-th significant token starts at byte `i` or later.
proof fn lemma_sig_start(b: Seq<u8>, toks: Seq<Token>, i: int)
    requires
        sig_wf(b, toks),
        0 <= i < toks.len(),
    ensures
        i <= toks[i].span.start,
    decreases i,
{
    reveal(sig_wf);
    if i > 0 {
        lemma_sig_start(b, toks, i - 1);
        assert(toks[i - 1].span.start < toks[i - 1].span.end);
        assert(toks[i - 1].span.end <= toks[i].span.start);
    }
}

/// There are no more significant tokens than source bytes.
proof fn lemma_sig_len(b: Seq<u8>, toks: Seq<Token>)
    requires
        sig_wf(b, toks),
    ensures
        toks.len() <= b.len(),
{
    reveal(sig_wf);
    if toks.len() > 0 {
        lemma_sig_start(b, toks, toks.len() - 1);
        assert(toks[toks.len() - 1].span.end <= b.len());
    }
}

/// Consumption only moves forward, and what has been consumed ends no later
/// than what comes next.
proof fn lemma_stream_order(b: Seq<u8>, toks: Seq<Token>, p: int, q: int)
    requires
        sig_wf(b, toks),
        0 <= p <= q <= toks.len(),
    ensures
        consumed_end(toks, p) <= consumed_end(toks, q) <= b.len(),
        consumed_end(toks, p) <= next_start(toks, p, b.len() as int),
        next_start(toks, p, b.len() as int) <= next_start(toks, q, b.len() as int) <= b.len(),
        p < q ==> next_start(toks, p, b.len() as int) < consumed_end(toks, q),
        p < q ==> next_start(toks, p, b.len() as int) == toks[p].span.start,
{
    reveal(sig_wf);
    if p > 0 {
        assert(toks[p - 1].span.start < toks[p - 1].span.end);
        if p < toks.len() {
            lemma_sig_ordered(b, toks, p - 1, p);
        }
        if p < q {
            lemma_sig_ordered(b, toks, p - 1, q - 1);
        }
    }
    if p < q {
        assert(toks[p].span.start < toks[p].span.end);
        if p < q - 1 {
            lemma_sig_ordered(b, toks, p, q - 1);
        }
        assert(toks[q - 1].span.start < toks[q - 1].span.end);
        if q < toks.len() {
            lemma_sig_ordered(b, toks, p, q);
        }
    }
    if q > 0 {
        assert(toks[q - 1].span.end <= b.len());
    }
    if q < toks.len() {
        assert(toks[q].span.end <= b.len());
    }
}

/// Whether a close delimiter closes an open one. A set `#{ ... }` is closed
/// by a curly `}`.
pub open spec fn spec_close_matches(open: Delim, close: Delim) -> bool {
    match open {
        Delim::SetBrace => close is Curly,
        Delim::Round => close is Round,
        Delim::Square => close is Square,
        Delim::Curly => close is Curly,
    }
}

fn close_matches(open: Delim, close: Delim) -> (r: bool)
    ensures
        r == spec_close_matches(open, close),
{
    match (open, close) {
        (Delim::SetBrace, Delim::Curly) => true,
        (Delim::Round, Delim::Round) => true,
        (Delim::Square, Delim::Square) => true,
        (Delim::Curly, Delim::Curly) => true,
        _ => false,
    }
}

impl<'a, 'o> Parser<'a, 'o> {
    /// `d` was read from the tokens consumed between `old` and `self`.
    spec fn read(&self, old: &Self, d: Datum<'a>) -> bool {
        &&& d.wf(self.bytes())
        &&& atoms_classified(d, *self.opts)
        &&& next_start(old.tokens@, old.pos as int, self.bytes().len() as int) <= d.span.start
        &&& d.span.end <= consumed_end(self.tokens@, self.pos as int)
        &&& self.pos > old.pos
    }

    fn parse_top_level(&mut self) -> (data: Vec<Datum<'a>>)
        requires
            old(self).wf(),
            old(self).depth == 0,
        ensures
            final(self).wf(),
            final(self).source == old(self).source,
            data_wf(data@, old(self).bytes()),
            forall|i: int| 0 <= i < data.len() ==> atoms_classified(#[trigger] data@[i], *old(self).opts),
            shapes_of(data@) == read_top(old(self).stream(), old(self).pos as int).data,
            diags_of(final(self).errors@) == diags_of(old(self).errors@) + read_top(
                old(self).stream(),
                old(self).pos as int,
            ).diags,
    {
        let mut data: Vec<Datum<'a>> = Vec::new();
        let ghost b = self.bytes();
        let ghost s0 = self.stream();
        let ghost total = read_top(s0, self.pos as int);
        let ghost e0 = diags_of(self.errors@);
        assert(data_wf(data@, b)) by {
            reveal(data_wf);
        }
        assert(shapes_of(data@) + total.data =~= total.data);
        while self.pos < self.tokens.len()
            invariant
                self.wf(),
                self.same_stream(old(self)),
                b == self.bytes(),
                s0 == self.stream(),
                total == read_top(s0, old(self).pos as int),
                e0 == diags_of(old(self).errors@),
                shapes_of(data@) + read_top(s0, self.pos as int).data == total.data,
                e0 + total.diags == diags_of(self.errors@) + read_top(s0, self.pos as int).diags,
                data_wf(data@, b),
                forall|i: int| 0 <= i < data.len() ==> atoms_classified(#[trigger] data@[i], *self.opts),
                data.len() > 0 ==> data@[data.len() - 1].span.end <= consumed_end(
                    self.tokens@,
                    self.pos as int,
                ),
            decreases self.tokens.len() - self.pos,
        {
            let t = self.tokens[self.pos];
            proof {
                lemma_sig_token(self.bytes(), self.tokens@, self.pos as int);
            }
            let ghost p0 = self.pos as int;
            let ghost eb = diags_of(self.errors@);
            let ghost cur = read_top(s0, p0);
            match t.kind {
                TokenKind::Close(found) => {
                    self.advance();
                    self.error(t.span, ErrorKind::UnexpectedDelimiter { found });
                    proof {
                        lemma_stream_order(b, self.tokens@, self.pos - 1, self.pos as int);
                        let next = read_top(s0, self.pos as int);
                        assert(e0 + total.diags =~= diags_of(self.errors@) + next.diags);
                    }
                },
                _ => {
                    let before = self.pos;
                    match self.parse_datum() {
                        Some(d) => {
                            proof {
                                lemma_stream_order(b, self.tokens@, before as int, self.pos as int);
                                lemma_data_push(data@, d, b);
                                lemma_shapes_push(data@, d);
                            }
                            let ghost old_data = data@;
                            data.push(d);
                            proof {
                                let next = read_top(s0, self.pos as int);
                                assert(shapes_of(data@) + next.data =~= shapes_of(old_data) + cur.data);
                                assert(e0 + total.diags =~= diags_of(self.errors@) + next.diags);
                            }
                        },
                        None => {
                            if self.pos == before {
                                self.advance();
                            }
                            proof {
                                lemma_stream_order(b, self.tokens@, before as int, self.pos as int);
                                let next = read_top(s0, self.pos as int);
                                assert(e0 + total.diags =~= diags_of(self.errors@) + next.diags);
                            }
                        },
                    }
                },
            }
        }
        proof {
            assert(shapes_of(data@) =~= shapes_of(data@) + read_top(s0, self.pos as int).data);
            assert(diags_of(self.errors@) =~= diags_of(self.errors@) + read_top(s0, self.pos as int).diags);
        }
        data
    }

    /// Parse one datum, skipping discarded data and reporting malformed
    /// tokens. Returns `None` at the end of input or when the next token is a
    /// closing delimiter (left for the caller).
    fn parse_datum(&mut self) -> (r: Option<Datum<'a>>)
        requires
            old(self).wf(),
        ensures
            final(self).wf(),
            final(self).same_stream(old(self)),
            match r {
                Some(d) => final(self).read(old(self), d),
                None => true,
            },
            final(self).follows(
                old(self),
                read_datum(old(self).stream(), old(self).pos as int, old(self).depth as int),
                r,
            ),
        decreases old(self).tokens.len() - old(self).pos, 0nat,
    {
        let ghost b = self.bytes();
        let ghost s0 = self.stream();
        let ghost total = read_datum(s0, self.pos as int, self.depth as int);
        loop
            invariant
                self.wf(),
                self.same_stream(old(self)),
                b == self.bytes(),
                s0 == self.stream(),
                total == read_datum(s0, old(self).pos as int, old(self).depth as int),
                ({
                    let cur = read_datum(s0, self.pos as int, self.depth as int);
                    &&& cur.datum == total.datum
                    &&& cur.pos == total.pos
                    &&& diags_of(old(self).errors@) + total.diags == diags_of(self.errors@) + cur.diags
                }),
            decreases self.tokens.len() - self.pos,
        {
            if self.pos >= self.tokens.len() {
                assert(diags_of(self.errors@) + seq![] =~= diags_of(self.errors@));
                return None;
            }
            let t = self.tokens[self.pos];
            proof {
                lemma_sig_token(self.bytes(), self.tokens@, self.pos as int);
            }
            let ghost p0 = self.pos as int;
            let ghost e0 = diags_of(self.errors@);
            match t.kind {
                TokenKind::Close(_) => {
                    assert(diags_of(self.errors@) + seq![] =~= diags_of(self.errors@));
                    return None;
                },
                TokenKind::Prefix(Prefix::Discard) if !self.opts.keep_discarded => {
                    self.advance();
                    let ghost k = read_datum(s0, p0 + 1, self.depth as int);
                    let skipped = self.parse_datum();
                    let ghost e1 = diags_of(self.errors@);
                    if skipped.is_none() {
                        self.error(t.span, ErrorKind::DanglingPrefix { prefix: Prefix::Discard });
                    }
                    proof {
                        let e = if k.datum is None {
                            seq![crate::reading::diag(t.span, crate::shape::Fault::DanglingPrefix { prefix: Prefix::Discard })]
                        } else {
                            seq![]
                        };
                        let r = read_datum(s0, k.pos, self.depth as int);
                        assert(diags_of(self.errors@) =~= e0 + k.diags + e);
                        assert(e0 + (k.diags + e + r.diags) =~= diags_of(self.errors@) + r.diags);
                    }
                },
                TokenKind::Unterminated(_) => {
                    self.advance();
                    let text = self.text(t.span.start as usize, t.span.end as usize);
                    self.error(t.span, ErrorKind::MalformedToken { text: text.to_owned() });
                    proof {
                        let r = read_datum(s0, p0 + 1, self.depth as int);
                        assert(e0 + (seq![crate::reading::diag(t.span, crate::shape::Fault::MalformedToken)] + r.diags)
                            =~= diags_of(self.errors@) + r.diags);
                    }
                },
                _ => {
                    break;
                },
            }
        }
        let t = self.tokens[self.pos];
        proof {
            lemma_sig_token(self.bytes(), self.tokens@, self.pos as int);
        }
        self.advance();
        proof {
            lemma_stream_order(b, self.tokens@, old(self).pos as int, self.pos - 1);
            lemma_stream_order(b, self.tokens@, self.pos - 1, self.pos as int);
        }
        let line = self.line_of(t.span.start);
        let ghost e0 = diags_of(self.errors@);
        let r = match t.kind {
            TokenKind::Open(delim) => Some(self.finish_list(delim, t.span, true)),
            TokenKind::HashOpen(delim) => Some(self.finish_hash(delim, t.span)),
            TokenKind::HashTag => Some(self.read_tagged(t, line)),
            TokenKind::Prefix(prefix) => self.read_prefixed(prefix, t, line),
            TokenKind::Label => self.read_label(t, line),
            _ => self.read_leaf(t, line),
        };
        r
    }

    /// A datum made of one token: a string, character, boolean, atom or
    /// label reference.
    fn read_leaf(&self, t: Token, line: u32) -> (r: Option<Datum<'a>>)
        requires
            self.wf(),
            token_ok(self.bytes(), t),
            line == line_of(self.bytes(), t.span.start as int),
        ensures
            match r {
                Some(d) => d.wf(self.bytes()) && d.span == t.span && atoms_classified(d, *self.opts),
                None => true,
            },
            opt_shape(r) == leaf_of(self.stream(), t),
    {
        let ghost b = self.bytes();
        proof {
            lemma_str_valid(self.source);
        }
        let s = t.span.start as usize;
        let e = t.span.end as usize;
        match t.kind {
            TokenKind::Str => Some(Datum { kind: DatumKind::Str(self.text(s, e)), span: t.span, line }),
            TokenKind::Char => Some(
                Datum { kind: DatumKind::Char(self.text(s, e)), span: t.span, line },
            ),
            TokenKind::Bool(v) => Some(Datum { kind: DatumKind::Bool(v), span: t.span, line }),
            TokenKind::Atom => {
                let text = self.text(s, e);
                Some(Datum { kind: classify_atom(text, self.opts), span: t.span, line })
            },
            TokenKind::LabelRef => {
                proof {
                    lemma_ascii_next(b, s as int);
                }
                let id = self.text(s + 1, e - 1);
                Some(Datum { kind: DatumKind::LabelRef { id }, span: t.span, line })
            },
            _ => None,
        }
    }

    /// `#tag <form>`: the tag applies to the following datum, if any.
    fn read_tagged(&mut self, t: Token, line: u32) -> (d: Datum<'a>)
        requires
            old(self).wf(),
            token_ok(old(self).bytes(), t),
            t.kind is HashTag,
            t.span.end <= consumed_end(old(self).tokens@, old(self).pos as int),
            line == line_of(old(self).bytes(), t.span.start as int),
        ensures
            final(self).wf(),
            final(self).same_stream(old(self)),
            d.wf(final(self).bytes()),
            atoms_classified(d, *final(self).opts),
            d.span.start == t.span.start,
            d.span.end <= consumed_end(final(self).tokens@, final(self).pos as int),
            final(self).follows(
                old(self),
                read_tagged(old(self).stream(), t, old(self).pos as int, old(self).depth as int),
                Some(d),
            ),
        decreases old(self).tokens.len() - old(self).pos, 1nat,
    {
        let ghost b = self.bytes();
        proof {
            lemma_str_valid(self.source);
            lemma_ascii_next(b, t.span.start as int);
            lemma_stream_order(b, self.tokens@, self.pos as int, self.pos as int);
        }
        let tag = self.text(t.span.start as usize + 1, t.span.end as usize);
        let (inner, end) = match self.parse_datum() {
            Some(d) => {
                let end = d.span.end;
                (Some(Box::new(d)), end)
            },
            None => {
                self.error(t.span, ErrorKind::DanglingTag);
                (None, t.span.end)
            },
        };
        proof {
            lemma_stream_order(b, self.tokens@, old(self).pos as int, self.pos as int);
        }
        Datum { kind: DatumKind::HashLiteral { tag, inner }, span: Span::new(t.span.start, end), line }
    }

    /// A prefixed datum: the prefix, then (for `^meta` and `#+feature`) an
    /// auxiliary datum, then the datum the prefix applies to.
    #[verifier::spinoff_prover]
    #[verifier::rlimit(30)]
    fn read_prefixed(&mut self, prefix: Prefix, t: Token, line: u32) -> (r: Option<Datum<'a>>)
        requires
            old(self).wf(),
            token_ok(old(self).bytes(), t),
            t.span.end <= consumed_end(old(self).tokens@, old(self).pos as int),
            line == line_of(old(self).bytes(), t.span.start as int),
        ensures
            final(self).wf(),
            final(self).same_stream(old(self)),
            match r {
                Some(d) => {
                    &&& d.wf(final(self).bytes())
                    &&& atoms_classified(d, *final(self).opts)
                    &&& d.span.start == t.span.start
                    &&& d.span.end <= consumed_end(final(self).tokens@, final(self).pos as int)
                },
                None => true,
            },
            final(self).follows(
                old(self),
                read_prefixed(old(self).stream(), prefix, t, old(self).pos as int, old(self).depth as int),
                r,
            ),
        decreases old(self).tokens.len() - old(self).pos, 1nat,
    {
        let ghost b = self.bytes();
        proof {
            lemma_stream_order(b, self.tokens@, self.pos as int, self.pos as int);
        }
        let ghost e0 = diags_of(self.errors@);
        let with_arg = match prefix {
            Prefix::Meta => true,
            Prefix::FeatureConditional { .. } => self.opts.feature_conditional,
            _ => false,
        };
        let ghost p1 = self.pos;
        let arg = if with_arg {
            match self.parse_datum() {
                Some(a) => Some(Box::new(a)),
                None => None,
            }
        } else {
            None
        };
        let ghost p2 = self.pos;
        proof {
            lemma_stream_order(b, self.tokens@, p1 as int, p2 as int);
        }
        let ghost e2 = diags_of(self.errors@);
        let inner = match self.parse_datum() {
            Some(d) => d,
            None => {
                let ghost e3 = diags_of(self.errors@);
                self.error(t.span, ErrorKind::DanglingPrefix { prefix });
                proof {
                    let a = if with_arg {
                        read_datum(self.stream(), p1 as int, self.depth as int)
                    } else {
                        Read { datum: None, pos: p1 as int, diags: seq![] }
                    };
                    let i = read_datum(self.stream(), p2 as int, self.depth as int);
                    assert(e2 =~= e0 + a.diags);
                    assert(e3 =~= e2 + i.diags);
                    assert(diags_of(self.errors@) =~= e0 + (a.diags + i.diags).push(
                        crate::reading::diag(t.span, crate::shape::Fault::DanglingPrefix { prefix }),
                    ));
                }
                return None;
            },
        };
        proof {
            lemma_stream_order(b, self.tokens@, p2 as int, self.pos as int);
            let a = if with_arg {
                read_datum(self.stream(), p1 as int, self.depth as int)
            } else {
                Read { datum: None, pos: p1 as int, diags: seq![] }
            };
            let i = read_datum(self.stream(), p2 as int, self.depth as int);
            assert(e2 =~= e0 + a.diags);
            assert(diags_of(self.errors@) =~= e0 + (a.diags + i.diags));
        }
        let span = Span::new(t.span.start, inner.span.end);
        Some(
            Datum {
                kind: DatumKind::Prefixed {
                    prefix,
                    notation: Notation::Shorthand,
                    inner: Box::new(inner),
                    arg,
                },
                span,
                line,
            },
        )
    }

    /// A datum label definition `#n=<datum>`.
    fn read_label(&mut self, t: Token, line: u32) -> (r: Option<Datum<'a>>)
        requires
            old(self).wf(),
            token_ok(old(self).bytes(), t),
            t.kind is Label,
            t.span.end <= consumed_end(old(self).tokens@, old(self).pos as int),
            line == line_of(old(self).bytes(), t.span.start as int),
        ensures
            final(self).wf(),
            final(self).same_stream(old(self)),
            match r {
                Some(d) => {
                    &&& d.wf(final(self).bytes())
                    &&& atoms_classified(d, *final(self).opts)
                    &&& d.span.start == t.span.start
                    &&& d.span.end <= consumed_end(final(self).tokens@, final(self).pos as int)
                },
                None => true,
            },
            final(self).follows(
                old(self),
                read_label(old(self).stream(), t, old(self).pos as int, old(self).depth as int),
                r,
            ),
        decreases old(self).tokens.len() - old(self).pos, 1nat,
    {
        let ghost b = self.bytes();
        proof {
            lemma_str_valid(self.source);
            lemma_ascii_next(b, t.span.start as int);
            lemma_stream_order(b, self.tokens@, self.pos as int, self.pos as int);
        }
        let id = self.text(t.span.start as usize + 1, t.span.end as usize - 1);
        let inner = match self.parse_datum() {
            Some(d) => d,
            None => {
                self.error(t.span, ErrorKind::DanglingLabel);
                return None;
            },
        };
        proof {
            lemma_stream_order(b, self.tokens@, old(self).pos as int, self.pos as int);
        }
        let span = Span::new(t.span.start, inner.span.end);
        Some(Datum { kind: DatumKind::Label { id, inner: Box::new(inner) }, span, line })
    }

    /// Read list items until the matching close, then fold a longhand quote
    /// form when `fold` is set and the dialect enables it. `open` is the
    /// already-consumed opening delimiter. `fold` is `false` for a hash
    /// literal's inner list: its contents are data.
    #[verifier::spinoff_prover]
    #[verifier::rlimit(50)]
    fn finish_list(&mut self, delim: Delim, open: Span, fold: bool) -> (d: Datum<'a>)
        requires
            old(self).wf(),
            open.start < open.end,
            open.end <= consumed_end(old(self).tokens@, old(self).pos as int),
            at_boundary(old(self).bytes(), open.start as int),
            at_boundary(old(self).bytes(), open.end as int),
        ensures
            final(self).wf(),
            final(self).same_stream(old(self)),
            d.wf(final(self).bytes()),
            atoms_classified(d, *final(self).opts),
            d.span.start == open.start,
            open.end <= d.span.end <= consumed_end(final(self).tokens@, final(self).pos as int),
            final(self).follows(
                old(self),
                read_list(old(self).stream(), delim, open, fold, old(self).pos as int, old(self).depth as int),
                Some(d),
            ),
        decreases old(self).tokens.len() - old(self).pos, 3nat,
    {
        let ghost b = self.bytes();
        let ghost s0 = self.stream();
        let ghost e0 = diags_of(self.errors@);
        proof {
            lemma_stream_order(b, self.tokens@, self.pos as int, self.pos as int);
        }
        let line = self.line_of(open.start);
        if self.depth >= MAX_DEPTH {
            // Too deep: report it, skip the balanced region, keep going.
            self.error(open, ErrorKind::DepthLimitExceeded);
            let ghost e1 = diags_of(self.errors@);
            let end = self.skip_balanced(delim, open.end);
            proof {
                lemma_stream_order(b, self.tokens@, self.pos as int, self.pos as int);
                let k = skip(s0, delim, old(self).pos as int, 1, open.end);
                assert(diags_of(self.errors@) =~= e0 + (seq![
                    crate::reading::diag(open, crate::shape::Fault::DepthLimitExceeded),
                ] + k.diags));
            }
            let list = ListBuilder::new(open.end, Ghost(b), Ghost(open.start as int));
            assert(list.classified(*self.opts));
            return list.into_list(delim, Span::new(open.start, end), line, Ghost(b));
        }
        self.depth = self.depth + 1;
        let mut list = ListBuilder::new(open.end, Ghost(b), Ghost(open.start as int));
        let end = self.fill_list(&mut list, delim, open);
        self.depth = self.depth - 1;
        proof {
            lemma_stream_order(b, self.tokens@, self.pos as int, self.pos as int);
        }
        let datum = list.into_list(delim, Span::new(open.start, end), line, Ghost(b));
        if fold && self.opts.fold_longhand {
            fold_longhand(datum, self.opts)
        } else {
            datum
        }
    }

    /// Read a list's items into `list` up to the matching close, which may
    /// not match, or to the end of input, where the list is unclosed.
    /// Returns the end of the list's span.
    #[verifier::spinoff_prover]
    #[verifier::rlimit(80)]
    fn fill_list(&mut self, list: &mut ListBuilder<'a>, delim: Delim, open: Span) -> (end: u32)
        requires
            old(self).wf(),
            open.start < open.end,
            old(list).wf(old(self).bytes(), open.start as int),
            old(list).classified(*old(self).opts),
            open.end <= old(list).last_end <= consumed_end(old(self).tokens@, old(self).pos as int),
        ensures
            final(self).wf(),
            final(self).same_stream(old(self)),
            final(list).wf(final(self).bytes(), open.start as int),
            final(list).classified(*final(self).opts),
            open.end <= final(list).last_end <= end <= consumed_end(final(self).tokens@, final(self).pos as int),
            at_boundary(final(self).bytes(), end as int),
            ({
                let r = read_items(
                    old(self).stream(),
                    delim,
                    open,
                    old(list).view(),
                    old(self).pos as int,
                    old(self).depth as int,
                );
                &&& final(list).view() == r.acc
                &&& end == r.end
                &&& final(self).pos == r.pos
                &&& diags_of(final(self).errors@) == diags_of(old(self).errors@) + r.diags
            }),
        decreases old(self).tokens.len() - old(self).pos, 2nat,
    {
        let ghost b = self.bytes();
        let ghost s0 = self.stream();
        let ghost e0 = diags_of(self.errors@);
        let ghost total = read_items(s0, delim, open, list.view(), self.pos as int, self.depth as int);
        let mut end: u32 = open.end;
        let mut done = false;
        assert(e0 + total.diags =~= diags_of(self.errors@) + total.diags);
        while !done
            invariant
                self.wf(),
                b == self.bytes(),
                s0 == self.stream(),
                e0 == diags_of(old(self).errors@),
                total == read_items(s0, delim, open, old(list).view(), old(self).pos as int, old(self).depth as int),
                !done ==> ({
                    let cur = read_items(s0, delim, open, list.view(), self.pos as int, self.depth as int);
                    &&& cur.acc == total.acc
                    &&& cur.end == total.end
                    &&& cur.pos == total.pos
                    &&& e0 + total.diags == diags_of(self.errors@) + cur.diags
                }),
                done ==> {
                    &&& list.view() == total.acc
                    &&& end == total.end
                    &&& self.pos == total.pos
                    &&& diags_of(self.errors@) == e0 + total.diags
                },
                self.same_stream(old(self)),
                list.wf(b, open.start as int),
                list.classified(*self.opts),
                open.end <= list.last_end <= consumed_end(self.tokens@, self.pos as int),
                done ==> list.last_end <= end <= consumed_end(self.tokens@, self.pos as int),
                done ==> at_boundary(b, end as int),
            decreases self.tokens.len() - self.pos, if done { 0int } else { 1int },
        {
            let ghost before = self.pos;
            let ghost eb = diags_of(self.errors@);
            let ghost cur = read_items(s0, delim, open, list.view(), self.pos as int, self.depth as int);
            if self.pos >= self.tokens.len() {
                self.error(open, ErrorKind::UnclosedList { open: delim });
                end = list.last_end;
                done = true;
                assert(e0 + total.diags =~= diags_of(self.errors@));
            } else {
                let t = self.tokens[self.pos];
                proof {
                    lemma_sig_token(self.bytes(), self.tokens@, self.pos as int);
                }
                if let TokenKind::Close(close_delim) = t.kind {
                    end = self.close_list(delim, t, close_delim);
                    proof {
                        lemma_stream_order(b, self.tokens@, before as int, self.pos as int);
                        assert(e0 + total.diags =~= diags_of(self.errors@));
                    }
                    done = true;
                } else {
                    let is_dot = match t.kind {
                        TokenKind::Atom => self.opts.dotted_pairs && list.items.len() > 0 && t.span.end
                            - t.span.start == 1 && self.source.as_bytes()[t.span.start as usize] == 46,
                        _ => false,
                    };
                    assert(is_dot == crate::reading::is_dot(s0, t, list.view().items.len() > 0));
                    if is_dot {
                        self.read_dotted_tail(list, t, Ghost(open.start as int));
                        proof {
                            let next = read_items(s0, delim, open, list.view(), self.pos as int, self.depth as int);
                            let st = dotted_step(s0, t, cur.acc, before + 1, self.depth as int);
                            assert(e0 + total.diags =~= diags_of(self.errors@) + next.diags);
                        }
                    } else {
                        done = self.read_item(list, delim, open, &mut end);
                        proof {
                            if done {
                                assert(e0 + total.diags =~= diags_of(self.errors@));
                            } else {
                                let next = read_items(s0, delim, open, list.view(), self.pos as int, self.depth as int);
                                assert(e0 + total.diags =~= diags_of(self.errors@) + next.diags);
                            }
                        }
                    }
                }
            }
        }
        end
    }

    /// Read the dot `t` and the dotted tail after it. A second dot after a
    /// tail is an infix dot in dialects that have them and malformed
    /// elsewhere; either way the prior tail folds back into the items so no
    /// datum is lost.
    fn read_dotted_tail(&mut self, list: &mut ListBuilder<'a>, t: Token, Ghost(start): Ghost<int>)
        requires
            old(self).wf(),
            old(self).pos < old(self).tokens.len(),
            t == old(self).tokens@[old(self).pos as int],
            t.span.end == t.span.start + 1,
            old(self).bytes()[t.span.start as int] == 46u8,
            old(list).wf(old(self).bytes(), start),
            old(list).classified(*old(self).opts),
            start <= old(list).last_end <= consumed_end(old(self).tokens@, old(self).pos as int),
        ensures
            final(self).wf(),
            final(self).same_stream(old(self)),
            final(self).pos > old(self).pos,
            final(list).wf(final(self).bytes(), start),
            final(list).classified(*final(self).opts),
            old(list).last_end <= final(list).last_end <= consumed_end(
                final(self).tokens@,
                final(self).pos as int,
            ),
            ({
                let st = dotted_step(
                    old(self).stream(),
                    t,
                    old(list).view(),
                    old(self).pos + 1,
                    old(self).depth as int,
                );
                &&& final(list).view() == st.acc
                &&& final(self).pos == st.pos
                &&& diags_of(final(self).errors@) == diags_of(old(self).errors@) + st.diags
            }),
        decreases old(self).tokens.len() - old(self).pos, 1nat,
    {
        let ghost b = self.bytes();
        let ghost e0 = diags_of(self.errors@);
        proof {
            lemma_sig_token(b, self.tokens@, self.pos as int);
        }
        let ghost before = self.pos;
        self.advance();
        proof {
            lemma_stream_order(b, self.tokens@, before as int, self.pos as int);
        }
        if list.fold_tail(Ghost(b), Ghost(start)) && !self.opts.dotted_pairs_infix {
            self.error(t.span, ErrorKind::ItemAfterDottedTail);
        }
        let ghost p1 = self.pos;
        let ghost e1 = diags_of(self.errors@);
        match self.parse_datum() {
            Some(d) => {
                proof {
                    lemma_stream_order(b, self.tokens@, p1 as int, self.pos as int);
                }
                list.set_tail(d, t.span, Ghost(b), Ghost(start));
                proof {
                    let r = read_datum(self.stream(), p1 as int, self.depth as int);
                    assert(diags_of(self.errors@) =~= e0 + ((e1.subrange(e0.len() as int, e1.len() as int)) + r.diags));
                }
            },
            None => {
                let ghost e2 = diags_of(self.errors@);
                self.error(t.span, ErrorKind::DanglingDot);
                proof {
                    lemma_stream_order(b, self.tokens@, p1 as int, self.pos as int);
                    let r = read_datum(self.stream(), p1 as int, self.depth as int);
                    assert(diags_of(self.errors@) =~= e0 + ((e1.subrange(e0.len() as int, e1.len() as int)) + r.diags).push(
                        crate::reading::diag(t.span, crate::shape::Fault::DanglingDot),
                    ));
                }
            },
        }
    }

    /// Read the next list item. A plain item after a dotted tail folds the
    /// tail back into the items; it is malformed unless the dialect has
    /// infix dots. When no item can be read, a stray close closes the list
    /// (setting `end`), or the list is unclosed at the end of input; `true`
    /// then.
    fn read_item(&mut self, list: &mut ListBuilder<'a>, delim: Delim, open: Span, end: &mut u32) -> (done: bool)
        requires
            old(self).wf(),
            old(self).pos < old(self).tokens.len(),
            !(old(self).tokens@[old(self).pos as int].kind is Close),
            open.start < open.end,
            old(list).wf(old(self).bytes(), open.start as int),
            old(list).classified(*old(self).opts),
            open.end <= old(list).last_end <= consumed_end(old(self).tokens@, old(self).pos as int),
        ensures
            final(self).wf(),
            final(self).same_stream(old(self)),
            final(list).wf(final(self).bytes(), open.start as int),
            final(list).classified(*final(self).opts),
            old(list).last_end <= final(list).last_end <= consumed_end(
                final(self).tokens@,
                final(self).pos as int,
            ),
            !done ==> final(self).pos > old(self).pos,
            done ==> final(list).last_end <= *final(end) <= consumed_end(
                final(self).tokens@,
                final(self).pos as int,
            ),
            done ==> at_boundary(final(self).bytes(), *final(end) as int),
            ({
                let st = item_step(
                    old(self).stream(),
                    delim,
                    open,
                    old(list).view(),
                    old(self).pos as int,
                    old(self).depth as int,
                );
                &&& final(list).view() == st.acc
                &&& final(self).pos == st.pos
                &&& diags_of(final(self).errors@) == diags_of(old(self).errors@) + st.diags
                &&& done == st.end is Some
                &&& done ==> *final(end) == st.end->0
            }),
        decreases old(self).tokens.len() - old(self).pos, 1nat,
    {
        let ghost b = self.bytes();
        let ghost e0 = diags_of(self.errors@);
        let ghost before = self.pos;
        match self.parse_datum() {
            Some(d) => {
                proof {
                    lemma_stream_order(b, self.tokens@, before as int, self.pos as int);
                }
                let span = d.span;
                let ghost e1 = diags_of(self.errors@);
                if list.fold_tail(Ghost(b), Ghost(open.start as int)) && !self.opts.dotted_pairs_infix {
                    self.error(span, ErrorKind::ItemAfterDottedTail);
                }
                let ghost e2 = diags_of(self.errors@);
                proof {
                    assert(shape_of(d).span() == d.span);
                }
                list.push_item(d, Ghost(b), Ghost(open.start as int));
                proof {
                    assert(e2 =~= e0 + (e1.subrange(e0.len() as int, e1.len() as int) + e2.subrange(e1.len() as int, e2.len() as int)));
                }
                false
            },
            None => {
                proof {
                    lemma_stream_order(b, self.tokens@, before as int, self.pos as int);
                }
                if self.pos < self.tokens.len() {
                    let c = self.tokens[self.pos];
                    if let TokenKind::Close(close_delim) = c.kind {
                        let ghost p1 = self.pos;
                        let ghost e1 = diags_of(self.errors@);
                        *end = self.close_list(delim, c, close_delim);
                        proof {
                            lemma_stream_order(b, self.tokens@, p1 as int, self.pos as int);
                            assert(diags_of(self.errors@) =~= e0 + (e1.subrange(e0.len() as int, e1.len() as int)
                                + mismatch(delim, c, close_delim)));
                        }
                        return true;
                    }
                }
                let ghost e1 = diags_of(self.errors@);
                self.error(open, ErrorKind::UnclosedList { open: delim });
                *end = list.last_end;
                proof {
                    assert(diags_of(self.errors@) =~= e0 + (e1.subrange(e0.len() as int, e1.len() as int)).push(
                        crate::reading::diag(open, crate::shape::Fault::UnclosedList { open: delim }),
                    ));
                }
                true
            },
        }
    }

    /// Consume the closing delimiter `t` of a list opened with `delim`,
    /// reporting a mismatch. Returns the end of the list.
    fn close_list(&mut self, delim: Delim, t: Token, close_delim: Delim) -> (end: u32)
        requires
            old(self).wf(),
            old(self).pos < old(self).tokens.len(),
            t == old(self).tokens@[old(self).pos as int],
            t.kind == TokenKind::Close(close_delim),
        ensures
            final(self).wf(),
            final(self).same_stream(old(self)),
            final(self).pos == old(self).pos + 1,
            end == t.span.end,
            at_boundary(final(self).bytes(), end as int),
            diags_of(final(self).errors@) == diags_of(old(self).errors@) + mismatch(delim, t, close_delim),
    {
        proof {
            lemma_sig_token(self.bytes(), self.tokens@, self.pos as int);
        }
        self.advance();
        if !close_matches(delim, close_delim) {
            self.error(t.span, ErrorKind::MismatchedDelimiter { expected: delim, found: close_delim });
        } else {
            assert(diags_of(self.errors@) =~= diags_of(old(self).errors@) + mismatch(delim, t, close_delim));
        }
        t.span.end
    }

    /// Skip a balanced delimiter region without building a tree: nested opens
    /// are counted so that the matching close ends the region. Returns the end
    /// of the last token consumed (`from` if none).
    fn skip_balanced(&mut self, delim: Delim, from: u32) -> (end: u32)
        requires
            old(self).wf(),
            from <= consumed_end(old(self).tokens@, old(self).pos as int),
            at_boundary(old(self).bytes(), from as int),
        ensures
            final(self).wf(),
            final(self).same_stream(old(self)),
            from <= end <= consumed_end(final(self).tokens@, final(self).pos as int),
            at_boundary(final(self).bytes(), end as int),
            ({
                let k = skip(old(self).stream(), delim, old(self).pos as int, 1, from);
                &&& final(self).pos == k.pos
                &&& end == k.end
                &&& diags_of(final(self).errors@) == diags_of(old(self).errors@) + k.diags
            }),
    {
        let ghost b = self.bytes();
        let ghost s0 = self.stream();
        let ghost total = skip(s0, delim, self.pos as int, 1, from);
        let mut nesting: usize = 1;
        let mut end = from;
        assert(diags_of(self.errors@) =~= diags_of(self.errors@) + seq![]);
        while self.pos < self.tokens.len()
            invariant
                self.wf(),
                b == self.bytes(),
                s0 == self.stream(),
                self.same_stream(old(self)),
                skip(s0, delim, self.pos as int, nesting as int, end) == total,
                diags_of(self.errors@) == diags_of(old(self).errors@),
                from <= end <= consumed_end(self.tokens@, self.pos as int),
                at_boundary(b, end as int),
                1 <= nesting <= self.pos - old(self).pos + 1,
                self.tokens.len() <= b.len() < u32::MAX,
            decreases self.tokens.len() - self.pos,
        {
            let t = self.tokens[self.pos];
            proof {
                lemma_sig_token(self.bytes(), self.tokens@, self.pos as int);
            }
            let ghost before = self.pos;
            self.advance();
            proof {
                lemma_stream_order(b, self.tokens@, before as int, self.pos as int);
            }
            end = t.span.end;
            match t.kind {
                TokenKind::Open(_) | TokenKind::HashOpen(_) => {
                    nesting = nesting + 1;
                },
                TokenKind::Close(close_delim) => {
                    nesting = nesting - 1;
                    if nesting == 0 {
                        if !close_matches(delim, close_delim) {
                            self.error(
                                t.span,
                                ErrorKind::MismatchedDelimiter { expected: delim, found: close_delim },
                            );
                        }
                        assert(diags_of(self.errors@) =~= diags_of(old(self).errors@) + total.diags);
                        break;
                    }
                },
                _ => {},
            }
        }
        end
    }

    /// Read a `#(`-style hash literal: items until the matching close,
    /// wrapped as a [`DatumKind::HashLiteral`] whose tag is the text between
    /// `#` and the opening delimiter.
    fn finish_hash(&mut self, delim: Delim, open: Span) -> (d: Datum<'a>)
        requires
            old(self).wf(),
            token_ok(old(self).bytes(), Token { kind: TokenKind::HashOpen(delim), span: open }),
            open.end <= consumed_end(old(self).tokens@, old(self).pos as int),
        ensures
            final(self).wf(),
            final(self).same_stream(old(self)),
            d.wf(final(self).bytes()),
            atoms_classified(d, *final(self).opts),
            d.span.start == open.start,
            open.end <= d.span.end <= consumed_end(final(self).tokens@, final(self).pos as int),
            final(self).follows(
                old(self),
                read_hash(old(self).stream(), delim, open, old(self).pos as int, old(self).depth as int),
                Some(d),
            ),
        decreases old(self).tokens.len() - old(self).pos, 4nat,
    {
        let ghost b = self.bytes();
        proof {
            lemma_str_valid(self.source);
            lemma_ascii_next(b, open.start as int);
            assert(b[open.end - 1] < 0x80);
        }
        let line = self.line_of(open.start);
        let tag = self.text(open.start as usize + 1, open.end as usize - 1);
        // The inner list is data: `#(quote x)` is a two-element vector.
        let inner = self.finish_list(delim, Span::new(open.end - 1, open.end), false);
        let span = Span::new(open.start, inner.span.end);
        Datum { kind: DatumKind::HashLiteral { tag, inner: Some(Box::new(inner)) }, span, line }
    }
}

/// A list under construction: its items, its dotted tail and the dot
/// before it, and the end of the last datum read.
struct ListBuilder<'a> {
    items: Vec<Datum<'a>>,
    tail: Option<Box<Datum<'a>>>,
    dot: Option<Span>,
    last_end: u32,
}

impl<'a> ListBuilder<'a> {
    /// The list read so far, without its text.
    spec fn view(&self) -> Items {
        Items {
            items: shapes_of(self.items@),
            tail: opt_box_shape(self.tail),
            dot: self.dot,
            last_end: self.last_end,
        }
    }

    /// Everything read lies in `b` at or after `start`, in source order,
    /// and ends by `last_end`; a dot precedes the tail.
    spec fn wf(&self, b: Seq<u8>, start: int) -> bool {
        &&& at_boundary(b, self.last_end as int)
        &&& forall|i: int|
            0 <= i < self.items.len() ==> (#[trigger] self.items@[i]).wf(b) && start
                <= self.items@[i].span.start && self.items@[i].span.end <= self.last_end
        &&& forall|i: int|
            0 <= i < self.items.len() - 1 ==> (#[trigger] self.items@[i]).span.end
                <= self.items@[i + 1].span.start
        &&& match self.tail {
            Some(t) => {
                &&& t.wf(b)
                &&& start <= t.span.start
                &&& t.span.end == self.last_end
                &&& self.items.len() > 0 ==> self.items@[self.items.len() - 1].span.end
                    <= t.span.start
            },
            None => self.items.len() > 0 ==> self.items@[self.items.len() - 1].span.end
                == self.last_end,
        }
        &&& match self.dot {
            Some(d) => {
                &&& self.tail.is_some()
                &&& start <= d.start
                &&& d.end == d.start + 1
                &&& d.end <= self.tail.unwrap().span.start
                &&& 0 <= d.start < b.len()
                &&& b[d.start as int] == 46u8
            },
            None => true,
        }
    }

    /// Everything read is classified under `o`.
    spec fn classified(&self, o: Options) -> bool {
        &&& forall|i: int| 0 <= i < self.items.len() ==> atoms_classified(#[trigger] self.items@[i], o)
        &&& match self.tail {
            Some(t) => atoms_classified(*t, o),
            None => true,
        }
    }

    fn new(last_end: u32, Ghost(b): Ghost<Seq<u8>>, Ghost(start): Ghost<int>) -> (l: Self)
        requires
            at_boundary(b, last_end as int),
        ensures
            l.wf(b, start),
            forall|o: Options| #[trigger] l.classified(o),
            l.last_end == last_end,
            l.items.len() == 0,
            l.view() == crate::reading::items_start(last_end),
    {
        let l = ListBuilder { items: Vec::new(), tail: None, dot: None, last_end };
        assert(shapes_of(l.items@) =~= seq![]);
        l
    }

    /// Fold a dotted tail back into the items; whether there was one.
    fn fold_tail(&mut self, Ghost(b): Ghost<Seq<u8>>, Ghost(start): Ghost<int>) -> (had: bool)
        requires
            old(self).wf(b, start),
        ensures
            final(self).wf(b, start),
            forall|o: Options| #[trigger] old(self).classified(o) ==> final(self).classified(o),
            final(self).tail.is_none(),
            final(self).last_end == old(self).last_end,
            final(self).items.len() >= old(self).items.len(),
            (final(self).view(), had) == fold_tail(old(self).view()),
    {
        let prev = self.tail.take();
        self.dot = None;
        match prev {
            Some(p) => {
                proof {
                    lemma_shapes_push(self.items@, *p);
                }
                self.items.push(*p);
                true
            },
            None => false,
        }
    }

    /// Append an item read after everything so far.
    fn push_item(&mut self, d: Datum<'a>, Ghost(b): Ghost<Seq<u8>>, Ghost(start): Ghost<int>)
        requires
            old(self).wf(b, start),
            old(self).tail.is_none(),
            d.wf(b),
            start <= d.span.start,
            old(self).last_end <= d.span.start,
        ensures
            final(self).wf(b, start),
            forall|o: Options| #[trigger] old(self).classified(o) && atoms_classified(d, o) ==> final(self).classified(o),
            final(self).last_end == d.span.end,
            final(self).items.len() > 0,
            final(self).view() == (Items {
                items: old(self).view().items.push(shape_of(d)),
                tail: None,
                dot: old(self).dot,
                last_end: d.span.end,
            }),
    {
        proof {
            lemma_shapes_push(self.items@, d);
        }
        self.last_end = d.span.end;
        self.items.push(d);
    }

    /// Set the dotted tail, read after the dot `dot`.
    fn set_tail(&mut self, d: Datum<'a>, dot: Span, Ghost(b): Ghost<Seq<u8>>, Ghost(start): Ghost<int>)
        requires
            old(self).wf(b, start),
            old(self).tail.is_none(),
            d.wf(b),
            start <= dot.start,
            dot.end == dot.start + 1,
            dot.end <= d.span.start,
            old(self).last_end <= dot.start,
            dot.start < b.len(),
            b[dot.start as int] == 46u8,
        ensures
            final(self).wf(b, start),
            forall|o: Options| #[trigger] old(self).classified(o) && atoms_classified(d, o) ==> final(self).classified(o),
            final(self).last_end == d.span.end,
            final(self).items.len() == old(self).items.len(),
            final(self).view() == (Items {
                items: old(self).view().items,
                tail: Some(Box::new(shape_of(d))),
                dot: Some(dot),
                last_end: d.span.end,
            }),
    {
        self.last_end = d.span.end;
        self.tail = Some(Box::new(d));
        self.dot = Some(dot);
    }

    /// The finished list datum over `span`.
    fn into_list(self, delim: Delim, span: Span, line: u32, Ghost(b): Ghost<Seq<u8>>) -> (d: Datum<'a>)
        requires
            self.wf(b, span.start as int),
            self.last_end <= span.end <= b.len(),
            span.start <= span.end,
            at_boundary(b, span.start as int),
            at_boundary(b, span.end as int),
            line == line_of(b, span.start as int),
        ensures
            d.wf(b),
            d.span == span,
            forall|o: Options| #[trigger] self.classified(o) ==> atoms_classified(d, o),
            shape_of(d) == (Shape::List {
                delim,
                items: self.view().items,
                tail: self.view().tail,
                dot: self.dot,
                span,
            }),
    {
        let d = Datum {
            kind: DatumKind::List { delim, items: self.items, tail: self.tail, dot: self.dot },
            span,
            line,
        };
        proof {
            lemma_list_shape(d);
        }
        d
    }
}

/// Fold `(quote x)` and friends into a longhand [`DatumKind::Prefixed`]. Only
/// the exact two-element round-list shape qualifies, and only when the head
/// names a quote-family form whose shorthand glyph the dialect has.
fn fold_longhand<'a>(datum: Datum<'a>, opts: &Options) -> (r: Datum<'a>)
    ensures
        r.span == datum.span,
        r.line == datum.line,
        forall|b: Seq<u8>| #[trigger] datum.wf(b) ==> r.wf(b),
        forall|o: Options| #[trigger] atoms_classified(datum, o) ==> atoms_classified(r, o),
        forall|b: Seq<u8>|
            #[trigger] datum.wf(b) ==> shape_of(r) == fold_shape(shape_of(datum), b, *opts),
{
    let ghost d0 = datum;
    let span = datum.span;
    let line = datum.line;
    match datum.kind {
        DatumKind::List { delim, mut items, tail, dot } => {
            proof {
                lemma_list_shape(d0);
            }
            let round = match delim {
                Delim::Round => true,
                _ => false,
            };
            if round && tail.is_none() && items.len() == 2 {
                if let DatumKind::Symbol(s) = items[0].kind {
                    if let Some(prefix) = quote_symbol(s, opts) {
                        let ghost second = items@[1];
                        let inner = items.pop().unwrap();
                        assert(inner == second);
                        let r = Datum {
                            kind: DatumKind::Prefixed {
                                prefix,
                                notation: Notation::Longhand,
                                inner: Box::new(inner),
                                arg: None,
                            },
                            span,
                            line,
                        };
                        proof {
                            assert forall|b: Seq<u8>| #[trigger] d0.wf(b) implies shape_of(r)
                                == fold_shape(shape_of(d0), b, *opts) by {
                                assert(d0.kind->List_items@[0].wf(b));
                            }
                        }
                        return r;
                    }
                }
            }
            let r = Datum { kind: DatumKind::List { delim, items, tail, dot }, span, line };
            proof {
                assert(r == d0);
                assert forall|b: Seq<u8>| #[trigger] d0.wf(b) implies shape_of(r) == fold_shape(
                    shape_of(d0),
                    b,
                    *opts,
                ) by {
                    if round && tail.is_none() && items.len() == 2 {
                        assert(d0.kind->List_items@[0].wf(b));
                    }
                }
            }
            r
        },
        other => Datum { kind: other, span, line },
    }
}

/// ASCII lower-casing of one byte.
pub open spec fn ascii_lower(c: u8) -> u8 {
    if 65 <= c <= 90 {
        (c + 32) as u8
    } else {
        c
    }
}

/// Byte strings equal up to ASCII case.
pub open spec fn eq_ignore_case(a: Seq<u8>, b: Seq<u8>) -> bool {
    a.len() == b.len() && forall|i: int| 0 <= i < a.len() ==> ascii_lower(a[i]) == ascii_lower(b[i])
}

/// A symbol's name against a longhand head name, honouring case folding.
pub open spec fn names_head(s: Seq<u8>, name: Seq<u8>, ci: bool) -> bool {
    if ci {
        eq_ignore_case(s, name)
    } else {
        s == name
    }
}

pub open spec fn quote_name() -> Seq<u8> {
    seq![113u8, 117, 111, 116, 101]
}

pub open spec fn quasiquote_name() -> Seq<u8> {
    seq![113u8, 117, 97, 115, 105, 113, 117, 111, 116, 101]
}

pub open spec fn unquote_name() -> Seq<u8> {
    seq![117u8, 110, 113, 117, 111, 116, 101]
}

pub open spec fn unquote_splicing_name() -> Seq<u8> {
    seq![117u8, 110, 113, 117, 111, 116, 101, 45, 115, 112, 108, 105, 99, 105, 110, 103]
}

/// The quote-family prefix a longhand head symbol names (`quote`,
/// `quasiquote`, `unquote`, `unquote-splicing`), gated on the dialect having
/// the corresponding shorthand glyph; `unquote-splicing` needs the unquote
/// glyph.
pub open spec fn spec_quote_symbol(s: Seq<u8>, o: Options) -> Option<Prefix> {
    let ci = o.fold_case_insensitive;
    if o.roles.quote.is_some() && names_head(s, quote_name(), ci) {
        Some(Prefix::Quote)
    } else if o.roles.quasiquote.is_some() && names_head(s, quasiquote_name(), ci) {
        Some(Prefix::Quasiquote)
    } else if o.roles.unquote.is_some() && names_head(s, unquote_name(), ci) {
        Some(Prefix::Unquote)
    } else if o.roles.unquote.is_some() && names_head(s, unquote_splicing_name(), ci) {
        Some(Prefix::UnquoteSplicing)
    } else {
        None
    }
}

fn bytes_name_eq(a: &[u8], name: &[u8], ci: bool) -> (r: bool)
    ensures
        r == names_head(a@, name@, ci),
{
    if a.len() != name.len() {
        proof {
            if !ci {
                assert(a@.len() != name@.len());
            }
        }
        return false;
    }
    let mut i: usize = 0;
    while i < a.len()
        invariant
            a.len() == name.len(),
            0 <= i <= a.len(),
            forall|k: int|
                0 <= k < i ==> if ci {
                    ascii_lower(a@[k]) == ascii_lower(name@[k])
                } else {
                    a@[k] == name@[k]
                },
        decreases a.len() - i,
    {
        let x = a[i];
        let y = name[i];
        let same = if ci {
            let lx = if 65 <= x && x <= 90 { x + 32 } else { x };
            let ly = if 65 <= y && y <= 90 { y + 32 } else { y };
            lx == ly
        } else {
            x == y
        };
        if !same {
            proof {
                if !ci {
                    assert(a@[i as int] != name@[i as int]);
                }
            }
            return false;
        }
        i = i + 1;
    }
    proof {
        if !ci {
            assert(a@ =~= name@);
        }
    }
    true
}

/// The quote-family prefix a longhand head symbol names, if any.
fn quote_symbol(s: &str, opts: &Options) -> (r: Option<Prefix>)
    ensures
        r == spec_quote_symbol(s.spec_bytes(), *opts),
{
    let b = s.as_bytes();
    let ci = opts.fold_case_insensitive;
    let quote: [u8; 5] = [113, 117, 111, 116, 101];
    let quasiquote: [u8; 10] = [113, 117, 97, 115, 105, 113, 117, 111, 116, 101];
    let unquote: [u8; 7] = [117, 110, 113, 117, 111, 116, 101];
    let unquote_splicing: [u8; 16] = [
        117, 110, 113, 117, 111, 116, 101, 45, 115, 112, 108, 105, 99, 105, 110, 103,
    ];
    assert(quote@ =~= quote_name());
    assert(quasiquote@ =~= quasiquote_name());
    assert(unquote@ =~= unquote_name());
    assert(unquote_splicing@ =~= unquote_splicing_name());
    if opts.roles.quote.is_some() && bytes_name_eq(b, quote.as_slice(), ci) {
        return Some(Prefix::Quote);
    }
    if opts.roles.quasiquote.is_some() && bytes_name_eq(b, quasiquote.as_slice(), ci) {
        return Some(Prefix::Quasiquote);
    }
    if opts.roles.unquote.is_some() {
        if bytes_name_eq(b, unquote.as_slice(), ci) {
            return Some(Prefix::Unquote);
        }
        if bytes_name_eq(b, unquote_splicing.as_slice(), ci) {
            return Some(Prefix::UnquoteSplicing);
        }
    }
    None
}


pub open spec fn is_digit(c: u8) -> bool {
    48 <= c <= 57
}

pub open spec fn is_alnum(c: u8) -> bool {
    is_digit(c) || (65 <= c <= 90) || (97 <= c <= 122)
}

/// An exponent marker: `e`, `s`, `f`, `d` or `l`, in either case.
pub open spec fn is_exp_marker(c: u8) -> bool {
    let l = ascii_lower(c);
    l == 101 || l == 115 || l == 102 || l == 100 || l == 108
}

/// The end of the run of ASCII digits of `b` that starts at `i`.
pub open spec fn digit_run_end(b: Seq<u8>, i: int) -> int
    decreases b.len() - i,
{
    if 0 <= i < b.len() && is_digit(b[i]) {
        digit_run_end(b, i + 1)
    } else {
        i
    }
}

/// Byte `k` of a numeric body that starts at `i` is plausible: a digit, `.`,
/// `/`, an exponent marker, a sign right after an exponent marker, or a
/// complex `i` right after a digit.
pub open spec fn numeric_body_byte(b: Seq<u8>, i: int, k: int) -> bool {
    let c = b[k];
    ||| is_digit(c)
    ||| c == 46
    ||| c == 47
    ||| is_exp_marker(c)
    ||| (c == 43 || c == 45) && k > i && is_exp_marker(b[k - 1])
    ||| ascii_lower(c) == 105 && k > i && is_digit(b[k - 1])
}

/// The lexical shape of a number. Only the shape is looked at; the value is
/// never interpreted, and anything ambiguous is a symbol:
/// - `##…` (Clojure's `##Inf`, `##NaN`);
/// - `#` and a digit: a radix-`r` number `#<digits>r<alnum…>`;
/// - `#` and one of `e i b o d x` (any case): an exactness or radix prefix;
/// - otherwise an optional sign, then a digit or `.` and a digit, then only
///   plausible numeric body bytes. So `1+`, `1-`, `1x` are symbols.
pub open spec fn spec_looks_like_number(b: Seq<u8>) -> bool {
    if b.len() == 0 {
        false
    } else if b.len() >= 2 && b[0] == 35 && b[1] == 35 {
        true
    } else if b[0] == 35 {
        if b.len() >= 2 && is_digit(b[1]) {
            spec_radix_r_number(b)
        } else {
            b.len() >= 2 && {
                let l = ascii_lower(b[1]);
                l == 101 || l == 105 || l == 98 || l == 111 || l == 100 || l == 120
            }
        }
    } else {
        let i: int = if b[0] == 43 || b[0] == 45 {
            1
        } else {
            0
        };
        i < b.len() && spec_plain_number(b, i)
    }
}

/// `#<digits>r<alnum…>`: the digits run to the `r`, then at least one
/// alphanumeric byte follows.
pub open spec fn spec_radix_r_number(b: Seq<u8>) -> bool {
    let k = digit_run_end(b, 1);
    k + 1 < b.len() && b[k] == 114 && forall|j: int| k < j < b.len() ==> is_alnum(#[trigger] b[j])
}

/// A numeric body starting at `i`: a digit, or `.` and a digit, then only
/// plausible numeric body bytes.
pub open spec fn spec_plain_number(b: Seq<u8>, i: int) -> bool {
    &&& (is_digit(b[i]) || (b[i] == 46 && i + 1 < b.len() && is_digit(b[i + 1])))
    &&& forall|k: int| i <= k < b.len() ==> #[trigger] numeric_body_byte(b, i, k)
}

/// A numeric body reads the same after any prefix: whether `x + t` has a
/// numeric body where `t` starts depends on `t` alone.
proof fn lemma_plain_number_suffix(x: Seq<u8>, y: Seq<u8>, t: Seq<u8>)
    requires
        x.len() == y.len(),
        t.len() > 0,
    ensures
        spec_plain_number(x + t, x.len() as int) == spec_plain_number(y + t, y.len() as int),
        spec_plain_number(x + t, x.len() as int) == spec_plain_number(t, 0),
{
    let i = x.len() as int;
    let a = x + t;
    let b = y + t;
    assert forall|k: int| i <= k < a.len() implies numeric_body_byte(a, i, k) == numeric_body_byte(
        t,
        0,
        k - i,
    ) by {
        assert(a[k] == t[k - i]);
        if k > i {
            assert(a[k - 1] == t[k - i - 1]);
        }
    }
    assert forall|k: int| i <= k < b.len() implies numeric_body_byte(b, i, k) == numeric_body_byte(
        t,
        0,
        k - i,
    ) by {
        assert(b[k] == t[k - i]);
        if k > i {
            assert(b[k - 1] == t[k - i - 1]);
        }
    }
    assert((forall|k: int| i <= k < a.len() ==> #[trigger] numeric_body_byte(a, i, k)) == (forall|
        k: int,
    | 0 <= k < t.len() ==> #[trigger] numeric_body_byte(t, 0, k))) by {
        if forall|k: int| 0 <= k < t.len() ==> #[trigger] numeric_body_byte(t, 0, k) {
            assert forall|k: int| i <= k < a.len() implies #[trigger] numeric_body_byte(a, i, k) by {
                assert(numeric_body_byte(t, 0, k - i));
            }
        }
        if forall|k: int| i <= k < a.len() ==> #[trigger] numeric_body_byte(a, i, k) {
            assert forall|k: int| 0 <= k < t.len() implies #[trigger] numeric_body_byte(t, 0, k) by {
                assert(numeric_body_byte(a, i, k + i));
            }
        }
    }
    assert((forall|k: int| i <= k < b.len() ==> #[trigger] numeric_body_byte(b, i, k)) == (forall|
        k: int,
    | 0 <= k < t.len() ==> #[trigger] numeric_body_byte(t, 0, k))) by {
        if forall|k: int| 0 <= k < t.len() ==> #[trigger] numeric_body_byte(t, 0, k) {
            assert forall|k: int| i <= k < b.len() implies #[trigger] numeric_body_byte(b, i, k) by {
                assert(numeric_body_byte(t, 0, k - i));
            }
        }
        if forall|k: int| i <= k < b.len() ==> #[trigger] numeric_body_byte(b, i, k) {
            assert forall|k: int| 0 <= k < t.len() implies #[trigger] numeric_body_byte(t, 0, k) by {
                assert(numeric_body_byte(b, i, k + i));
            }
        }
    }
    assert(a[i] == t[0] && b[i] == t[0]);
    if t.len() > 1 {
        assert(a[i + 1] == t[1] && b[i + 1] == t[1]);
    }
}

/// A number's leading sign is optional and either sign reads alike: for any
/// text `t`, `+t` has the shape of a number exactly when `-t` has, and when
/// `t` itself starts with neither a sign nor `#`, exactly when `t` has
/// (`+5`, `-5` and `5` are all numbers; `+x`, `-x` and `x` none).
pub proof fn lemma_sign_optional(t: Seq<u8>)
    ensures
        spec_looks_like_number(seq![43u8] + t) == spec_looks_like_number(seq![45u8] + t),
        t.len() > 0 && t[0] != 43 && t[0] != 45 && t[0] != 35 ==> spec_looks_like_number(
            seq![45u8] + t,
        ) == spec_looks_like_number(t),
{
    let p = seq![43u8] + t;
    let m = seq![45u8] + t;
    assert(p[0] == 43 && m[0] == 45);
    if t.len() > 0 {
        lemma_plain_number_suffix(seq![43u8], seq![45u8], t);
        if t[0] != 43 && t[0] != 45 && t[0] != 35 {
            assert(Seq::<u8>::empty() + t =~= t);
            lemma_plain_number_suffix(Seq::<u8>::empty(), Seq::<u8>::empty(), t);
        }
    }
}

/// A run of decimal digits is a number, signed or not; followed by a sign or
/// a letter other than an exponent marker or `i` it is a symbol (`1+`,
/// `1-`, `1x`).
pub proof fn lemma_digit_runs(d: Seq<u8>, c: u8)
    requires
        d.len() > 0,
        forall|j: int| 0 <= j < d.len() ==> is_digit(#[trigger] d[j]),
    ensures
        spec_looks_like_number(d),
        spec_looks_like_number(seq![43u8] + d),
        spec_looks_like_number(seq![45u8] + d),
        c == 43 || c == 45 || (is_alnum(c) && !is_digit(c) && !is_exp_marker(c) && ascii_lower(c)
            != 105) ==> !spec_looks_like_number(d.push(c)),
{
    assert(d[0] != 43 && d[0] != 45 && d[0] != 35);
    assert(spec_plain_number(d, 0)) by {
        assert forall|k: int| 0 <= k < d.len() implies #[trigger] numeric_body_byte(d, 0, k) by {
            assert(is_digit(d[k]));
        }
    }
    lemma_sign_optional(d);
    let e = d.push(c);
    assert(e[0] == d[0]);
    if c == 43 || c == 45 || (is_alnum(c) && !is_digit(c) && !is_exp_marker(c) && ascii_lower(c)
        != 105) {
        assert(e[d.len() as int] == c);
        assert(is_digit(e[d.len() - 1]));
        assert(!numeric_body_byte(e, 0, d.len() as int));
    }
}

/// Whatever follows them, `##` (Clojure's `##Inf`, `##NaN`) and an
/// exactness or radix prefix `#e #i #b #o #d #x`, in either case, start a
/// number; `#` and any other letter never does.
pub proof fn lemma_hash_numbers(c: u8, t: Seq<u8>)
    ensures
        spec_looks_like_number(seq![35u8, 35u8] + t),
        (c == 101 || c == 105 || c == 98 || c == 111 || c == 100 || c == 120 || c == 69 || c == 73
            || c == 66 || c == 79 || c == 68 || c == 88) ==> spec_looks_like_number(seq![35u8, c] + t),
        is_alnum(c) && !is_digit(c) && !(c == 101 || c == 105 || c == 98 || c == 111 || c == 100 || c
            == 120 || c == 69 || c == 73 || c == 66 || c == 79 || c == 68 || c == 88)
            ==> !spec_looks_like_number(seq![35u8, c] + t),
{
    let h = seq![35u8, 35u8] + t;
    assert(h[0] == 35 && h[1] == 35);
    let x = seq![35u8, c] + t;
    assert(x[0] == 35 && x[1] == c);
}

/// Under any options, an atom `+t` reads as a number exactly when `-t`
/// does.
pub proof fn lemma_sign_symmetric_atoms<'a>(plus: &'a str, minus: &'a str, o: Options)
    requires
        plus.spec_bytes().len() > 0,
        plus.spec_bytes()[0] == 43,
        minus.spec_bytes() == seq![45u8] + plus.spec_bytes().skip(1),
    ensures
        spec_atom_kind(plus, o) is Number <==> spec_atom_kind(minus, o) is Number,
{
    let t = plus.spec_bytes().skip(1);
    assert(plus.spec_bytes() =~= seq![43u8] + t);
    lemma_sign_optional(t);
}

fn lower_byte(c: u8) -> (r: u8)
    ensures
        r == ascii_lower(c),
{
    if 65 <= c && c <= 90 {
        c + 32
    } else {
        c
    }
}

fn digit_byte(c: u8) -> (r: bool)
    ensures
        r == is_digit(c),
{
    48 <= c && c <= 57
}

fn exp_marker_byte(c: u8) -> (r: bool)
    ensures
        r == is_exp_marker(c),
{
    let l = lower_byte(c);
    l == 101 || l == 115 || l == 102 || l == 100 || l == 108
}

/// A radix-`r` number `#<digits>r<alnum…>`, given `#` and a digit.
fn radix_r_number(b: &[u8]) -> (r: bool)
    requires
        b.len() >= 2,
        b[0] == 35,
        is_digit(b[1]),
    ensures
        r == spec_radix_r_number(b@),
{
    let n = b.len();
    let mut k: usize = 1;
    while k < n && digit_byte(b[k])
        invariant
            1 <= k <= n,
            n == b@.len(),
            digit_run_end(b@, 1) == digit_run_end(b@, k as int),
        decreases n - k,
    {
        k = k + 1;
    }
    if !(n - k >= 2 && b[k] == 114) {
        return false;
    }
    let mut j: usize = k + 1;
    while j < n
        invariant
            k + 1 <= j <= n,
            n == b@.len(),
            k == digit_run_end(b@, 1),
            forall|m: int| k < m < j ==> is_alnum(#[trigger] b@[m]),
        decreases n - j,
    {
        let c = b[j];
        if !(digit_byte(c) || (65 <= c && c <= 90) || (97 <= c && c <= 122)) {
            assert(!is_alnum(b@[j as int]));
            return false;
        }
        j = j + 1;
    }
    true
}

/// An optionally signed decimal-looking body starting at `i`.
fn plain_number(b: &[u8], i: usize) -> (r: bool)
    requires
        i < b.len(),
    ensures
        r == spec_plain_number(b@, i as int),
{
    let n = b.len();
    if !(digit_byte(b[i]) || (b[i] == 46 && n - i >= 2 && digit_byte(b[i + 1]))) {
        return false;
    }
    let mut k: usize = i;
    while k < n
        invariant
            i <= k <= n,
            n == b@.len(),
            forall|m: int| i <= m < k ==> #[trigger] numeric_body_byte(b@, i as int, m),
        decreases n - k,
    {
        let c = b[k];
        let ok = digit_byte(c) || c == 46 || c == 47 || exp_marker_byte(c) || ((c == 43 || c == 45)
            && k > i && exp_marker_byte(b[k - 1])) || (lower_byte(c) == 105 && k > i && digit_byte(
            b[k - 1],
        ));
        if !ok {
            assert(!numeric_body_byte(b@, i as int, k as int));
            return false;
        }
        k = k + 1;
    }
    true
}

/// Whether an atom's text has the lexical shape of a number.
fn looks_like_number(s: &str) -> (r: bool)
    ensures
        r == spec_looks_like_number(s.spec_bytes()),
{
    let b = s.as_bytes();
    let n = b.len();
    if n == 0 {
        return false;
    }
    if n >= 2 && b[0] == 35 && b[1] == 35 {
        return true;
    }
    if b[0] == 35 {
        if n >= 2 && digit_byte(b[1]) {
            return radix_r_number(b);
        }
        if n < 2 {
            return false;
        }
        let l = lower_byte(b[1]);
        return l == 101 || l == 105 || l == 98 || l == 111 || l == 100 || l == 120;
    }
    let i: usize = if b[0] == 43 || b[0] == 45 {
        1
    } else {
        0
    };
    if i >= n {
        return false;
    }
    plain_number(b, i)
}

/// How an atom's text classifies: an extended `#{…}#` symbol, a `#:` or `:`
/// keyword, a number, a trailing-colon keyword, or else a symbol — each
/// only where the dialect enables it.
pub open spec fn spec_atom_kind<'a>(text: &'a str, o: Options) -> DatumKind<'a> {
    let b = text.spec_bytes();
    if o.hash_curly_symbol && b.len() >= 2 && b[0] == 35 && b[1] == 123 {
        DatumKind::Symbol(text)
    } else if o.hash_keyword && b.len() >= 2 && b[0] == 35 && b[1] == 58 {
        DatumKind::Keyword(text)
    } else if o.keyword_colon && b.len() >= 1 && b[0] == 58 {
        DatumKind::Keyword(text)
    } else if spec_looks_like_number(b) {
        DatumKind::Number(text)
    } else if o.keyword_trailing_colon && b.len() > 1 && b[b.len() - 1] == 58 {
        DatumKind::Keyword(text)
    } else {
        DatumKind::Symbol(text)
    }
}

/// Every symbol, keyword and number in `d` is classified as its text reads
/// under `o` (see [`spec_atom_kind`]).
pub open spec fn atoms_classified(d: Datum, o: Options) -> bool
    decreases d,
{
    match d.kind {
        DatumKind::Symbol(s) => spec_atom_kind(s, o) == d.kind,
        DatumKind::Keyword(s) => spec_atom_kind(s, o) == d.kind,
        DatumKind::Number(s) => spec_atom_kind(s, o) == d.kind,
        DatumKind::List { items, tail, .. } => {
            &&& forall|i: int| 0 <= i < items.len() ==> atoms_classified(#[trigger] items@[i], o)
            &&& match tail {
                Some(t) => atoms_classified(*t, o),
                None => true,
            }
        },
        DatumKind::Prefixed { inner, arg, .. } => {
            &&& atoms_classified(*inner, o)
            &&& match arg {
                Some(a) => atoms_classified(*a, o),
                None => true,
            }
        },
        DatumKind::HashLiteral { inner, .. } => match inner {
            Some(i) => atoms_classified(*i, o),
            None => true,
        },
        DatumKind::Label { inner, .. } => atoms_classified(*inner, o),
        _ => true,
    }
}

/// Classify an atom's text as a symbol, keyword or number.
fn classify_atom<'a>(text: &'a str, opts: &Options) -> (k: DatumKind<'a>)
    ensures
        k == spec_atom_kind(text, *opts),
{
    let b = text.as_bytes();
    let n = b.len();
    if opts.hash_curly_symbol && n >= 2 && b[0] == 35 && b[1] == 123 {
        return DatumKind::Symbol(text);
    }
    if opts.hash_keyword && n >= 2 && b[0] == 35 && b[1] == 58 {
        return DatumKind::Keyword(text);
    }
    if opts.keyword_colon && n >= 1 && b[0] == 58 {
        return DatumKind::Keyword(text);
    }
    if looks_like_number(text) {
        return DatumKind::Number(text);
    }
    if opts.keyword_trailing_colon && n > 1 && b[n - 1] == 58 {
        return DatumKind::Keyword(text);
    }
    DatumKind::Symbol(text)
}

} // verus!
