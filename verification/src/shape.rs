//! The reader's output without its text: the kinds, spans and nesting of a
//! datum tree and the positions and kinds of its diagnostics.
//!
//! A well-formed [`Datum`] (see [`Datum::wf`]) carries exactly the source text
//! of its spans, so its [`shape_of`] determines it. The reader's contracts are
//! stated over these shapes.

use vstd::prelude::*;
use vstd::string::*;

use crate::datum::{Datum, DatumKind, Delim, Notation, Prefix};
use crate::error::{ErrorKind, ParseError};
use crate::span::Span;

verus! {

/// The kind of a datum read from a single token.
pub enum LeafKind {
    /// A symbol.
    Symbol,
    /// A keyword.
    Keyword,
    /// A number.
    Number,
    /// A string literal.
    Str,
    /// A character literal.
    Char,
    /// A boolean with its value.
    Bool(bool),
}

/// A datum tree without its text.
#[allow(inconsistent_fields)]
pub enum Shape {
    /// A one-token datum over `span`.
    Leaf { kind: LeafKind, span: Span },
    /// A list.
    List { delim: Delim, items: Seq<Shape>, tail: Option<Box<Shape>>, dot: Option<Span>, span: Span },
    /// A prefixed datum.
    Prefixed {
        prefix: Prefix,
        notation: Notation,
        inner: Box<Shape>,
        arg: Option<Box<Shape>>,
        span: Span,
    },
    /// A `#tag` literal whose tag is `tag_len` bytes after the `#`.
    HashLiteral { tag_len: nat, inner: Option<Box<Shape>>, span: Span },
    /// A datum label whose id is `id_len` bytes after the `#`.
    Label { id_len: nat, inner: Box<Shape>, span: Span },
    /// A datum label reference whose id is `id_len` bytes after the `#`.
    LabelRef { id_len: nat, span: Span },
}

impl Shape {
    /// The byte range the shape covers.
    pub open spec fn span(self) -> Span {
        match self {
            Shape::Leaf { span, .. } => span,
            Shape::List { span, .. } => span,
            Shape::Prefixed { span, .. } => span,
            Shape::HashLiteral { span, .. } => span,
            Shape::Label { span, .. } => span,
            Shape::LabelRef { span, .. } => span,
        }
    }
}

/// The shape of a datum.
pub open spec fn shape_of(d: Datum) -> Shape
    decreases d,
{
    match d.kind {
        DatumKind::Symbol(_) => Shape::Leaf { kind: LeafKind::Symbol, span: d.span },
        DatumKind::Keyword(_) => Shape::Leaf { kind: LeafKind::Keyword, span: d.span },
        DatumKind::Number(_) => Shape::Leaf { kind: LeafKind::Number, span: d.span },
        DatumKind::Str(_) => Shape::Leaf { kind: LeafKind::Str, span: d.span },
        DatumKind::Char(_) => Shape::Leaf { kind: LeafKind::Char, span: d.span },
        DatumKind::Bool(v) => Shape::Leaf { kind: LeafKind::Bool(v), span: d.span },
        DatumKind::List { delim, items, tail, dot } => Shape::List {
            delim,
            items: Seq::new(
                items.len() as nat,
                |i: int|
                    if 0 <= i < items.len() {
                        proof {
                            assert(decreases_to!(d => items@[i]));
                        }
                        shape_of(items@[i])
                    } else {
                        Shape::LabelRef { id_len: 0, span: d.span }
                    },
            ),
            tail: match tail {
                Some(t) => Some(Box::new(shape_of(*t))),
                None => None,
            },
            dot,
            span: d.span,
        },
        DatumKind::Prefixed { prefix, notation, inner, arg } => Shape::Prefixed {
            prefix,
            notation,
            inner: Box::new(shape_of(*inner)),
            arg: match arg {
                Some(a) => Some(Box::new(shape_of(*a))),
                None => None,
            },
            span: d.span,
        },
        DatumKind::HashLiteral { tag, inner } => Shape::HashLiteral {
            tag_len: tag.spec_bytes().len(),
            inner: match inner {
                Some(i) => Some(Box::new(shape_of(*i))),
                None => None,
            },
            span: d.span,
        },
        DatumKind::Label { id, inner } => Shape::Label {
            id_len: id.spec_bytes().len(),
            inner: Box::new(shape_of(*inner)),
            span: d.span,
        },
        DatumKind::LabelRef { id } => Shape::LabelRef { id_len: id.spec_bytes().len(), span: d.span },
    }
}

/// A diagnostic's kind without its text: [`ErrorKind`] with the malformed
/// token's text left to its span.
pub enum Fault {
    /// See [`ErrorKind::UnexpectedDelimiter`].
    UnexpectedDelimiter { found: Delim },
    /// See [`ErrorKind::MismatchedDelimiter`].
    MismatchedDelimiter { expected: Delim, found: Delim },
    /// See [`ErrorKind::UnclosedList`].
    UnclosedList { open: Delim },
    /// See [`ErrorKind::MalformedToken`].
    MalformedToken,
    /// See [`ErrorKind::DanglingPrefix`].
    DanglingPrefix { prefix: Prefix },
    /// See [`ErrorKind::DanglingTag`].
    DanglingTag,
    /// See [`ErrorKind::DanglingLabel`].
    DanglingLabel,
    /// See [`ErrorKind::DanglingDot`].
    DanglingDot,
    /// See [`ErrorKind::ItemAfterDottedTail`].
    ItemAfterDottedTail,
    /// See [`ErrorKind::DepthLimitExceeded`].
    DepthLimitExceeded,
}

/// A diagnostic without its text: where it points and what it reports.
pub struct Diag {
    /// The byte range the diagnostic points at.
    pub span: Span,
    /// What it reports.
    pub fault: Fault,
}

/// The fault an error kind reports.
pub open spec fn fault_of(k: ErrorKind) -> Fault {
    match k {
        ErrorKind::UnexpectedDelimiter { found } => Fault::UnexpectedDelimiter { found },
        ErrorKind::MismatchedDelimiter { expected, found } => Fault::MismatchedDelimiter {
            expected,
            found,
        },
        ErrorKind::UnclosedList { open } => Fault::UnclosedList { open },
        ErrorKind::MalformedToken { .. } => Fault::MalformedToken,
        ErrorKind::DanglingPrefix { prefix } => Fault::DanglingPrefix { prefix },
        ErrorKind::DanglingTag => Fault::DanglingTag,
        ErrorKind::DanglingLabel => Fault::DanglingLabel,
        ErrorKind::DanglingDot => Fault::DanglingDot,
        ErrorKind::ItemAfterDottedTail => Fault::ItemAfterDottedTail,
        ErrorKind::DepthLimitExceeded => Fault::DepthLimitExceeded,
    }
}

/// A diagnostic without its text.
pub open spec fn diag_of(e: ParseError) -> Diag {
    Diag { span: e.span, fault: fault_of(e.kind) }
}

/// Diagnostics without their text, in order.
pub open spec fn diags_of(es: Seq<ParseError>) -> Seq<Diag> {
    es.map_values(|e: ParseError| diag_of(e))
}

/// Shapes of data, in order.
pub open spec fn shapes_of(ds: Seq<Datum>) -> Seq<Shape> {
    ds.map_values(|d: Datum| shape_of(d))
}

/// The shape of an optional boxed datum.
pub open spec fn opt_box_shape(d: Option<Box<Datum>>) -> Option<Box<Shape>> {
    match d {
        Some(x) => Some(Box::new(shape_of(*x))),
        None => None,
    }
}

/// A list's shape holds the shapes of its items and tail.
pub proof fn lemma_list_shape(d: Datum)
    requires
        d.kind is List,
    ensures
        shape_of(d) == (Shape::List {
            delim: d.kind->List_delim,
            items: shapes_of(d.kind->List_items@),
            tail: opt_box_shape(d.kind->List_tail),
            dot: d.kind->List_dot,
            span: d.span,
        }),
{
    let items = d.kind->List_items;
    let sh = shape_of(d);
    assert(sh->List_items =~= shapes_of(items@));
}

/// Appending a diagnostic appends its view.
pub proof fn lemma_diags_push(es: Seq<ParseError>, e: ParseError)
    ensures
        diags_of(es.push(e)) == diags_of(es).push(diag_of(e)),
{
    assert(diags_of(es.push(e)) =~= diags_of(es).push(diag_of(e)));
}

/// Appending a datum appends its shape.
pub proof fn lemma_shapes_push(ds: Seq<Datum>, d: Datum)
    ensures
        shapes_of(ds.push(d)) == shapes_of(ds).push(shape_of(d)),
{
    assert(shapes_of(ds.push(d)) =~= shapes_of(ds).push(shape_of(d)));
}


/// Two data that are the same but for the identity of their string slices:
/// the same kinds, spans and lines, and string slices of the same text.
pub open spec fn same_datum(a: Datum, b: Datum) -> bool
    decreases a,
{
    &&& a.span == b.span
    &&& a.line == b.line
    &&& match (a.kind, b.kind) {
        (DatumKind::Symbol(x), DatumKind::Symbol(y)) => x@ == y@,
        (DatumKind::Keyword(x), DatumKind::Keyword(y)) => x@ == y@,
        (DatumKind::Number(x), DatumKind::Number(y)) => x@ == y@,
        (DatumKind::Str(x), DatumKind::Str(y)) => x@ == y@,
        (DatumKind::Char(x), DatumKind::Char(y)) => x@ == y@,
        (DatumKind::Bool(x), DatumKind::Bool(y)) => x == y,
        (
            DatumKind::List { delim: d1, items: i1, tail: t1, dot: o1 },
            DatumKind::List { delim: d2, items: i2, tail: t2, dot: o2 },
        ) => {
            &&& d1 == d2
            &&& o1 == o2
            &&& i1.len() == i2.len()
            &&& forall|k: int| 0 <= k < i1.len() ==> same_datum(#[trigger] i1@[k], i2@[k])
            &&& match (t1, t2) {
                (Some(x), Some(y)) => same_datum(*x, *y),
                (None, None) => true,
                _ => false,
            }
        },
        (
            DatumKind::Prefixed { prefix: p1, notation: n1, inner: x1, arg: a1 },
            DatumKind::Prefixed { prefix: p2, notation: n2, inner: x2, arg: a2 },
        ) => {
            &&& p1 == p2
            &&& n1 == n2
            &&& same_datum(*x1, *x2)
            &&& match (a1, a2) {
                (Some(x), Some(y)) => same_datum(*x, *y),
                (None, None) => true,
                _ => false,
            }
        },
        (DatumKind::HashLiteral { tag: g1, inner: x1 }, DatumKind::HashLiteral { tag: g2, inner: x2 }) => {
            &&& g1@ == g2@
            &&& match (x1, x2) {
                (Some(x), Some(y)) => same_datum(*x, *y),
                (None, None) => true,
                _ => false,
            }
        },
        (DatumKind::Label { id: g1, inner: x1 }, DatumKind::Label { id: g2, inner: x2 }) => {
            &&& g1@ == g2@
            &&& same_datum(*x1, *x2)
        },
        (DatumKind::LabelRef { id: g1 }, DatumKind::LabelRef { id: g2 }) => g1@ == g2@,
        _ => false,
    }
}

/// String slices with the same bytes have the same text.
proof fn lemma_same_bytes(x: &str, y: &str)
    requires
        x.spec_bytes() == y.spec_bytes(),
    ensures
        x@ == y@,
{
    vstd::utf8::encode_utf8_decode_utf8(x@);
    vstd::utf8::encode_utf8_decode_utf8(y@);
}

/// A datum is fixed by its shape, given that it is well-formed over the
/// source: two well-formed data of the same shape are the same datum (up to
/// the identity of their string slices).
pub proof fn lemma_shape_fixes_datum(a: Datum, b: Datum, src: Seq<u8>)
    requires
        a.wf(src),
        b.wf(src),
        shape_of(a) == shape_of(b),
    ensures
        same_datum(a, b),
    decreases a,
{
    match (a.kind, b.kind) {
        (DatumKind::Symbol(x), DatumKind::Symbol(y)) => lemma_same_bytes(x, y),
        (DatumKind::Keyword(x), DatumKind::Keyword(y)) => lemma_same_bytes(x, y),
        (DatumKind::Number(x), DatumKind::Number(y)) => lemma_same_bytes(x, y),
        (DatumKind::Str(x), DatumKind::Str(y)) => lemma_same_bytes(x, y),
        (DatumKind::Char(x), DatumKind::Char(y)) => lemma_same_bytes(x, y),
        (DatumKind::List { items: i1, tail: t1, .. }, DatumKind::List { items: i2, tail: t2, .. }) => {
            lemma_list_shape(a);
            lemma_list_shape(b);
            assert(shapes_of(i1@) == shapes_of(i2@));
            assert(shapes_of(i1@).len() == i1.len());
            assert forall|k: int| 0 <= k < i1.len() implies same_datum(#[trigger] i1@[k], i2@[k]) by {
                assert(shapes_of(i1@)[k] == shapes_of(i2@)[k]);
                assert(i1@[k].wf(src));
                assert(i2@[k].wf(src));
                lemma_shape_fixes_datum(i1@[k], i2@[k], src);
            }
            match (t1, t2) {
                (Some(x), Some(y)) => {
                    assert(opt_box_shape(t1) == opt_box_shape(t2));
                    lemma_shape_fixes_datum(*x, *y, src);
                },
                _ => {
                    assert(opt_box_shape(t1) == opt_box_shape(t2));
                },
            }
        },
        (DatumKind::Prefixed { inner: x1, arg: a1, .. }, DatumKind::Prefixed { inner: x2, arg: a2, .. }) => {
            lemma_shape_fixes_datum(*x1, *x2, src);
            match (a1, a2) {
                (Some(x), Some(y)) => lemma_shape_fixes_datum(*x, *y, src),
                _ => {},
            }
        },
        (DatumKind::HashLiteral { tag: g1, inner: x1 }, DatumKind::HashLiteral { tag: g2, inner: x2 }) => {
            lemma_same_bytes(g1, g2);
            match (x1, x2) {
                (Some(x), Some(y)) => lemma_shape_fixes_datum(*x, *y, src),
                _ => {},
            }
        },
        (DatumKind::Label { id: g1, inner: x1 }, DatumKind::Label { id: g2, inner: x2 }) => {
            lemma_same_bytes(g1, g2);
            lemma_shape_fixes_datum(*x1, *x2, src);
        },
        (DatumKind::LabelRef { id: g1 }, DatumKind::LabelRef { id: g2 }) => lemma_same_bytes(g1, g2),
        _ => {},
    }
}

} // verus!
