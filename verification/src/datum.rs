//! The parse tree: [`Datum`] and its kinds.

use vstd::prelude::*;
use vstd::string::StringSliceAdditionalSpecFns;

use crate::source::{at_boundary, line_of};
use crate::span::Span;

verus! {

/// A single parsed unit of S-expression syntax, annotated with its source span
/// and 1-based start line. Borrows `&'a str` slices from the source.
#[derive(Debug, PartialEq, Eq)]
pub struct Datum<'a> {
    /// What this datum is.
    pub kind: DatumKind<'a>,
    /// Byte range of this datum in the source.
    pub span: Span,
    /// 1-based start line.
    pub line: u32,
}

/// The shape of a [`Datum`].
#[derive(Debug, PartialEq, Eq)]
#[allow(inconsistent_fields)]
pub enum DatumKind<'a> {
    /// A list. `tail: Some(_)` marks an improper/dotted list `(a b . c)`.
    List {
        /// The delimiter shape (`()`/`[]`/`{}`/`#{}`).
        delim: Delim,
        /// The list elements, in order.
        items: Vec<Datum<'a>>,
        /// The dotted tail, present only for an improper list `(a . b)`.
        tail: Option<Box<Datum<'a>>>,
        /// Byte span of the `.` separator, present only for an improper list.
        dot: Option<Span>,
    },
    /// A symbol; verbatim slice, including enclosing `|bars|` if piped.
    Symbol(&'a str),
    /// A keyword such as `:foo` or `#:foo`.
    Keyword(&'a str),
    /// A number; raw text, value never interpreted.
    Number(&'a str),
    /// A string; raw slice including the surrounding quotes and escapes.
    Str(&'a str),
    /// A character literal; raw slice including the `#\` / `?` / `\` lead form.
    Char(&'a str),
    /// A boolean.
    Bool(bool),
    /// A reader macro applied to an inner datum.
    Prefixed {
        /// The reader-macro role.
        prefix: Prefix,
        /// Whether it was written shorthand (`'x`) or longhand (`(quote x)`).
        notation: Notation,
        /// The datum the prefix applies to.
        inner: Box<Datum<'a>>,
        /// The auxiliary datum some prefixes carry: the metadata form for
        /// [`Prefix::Meta`] and the feature test for
        /// [`Prefix::FeatureConditional`]; `None` otherwise.
        arg: Option<Box<Datum<'a>>>,
    },
    /// Any `#tag`-shaped form; `tag` is captured verbatim and unvalidated.
    HashLiteral {
        /// The text between `#` and the following delimiter (may be empty).
        tag: &'a str,
        /// The datum the tag applies to, if any.
        inner: Option<Box<Datum<'a>>>,
    },
    /// A datum label definition `#n=<datum>`. No graph resolution.
    Label {
        /// The label id (the digits between `#` and `=`).
        id: &'a str,
        /// The labeled datum.
        inner: Box<Datum<'a>>,
    },
    /// A datum label reference `#n#`.
    LabelRef {
        /// The referenced label id.
        id: &'a str,
    },
}

/// Delimiter shape. The reader records shape; the consumer assigns meaning.
#[derive(Debug, Clone, Copy, PartialEq, Eq, Hash)]
pub enum Delim {
    /// `(` `)`
    Round,
    /// `[` `]`
    Square,
    /// `{` `}`
    Curly,
    /// `#{` `}` (set)
    SetBrace,
}

/// The role of a reader-macro prefix. The glyph that triggers each is a
/// per-dialect table.
#[derive(Debug, Clone, Copy, PartialEq, Eq, Hash)]
#[non_exhaustive]
pub enum Prefix {
    /// `'x` / `(quote x)`.
    Quote,
    /// `` `x `` / `(quasiquote x)`.
    Quasiquote,
    /// `,x` / `(unquote x)`.
    Unquote,
    /// `,@x` / `(unquote-splicing x)`.
    UnquoteSplicing,
    /// `#;` (Scheme) / `#_` (Clojure/Phel) — discard the next datum.
    Discard,
    /// `#'x` — Clojure var-quote / Racket syntax.
    VarQuote,
    /// `#'x` — Common Lisp / Emacs Lisp / ISLisp function-quote.
    FunctionQuote,
    /// `@x` — Clojure deref.
    Deref,
    /// `^x` / `#^x` — Clojure metadata.
    Meta,
    /// `#.x` — Common Lisp read-time eval.
    ReadEval,
    /// `#+feature form` / `#-feature form` — feature conditional.
    FeatureConditional {
        /// `true` for `#+` (the form is read when the feature is present),
        /// `false` for `#-`.
        present: bool,
    },
    /// `#?(...)` / `#?@(...)` — Clojure reader conditional.
    ReaderConditional {
        /// `true` for `#?@` (splicing), `false` for `#?`.
        splicing: bool,
    },
    /// Fennel `#expr`, Clojure/Phel `#(...)`, Janet `|(...)`.
    HashFn,
    /// Janet `;x` => `(splice x)`.
    Splice,
    /// Janet `@x` (`@{}` table, `@[]` array, `@""` buffer).
    Mutable,
}

/// Whether a reader-macro form appeared in shorthand or long-hand call form.
#[derive(Debug, Clone, Copy, PartialEq, Eq, Hash)]
pub enum Notation {
    /// `'x`, `` `x ``, `,x`, `,@x`
    Shorthand,
    /// `(quote x)`, `(quasiquote x)`, ...
    Longhand,
}

/// Whether span `inner` lies within span `outer`.
pub open spec fn span_within(inner: Span, outer: Span) -> bool {
    outer.start <= inner.start && inner.end <= outer.end
}

/// Whether `text` is exactly the source bytes `[start, end)` of `src`.
pub open spec fn text_at(text: &str, src: Seq<u8>, start: int, end: int) -> bool {
    text.spec_bytes() == src.subrange(start, end)
}

impl<'a> Datum<'a> {
    /// The well-formedness of a datum read from source bytes `src`: its span
    /// lies in the source with both ends on character boundaries, and its
    /// `line` is the 1-based line of its start;
    /// every leaf's text is exactly the source bytes of its span (zero-copy,
    /// verbatim); and every child lies within its parent's span, with list
    /// items in source order.
    pub open spec fn wf(self, src: Seq<u8>) -> bool
        decreases self,
    {
        &&& self.span.start <= self.span.end <= src.len()
        &&& at_boundary(src, self.span.start as int)
        &&& at_boundary(src, self.span.end as int)
        &&& self.line == line_of(src, self.span.start as int)
        &&& match self.kind {
            DatumKind::Symbol(s) => text_at(s, src, self.span.start as int, self.span.end as int),
            DatumKind::Keyword(s) => text_at(s, src, self.span.start as int, self.span.end as int),
            DatumKind::Number(s) => text_at(s, src, self.span.start as int, self.span.end as int),
            DatumKind::Str(s) => text_at(s, src, self.span.start as int, self.span.end as int),
            DatumKind::Char(s) => text_at(s, src, self.span.start as int, self.span.end as int),
            DatumKind::Bool(_) => true,
            DatumKind::List { items, tail, dot, .. } => {
                &&& forall|i: int|
                    0 <= i < items.len() ==> (#[trigger] items@[i]).wf(src) && span_within(
                        items@[i].span,
                        self.span,
                    )
                &&& forall|i: int|
                    0 <= i < items.len() - 1 ==> (#[trigger] items@[i]).span.end
                        <= items@[i + 1].span.start
                &&& match tail {
                    Some(t) => {
                        &&& t.wf(src)
                        &&& span_within(t.span, self.span)
                        &&& items.len() > 0 ==> items@[items.len() - 1].span.end <= t.span.start
                    },
                    None => true,
                }
                &&& match dot {
                    Some(d) => span_within(d, self.span) && d.end == d.start + 1 && src[d.start as int] == 46u8,
                    None => true,
                }
            },
            DatumKind::Prefixed { inner, arg, .. } => {
                &&& inner.wf(src)
                &&& span_within(inner.span, self.span)
                &&& match arg {
                    Some(a) => a.wf(src) && span_within(a.span, self.span) && a.span.end
                        <= inner.span.start,
                    None => true,
                }
            },
            DatumKind::HashLiteral { tag, inner } => {
                &&& self.span.start + 1 + tag.spec_bytes().len() <= self.span.end
                &&& text_at(
                    tag,
                    src,
                    self.span.start + 1,
                    self.span.start + 1 + tag.spec_bytes().len(),
                )
                &&& match inner {
                    Some(d) => d.wf(src) && span_within(d.span, self.span),
                    None => true,
                }
            },
            DatumKind::Label { id, inner } => {
                &&& self.span.start + 1 + id.spec_bytes().len() <= self.span.end
                &&& text_at(id, src, self.span.start + 1, self.span.start + 1 + id.spec_bytes().len())
                &&& inner.wf(src)
                &&& span_within(inner.span, self.span)
            },
            DatumKind::LabelRef { id } => {
                &&& self.span.start + 1 + id.spec_bytes().len() <= self.span.end
                &&& text_at(id, src, self.span.start + 1, self.span.start + 1 + id.spec_bytes().len())
            },
        }
    }

    /// This datum's symbol text, if it is [`DatumKind::Symbol`].
    pub fn as_symbol(&self) -> (r: Option<&'a str>)
        ensures
            r == (match self.kind {
                DatumKind::Symbol(s) => Some(s),
                _ => None,
            }),
    {
        match self.kind {
            DatumKind::Symbol(s) => Some(s),
            _ => None,
        }
    }

    /// This datum's keyword text, if it is [`DatumKind::Keyword`].
    pub fn as_keyword(&self) -> (r: Option<&'a str>)
        ensures
            r == (match self.kind {
                DatumKind::Keyword(s) => Some(s),
                _ => None,
            }),
    {
        match self.kind {
            DatumKind::Keyword(s) => Some(s),
            _ => None,
        }
    }

    /// This datum's raw number text, if it is [`DatumKind::Number`].
    pub fn as_number(&self) -> (r: Option<&'a str>)
        ensures
            r == (match self.kind {
                DatumKind::Number(s) => Some(s),
                _ => None,
            }),
    {
        match self.kind {
            DatumKind::Number(s) => Some(s),
            _ => None,
        }
    }

    /// This datum's raw string text (including the surrounding quotes), if it
    /// is [`DatumKind::Str`].
    pub fn as_str(&self) -> (r: Option<&'a str>)
        ensures
            r == (match self.kind {
                DatumKind::Str(s) => Some(s),
                _ => None,
            }),
    {
        match self.kind {
            DatumKind::Str(s) => Some(s),
            _ => None,
        }
    }

    /// This datum's raw character-literal text (including its lead form), if
    /// it is [`DatumKind::Char`].
    pub fn as_char(&self) -> (r: Option<&'a str>)
        ensures
            r == (match self.kind {
                DatumKind::Char(s) => Some(s),
                _ => None,
            }),
    {
        match self.kind {
            DatumKind::Char(s) => Some(s),
            _ => None,
        }
    }

    /// This datum's items, if it is a [`DatumKind::List`] of any delimiter
    /// shape.
    pub fn items(&self) -> (r: Option<&[Datum<'a>]>)
        ensures
            match self.kind {
                DatumKind::List { items, .. } => r.is_some() && r.unwrap()@ == items@,
                _ => r.is_none(),
            },
    {
        match &self.kind {
            DatumKind::List { items, .. } => Some(items.as_slice()),
            _ => None,
        }
    }

    /// The head symbol of this datum's items, if this is a list whose first
    /// item is a symbol.
    pub fn head_symbol(&self) -> (r: Option<&'a str>)
        ensures
            r == self.spec_head_symbol(),
    {
        match &self.kind {
            DatumKind::List { items, .. } => {
                if items.len() > 0 {
                    items[0].as_symbol()
                } else {
                    None
                }
            },
            _ => None,
        }
    }

    /// The head symbol of a list whose first item is a symbol.
    pub open spec fn spec_head_symbol(self) -> Option<&'a str> {
        match self.kind {
            DatumKind::List { items, .. } => if items.len() > 0 {
                match items@[0].kind {
                    DatumKind::Symbol(s) => Some(s),
                    _ => None,
                }
            } else {
                None
            },
            _ => None,
        }
    }

    /// The byte span of the `.` separator, if this is an improper/dotted list
    /// `(a . b)`. `None` for a proper list or any non-list.
    pub fn dot_span(&self) -> (r: Option<Span>)
        ensures
            r == (match self.kind {
                DatumKind::List { dot, .. } => dot,
                _ => None,
            }),
    {
        match &self.kind {
            DatumKind::List { dot, .. } => *dot,
            _ => None,
        }
    }

    /// This datum's source text — sugar for `self.span.text(source)`.
    pub fn text<'s>(&self, source: &'s str) -> (r: &'s str)
        requires
            self.span.sliceable(source.spec_bytes()),
        ensures
            r.spec_bytes() == source.spec_bytes().subrange(
                self.span.start as int,
                self.span.end as int,
            ),
    {
        self.span.text(source)
    }
}

} // verus!
