//! The lexer's output: [`Token`] and [`TokenKind`].

use vstd::prelude::*;

use crate::datum::{Delim, Prefix};
use crate::span::Span;

verus! {

/// One lexeme. Tokens tile the input — every byte belongs to exactly one token,
/// whitespace and comments included. Carries only a span; text is recovered by
/// slicing the source.
#[derive(Debug, Clone, Copy, PartialEq)]
pub struct Token {
    /// The token's classification.
    pub kind: TokenKind,
    /// The token's byte range.
    pub span: Span,
}

/// The lexical state an unterminated construct was in when input ended.
#[derive(Debug, Clone, Copy, PartialEq, Eq, Hash)]
pub enum UnterminatedKind {
    /// A `"..."` string (or a `#"..."` string-shaped literal).
    Str,
    /// A `|...|` piped symbol, or a Guile `#{...}#` extended symbol.
    PipedSymbol,
    /// A block comment, with the number of levels still open.
    BlockComment {
        /// How many openers were still unmatched at end of input.
        depth: u32,
    },
    /// A Janet backtick long string.
    LongString,
    /// A Hy `#[[...]]` bracket string.
    BracketString,
    /// A Gauche `#[...]` character set.
    CharSet,
    /// A Gauche/Mosh `#/.../` regular expression.
    Regex,
}

/// The classification of a [`Token`].
#[derive(Debug, Clone, Copy, PartialEq)]
pub enum TokenKind {
    /// A run of whitespace.
    Whitespace,
    /// A line comment (not including its terminating newline).
    LineComment,
    /// A complete block comment.
    BlockComment,
    /// A leading `#lang <name>` directive line (Racket).
    LangLine,
    /// An opening delimiter.
    Open(Delim),
    /// A closing delimiter.
    Close(Delim),
    /// A `#`-led opening such as `#(` or `#u8(`; the span covers `#`..`(` and
    /// the reader derives the tag from it.
    HashOpen(Delim),
    /// A `#tag` tagged-literal marker; the reader attaches it to the following
    /// datum. The span covers `#`..end of tag.
    HashTag,
    /// A string literal (or an opaque string-shaped leaf), including its
    /// delimiters.
    Str,
    /// A character literal such as `#\a` or `#\space`.
    Char,
    /// A boolean.
    Bool(bool),
    /// A symbol or number; the reader classifies which.
    Atom,
    /// A reader-macro prefix applied to the following datum.
    Prefix(Prefix),
    /// A datum label definition marker `#n=`.
    Label,
    /// A datum label reference `#n#`.
    LabelRef,
    /// A construct still open at end of input, with the state it was in.
    Unterminated(UnterminatedKind),
}

} // verus!
