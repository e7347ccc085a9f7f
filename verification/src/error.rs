//! Parse diagnostics.

use vstd::prelude::*;
use vstd::string::*;

use crate::datum::{Delim, Prefix};
use crate::span::Span;

verus! {

/// A structured classification of a parse diagnostic.
///
/// Variants may carry **non-positional** payload (e.g. the expected/found
/// delimiter) but never a span-derived value, so a kind stays stable across
/// the position shifts an edit causes.
#[derive(Debug, Clone, PartialEq, Eq, Hash)]
#[non_exhaustive]
pub enum ErrorKind {
    /// A closing delimiter with no matching open (e.g. `)` at top level).
    UnexpectedDelimiter {
        /// The delimiter shape that was found.
        found: Delim,
    },
    /// A closing delimiter that does not match the list it closes.
    MismatchedDelimiter {
        /// The delimiter the open list expected.
        expected: Delim,
        /// The delimiter actually found.
        found: Delim,
    },
    /// A list opened but never closed before end of input.
    UnclosedList {
        /// The shape of the unclosed opening delimiter.
        open: Delim,
    },
    /// A token the lexer could not finish. Carries the offending text.
    MalformedToken {
        /// The token's verbatim text.
        text: String,
    },
    /// A reader-macro prefix with no datum following it.
    DanglingPrefix {
        /// The prefix left dangling.
        prefix: Prefix,
    },
    /// A `#tag` tagged literal with no datum following it.
    DanglingTag,
    /// A `#n=` datum label with no datum following it.
    DanglingLabel,
    /// A `.` inside a list with no tail datum after it.
    DanglingDot,
    /// Items after a dotted tail (`(a . b c)`), or a second dot
    /// (`(a . b . c)`), in a dialect without the infix-dot convention.
    ItemAfterDottedTail,
    /// Nesting exceeded the reader's depth cap; the too-deep subtree is
    /// skipped and this is reported once.
    DepthLimitExceeded,
}

/// The opening glyph for a delimiter shape.
pub open spec fn spec_open_glyph(delim: Delim) -> &'static str {
    match delim {
        Delim::Round => "(",
        Delim::Square => "[",
        Delim::Curly => "{",
        Delim::SetBrace => "#{",
    }
}

/// The closing glyph for a delimiter shape.
pub open spec fn spec_close_glyph(delim: Delim) -> &'static str {
    match delim {
        Delim::Round => ")",
        Delim::Square => "]",
        Delim::Curly => "}",
        Delim::SetBrace => "}",
    }
}

/// The opening glyph for a delimiter shape (for messages).
pub fn open_glyph(delim: Delim) -> (s: &'static str)
    ensures
        s == spec_open_glyph(delim),
{
    match delim {
        Delim::Round => "(",
        Delim::Square => "[",
        Delim::Curly => "{",
        Delim::SetBrace => "#{",
    }
}

/// The closing glyph for a delimiter shape (for messages).
pub fn close_glyph(delim: Delim) -> (s: &'static str)
    ensures
        s == spec_close_glyph(delim),
{
    match delim {
        Delim::Round => ")",
        Delim::Square => "]",
        Delim::Curly => "}",
        Delim::SetBrace => "}",
    }
}

/// The name of a prefix role, as its debug rendering.
pub open spec fn spec_prefix_name(p: Prefix) -> &'static str {
    match p {
        Prefix::Quote => "Quote",
        Prefix::Quasiquote => "Quasiquote",
        Prefix::Unquote => "Unquote",
        Prefix::UnquoteSplicing => "UnquoteSplicing",
        Prefix::Discard => "Discard",
        Prefix::VarQuote => "VarQuote",
        Prefix::FunctionQuote => "FunctionQuote",
        Prefix::Deref => "Deref",
        Prefix::Meta => "Meta",
        Prefix::ReadEval => "ReadEval",
        Prefix::FeatureConditional { present } => if present {
            "FeatureConditional { present: true }"
        } else {
            "FeatureConditional { present: false }"
        },
        Prefix::ReaderConditional { splicing } => if splicing {
            "ReaderConditional { splicing: true }"
        } else {
            "ReaderConditional { splicing: false }"
        },
        Prefix::HashFn => "HashFn",
        Prefix::Splice => "Splice",
        Prefix::Mutable => "Mutable",
    }
}

/// The name of a prefix role, as its debug rendering.
pub fn prefix_name(p: Prefix) -> (s: &'static str)
    ensures
        s == spec_prefix_name(p),
{
    match p {
        Prefix::Quote => "Quote",
        Prefix::Quasiquote => "Quasiquote",
        Prefix::Unquote => "Unquote",
        Prefix::UnquoteSplicing => "UnquoteSplicing",
        Prefix::Discard => "Discard",
        Prefix::VarQuote => "VarQuote",
        Prefix::FunctionQuote => "FunctionQuote",
        Prefix::Deref => "Deref",
        Prefix::Meta => "Meta",
        Prefix::ReadEval => "ReadEval",
        Prefix::FeatureConditional { present } => if present {
            "FeatureConditional { present: true }"
        } else {
            "FeatureConditional { present: false }"
        },
        Prefix::ReaderConditional { splicing } => if splicing {
            "ReaderConditional { splicing: true }"
        } else {
            "ReaderConditional { splicing: false }"
        },
        Prefix::HashFn => "HashFn",
        Prefix::Splice => "Splice",
        Prefix::Mutable => "Mutable",
    }
}

/// The human-readable message for a diagnostic kind.
pub open spec fn spec_kind_message(k: ErrorKind) -> Seq<char> {
    match k {
        ErrorKind::UnexpectedDelimiter { found } => "unexpected closing delimiter `"@
            + spec_close_glyph(found)@ + "`"@,
        ErrorKind::MismatchedDelimiter { expected, found } =>
            "mismatched closing delimiter: expected `"@ + spec_close_glyph(expected)@
                + "`, found `"@ + spec_close_glyph(found)@ + "`"@,
        ErrorKind::UnclosedList { open } => "unclosed list opened with `"@ + spec_open_glyph(
            open,
        )@ + "`"@,
        ErrorKind::MalformedToken { text } => "malformed token `"@ + text@ + "`"@,
        ErrorKind::DanglingPrefix { prefix } => spec_prefix_name(prefix)@
            + " prefix with no following datum"@,
        ErrorKind::DanglingTag => "tagged literal with no following datum"@,
        ErrorKind::DanglingLabel => "datum label with no following datum"@,
        ErrorKind::DanglingDot => "dotted list with no tail datum"@,
        ErrorKind::ItemAfterDottedTail => "item after dotted tail"@,
        ErrorKind::DepthLimitExceeded => "nesting too deep; stopped descending"@,
    }
}

impl ErrorKind {
    /// The human-readable message for this diagnostic kind.
    pub fn message(&self) -> (m: String)
        ensures
            m@ == spec_kind_message(*self),
    {
        match self {
            ErrorKind::UnexpectedDelimiter { found } => {
                let mut m = String::from_str("unexpected closing delimiter `");
                m.append(close_glyph(*found));
                m.append("`");
                m
            },
            ErrorKind::MismatchedDelimiter { expected, found } => {
                let mut m = String::from_str("mismatched closing delimiter: expected `");
                m.append(close_glyph(*expected));
                m.append("`, found `");
                m.append(close_glyph(*found));
                m.append("`");
                m
            },
            ErrorKind::UnclosedList { open } => {
                let mut m = String::from_str("unclosed list opened with `");
                m.append(open_glyph(*open));
                m.append("`");
                m
            },
            ErrorKind::MalformedToken { text } => {
                let mut m = String::from_str("malformed token `");
                m.append(text.as_str());
                m.append("`");
                m
            },
            ErrorKind::DanglingPrefix { prefix } => {
                let mut m = String::from_str(prefix_name(*prefix));
                m.append(" prefix with no following datum");
                m
            },
            ErrorKind::DanglingTag => String::from_str("tagged literal with no following datum"),
            ErrorKind::DanglingLabel => String::from_str("datum label with no following datum"),
            ErrorKind::DanglingDot => String::from_str("dotted list with no tail datum"),
            ErrorKind::ItemAfterDottedTail => String::from_str("item after dotted tail"),
            ErrorKind::DepthLimitExceeded => String::from_str("nesting too deep; stopped descending"),
        }
    }
}

/// A non-fatal parse diagnostic. The reader is fault-tolerant: it returns a
/// partial tree plus a list of these, resynchronizing at the next top-level
/// form.
#[derive(Debug, Clone, PartialEq, Eq, Hash)]
pub struct ParseError {
    /// Byte range the diagnostic points at.
    pub span: Span,
    /// 1-based line.
    pub line: u32,
    /// The structured classification of the diagnostic.
    pub kind: ErrorKind,
}

impl ParseError {
    /// The human-readable message: `line N: <kind message>`.
    pub fn message(&self) -> (m: String)
        ensures
            m@ == "line "@ + crate::source::spec_decimal(self.line as nat) + ": "@
                + spec_kind_message(self.kind),
    {
        let mut m = String::from_str("line ");
        let n = crate::source::decimal(self.line);
        m.append(n.as_str());
        m.append(": ");
        let k = self.kind.message();
        m.append(k.as_str());
        m
    }
}

} // verus!
