//! A reader (lexer and parser) for S-expression syntax across many Lisp dialects.

pub mod annotate;
pub mod datum;
pub mod detect;
pub mod emacs;
pub mod error;
pub mod indent;
pub mod lexer;
pub mod line_index;
pub mod options;
pub mod reader;
pub mod reading;
pub mod shape;
pub mod source;
pub mod span;
pub mod token;
pub mod walk;

pub use datum::{Datum, DatumKind, Delim, Notation, Prefix};
pub use error::{ErrorKind, ParseError};
pub use lexer::{lex, Lexer};
pub use line_index::{LineIndex, Terminator};
pub use options::{
    BlockComment, CharRoles, CharSyntax, DelimRole, Dialect, HashBracket, HashParen, Options,
    ParseDialectError,
};
pub use reader::{parse, parse_form_at, read_all, FormAt, Parsed};
pub use span::Span;
pub use token::{Token, TokenKind, UnterminatedKind};
pub use walk::{code_nodes, walk, walk_regions, Class, CodeNodes, Region, Walk};
