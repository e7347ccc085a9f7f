//! Dialect-configurable reader/lexer settings.
//!
//! [`Options`] is the orthogonal, individually-toggleable syntax configuration
//! the lexer and reader share. A [`Dialect`] is just a named preset
//! constructor.

use vstd::prelude::*;
use vstd::string::*;

use crate::datum::Prefix;

verus! {

/// The role of a bracket pair `[]` or `{}` in a dialect.
///
/// The reader records delimiter *shape*, not meaning, so for the tree only the
/// `Ordinary` distinction (is it a delimiter at all?) affects parsing.
#[derive(Debug, Clone, Copy, PartialEq, Eq, Hash)]
pub enum DelimRole {
    /// An alternate list delimiter (Scheme `[]`).
    List,
    /// A vector literal (Emacs Lisp `[]`).
    Vector,
    /// A map literal (Clojure `{}`).
    Table,
    /// Not a delimiter — an ordinary symbol-constituent character (e.g. ISLisp).
    Ordinary,
}

impl DelimRole {
    /// Whether this role makes the bracket an active delimiter (not `Ordinary`).
    pub fn is_delimiter(self) -> (b: bool)
        ensures
            b == !(self is Ordinary),
    {
        match self {
            DelimRole::Ordinary => false,
            _ => true,
        }
    }
}

/// A block-comment delimiter pair.
#[derive(Debug, Clone, Copy, PartialEq, Eq)]
pub struct BlockComment {
    /// The opening delimiter (e.g. `#|`).
    pub open: &'static str,
    /// The closing delimiter (e.g. `|#`).
    pub close: &'static str,
    /// Whether the pair nests.
    pub nestable: bool,
}

/// How character literals are introduced.
#[derive(Debug, Clone, Copy, PartialEq, Eq, Hash)]
pub enum CharSyntax {
    /// `#\a`, `#\space` (Scheme, Common Lisp).
    HashBackslash,
    /// `\a`, `\newline` (Clojure).
    Backslash,
    /// `?a`, `?\n`, `?\C-x` (Emacs Lisp).
    Question,
}

/// What `#(` means in a dialect.
#[derive(Debug, Clone, Copy, PartialEq, Eq, Hash)]
pub enum HashParen {
    /// `#(...)` is a vector literal (data) — Scheme.
    Vector,
    /// `#(...)` is an anonymous-function reader macro (code) — Clojure/Phel.
    HashFn,
    /// `#(` is not special.
    Plain,
}

/// What `#[` opens in a dialect.
#[derive(Debug, Clone, Copy, PartialEq, Eq, Hash)]
pub enum HashBracket {
    /// `#[...]` is a Gauche character-set literal, consumed as an opaque leaf.
    CharSet,
    /// `#[DELIM[...]DELIM]` is a Hy bracket string.
    BracketString,
    /// `#[` has no dedicated meaning; falls back to the [`Options::square`] role.
    Plain,
}

/// The per-dialect table of reader-macro prefix glyphs.
#[derive(Debug, Clone, PartialEq)]
#[non_exhaustive]
pub struct CharRoles {
    /// Glyph for `quote` shorthand, if any.
    pub quote: Option<char>,
    /// Glyph for `quasiquote` shorthand, if any.
    pub quasiquote: Option<char>,
    /// Glyph for `unquote` shorthand, if any.
    pub unquote: Option<char>,
    /// Suffix that turns `unquote` into `unquote-splicing` (e.g. `,` + `@`).
    pub splicing_suffix: char,
    /// Glyph for a deref prefix (Clojure `@`), if any.
    pub deref: Option<char>,
    /// Glyph for a metadata prefix (Clojure `^`), if any.
    pub meta: Option<char>,
    /// Glyph for a splice prefix (Janet `;`), if any.
    pub splice: Option<char>,
    /// Glyph for a mutable-marker prefix (Janet `@`), if any.
    pub mutable: Option<char>,
    /// Glyph for a bare short-function prefix (Janet `|`), if any.
    pub short_fn: Option<char>,
}

impl CharRoles {
    /// The table of [`CharRoles::scheme`], as a value.
    pub open spec fn spec_scheme() -> CharRoles {
        CharRoles {
            quote: Some('\''),
            quasiquote: Some('`'),
            unquote: Some(','),
            splicing_suffix: '@',
            deref: None,
            meta: None,
            splice: None,
            mutable: None,
            short_fn: None,
        }
    }

    /// The Scheme/Lisp-family base table: `'` quote, `` ` `` quasiquote, `,`
    /// unquote with `@` as the splicing suffix, and no deref/meta/splice/
    /// mutable/short-fn glyphs.
    pub fn scheme() -> (r: Self)
        ensures
            r == CharRoles::spec_scheme(),
    {
        CharRoles {
            quote: Some('\''),
            quasiquote: Some('`'),
            unquote: Some(','),
            splicing_suffix: '@',
            deref: None,
            meta: None,
            splice: None,
            mutable: None,
            short_fn: None,
        }
    }

    /// The table of [`CharRoles::clojure`], as a value.
    pub open spec fn spec_clojure() -> CharRoles {
        CharRoles { unquote: Some('~'), deref: Some('@'), meta: Some('^'), ..CharRoles::spec_scheme() }
    }

    /// The Clojure-family base table: the Scheme quote family, `~` for
    /// unquote, `@` deref, and `^` meta.
    pub fn clojure() -> (r: Self)
        ensures
            r == CharRoles::spec_clojure(),
    {
        CharRoles { unquote: Some('~'), deref: Some('@'), meta: Some('^'), ..CharRoles::scheme() }
    }
}

/// Reader/lexer configuration. Construct via a preset such as
/// [`Options::scheme`] or [`Options::clojure`], then adjust fields if needed.
#[derive(Debug, Clone, PartialEq)]
#[non_exhaustive]
pub struct Options {
    /// Character that starts a line comment (`;` for most; `#` for Janet).
    pub line_comment: char,
    /// Whether a comma is whitespace (Clojure/Phel).
    pub comma_is_whitespace: bool,
    /// Block-comment delimiters, if any.
    pub block_comment: Option<BlockComment>,
    /// Whether `#;` discards the next datum (Scheme).
    pub datum_comment: bool,
    /// Whether `#_` discards the next datum (Clojure/Phel).
    pub discard_underscore: bool,
    /// Whether `#` introduces reader syntax (`#t`, `#\`, `#(`, ...).
    pub hash_syntax: bool,
    /// Role of `[` `]`.
    pub square: DelimRole,
    /// Role of `{` `}`.
    pub curly: DelimRole,
    /// Whether `#{` opens a set literal.
    pub set_literal: bool,
    /// Whether `#"..."` is lexed as an opaque string leaf.
    pub regex_literal: bool,
    /// Whether `#tag <form>` is a tagged literal (Clojure `#inst`, `#uuid`, ...).
    pub tagged_literals: bool,
    /// The prefix `#'` maps to, if any (Clojure `VarQuote`, Common Lisp
    /// `FunctionQuote`).
    pub hash_apostrophe: Option<Prefix>,
    /// Whether `#?`/`#?@` are reader conditionals wrapping the next list (Clojure).
    pub reader_conditional: bool,
    /// Whether `#+`/`#-` are feature conditionals: a feature test followed by a
    /// guarded form (Common Lisp). The reader reads two data.
    pub feature_conditional: bool,
    /// Whether `#.` is a read-time-eval prefix (Common Lisp).
    pub read_eval: bool,
    /// Whether `\` escapes the next character inside a symbol (Common Lisp).
    pub symbol_escape: bool,
    /// Whether `#t`/`#f`/`#true`/`#false` are booleans.
    pub booleans: bool,
    /// How character literals are written, if the dialect has them.
    pub char_syntax: Option<CharSyntax>,
    /// What `#(` means.
    pub hash_paren: HashParen,
    /// Whether `:foo` is a keyword.
    pub keyword_colon: bool,
    /// Whether `#:foo` is a keyword (Racket, Guile).
    pub hash_keyword: bool,
    /// Whether a leading `#lang <name>` line is captured (Racket).
    pub lang_line: bool,
    /// Whether a leading `#!`-line is a shebang comment (Racket scripts).
    pub shebang_line: bool,
    /// Whether `|...|` is a piped symbol.
    pub piped_symbols: bool,
    /// Whether `#n=` / `#n#` datum labels are recognized.
    pub datum_labels: bool,
    /// Whether a lone `.` inside a list marks a dotted/improper tail `(a . b)`.
    pub dotted_pairs: bool,
    /// The dialect's reader-macro prefix glyph table.
    pub roles: CharRoles,
    /// Whether a run of backticks delimits a long string (Janet).
    pub long_string_backtick: bool,
    /// What `#[` opens.
    pub hash_bracket: HashBracket,
    /// Whether `#/.../` (with an optional trailing `i` flag) is a regexp
    /// literal (Gauche, Mosh), consumed as an opaque leaf.
    pub regex_slash: bool,
    /// Whether `#vu8(...)` opens a bytevector (R6RS spelling; Mosh).
    pub bytevector_vu8: bool,
    /// Whether a token ending in `:` is a keyword (`foo:` — Gambit/Gerbil).
    pub keyword_trailing_colon: bool,
    /// Whether `(quote x)` and friends are folded into a longhand
    /// [`DatumKind::Prefixed`](crate::DatumKind::Prefixed).
    pub fold_longhand: bool,
    /// Whether the longhand fold matches the head symbol case-insensitively.
    pub fold_case_insensitive: bool,
    /// Whether `#{sym}#` extended symbols are recognized (Guile).
    pub hash_curly_symbol: bool,
    /// Whether a second dot in a list (`(dom . -> . rng)`) is legitimate
    /// (Racket's infix dot) rather than reported as an item after the tail.
    pub dotted_pairs_infix: bool,
    /// Keep `#_`/`#;`-discarded forms in the tree as
    /// [`Prefix::Discard`]-prefixed data instead of dropping them, so a
    /// round-trip consumer still sees their span and shape.
    pub keep_discarded: bool,
}

impl Options {
    /// The preset of [`Options::scheme`], as a value.
    pub open spec fn spec_scheme() -> Options {
        Options {
            line_comment: ';',
            comma_is_whitespace: false,
            block_comment: Some(BlockComment { open: "#|", close: "|#", nestable: true }),
            datum_comment: true,
            discard_underscore: false,
            hash_syntax: true,
            square: DelimRole::List,
            curly: DelimRole::Ordinary,
            set_literal: false,
            regex_literal: false,
            tagged_literals: false,
            hash_apostrophe: None,
            reader_conditional: false,
            feature_conditional: false,
            read_eval: false,
            symbol_escape: false,
            booleans: true,
            char_syntax: Some(CharSyntax::HashBackslash),
            hash_paren: HashParen::Vector,
            keyword_colon: false,
            hash_keyword: false,
            lang_line: false,
            shebang_line: false,
            piped_symbols: true,
            datum_labels: true,
            dotted_pairs: true,
            roles: CharRoles::spec_scheme(),
            long_string_backtick: false,
            hash_bracket: HashBracket::Plain,
            regex_slash: false,
            bytevector_vu8: false,
            keyword_trailing_colon: false,
            fold_longhand: true,
            fold_case_insensitive: false,
            hash_curly_symbol: false,
            dotted_pairs_infix: false,
            keep_discarded: false,
        }
    }

    /// R7RS-small Scheme.
    pub fn scheme() -> (o: Self)
        ensures
            o == Options::spec_scheme(),
    {
        Options {
            line_comment: ';',
            comma_is_whitespace: false,
            block_comment: Some(BlockComment { open: "#|", close: "|#", nestable: true }),
            datum_comment: true,
            discard_underscore: false,
            hash_syntax: true,
            square: DelimRole::List,
            curly: DelimRole::Ordinary,
            set_literal: false,
            regex_literal: false,
            tagged_literals: false,
            hash_apostrophe: None,
            reader_conditional: false,
            feature_conditional: false,
            read_eval: false,
            symbol_escape: false,
            booleans: true,
            char_syntax: Some(CharSyntax::HashBackslash),
            hash_paren: HashParen::Vector,
            keyword_colon: false,
            hash_keyword: false,
            lang_line: false,
            shebang_line: false,
            piped_symbols: true,
            datum_labels: true,
            dotted_pairs: true,
            roles: CharRoles::scheme(),
            long_string_backtick: false,
            hash_bracket: HashBracket::Plain,
            regex_slash: false,
            bytevector_vu8: false,
            keyword_trailing_colon: false,
            fold_longhand: true,
            fold_case_insensitive: false,
            hash_curly_symbol: false,
            dotted_pairs_infix: false,
            keep_discarded: false,
        }
    }

    /// The preset of [`Options::clojure`], as a value.
    pub open spec fn spec_clojure() -> Options {
        Options {
            line_comment: ';',
            comma_is_whitespace: true,
            block_comment: None,
            datum_comment: false,
            discard_underscore: true,
            hash_syntax: true,
            square: DelimRole::Vector,
            curly: DelimRole::Table,
            set_literal: true,
            regex_literal: true,
            tagged_literals: true,
            hash_apostrophe: Some(Prefix::VarQuote),
            reader_conditional: true,
            feature_conditional: false,
            read_eval: false,
            symbol_escape: false,
            booleans: false,
            char_syntax: Some(CharSyntax::Backslash),
            hash_paren: HashParen::HashFn,
            keyword_colon: true,
            hash_keyword: false,
            lang_line: false,
            shebang_line: false,
            piped_symbols: false,
            datum_labels: false,
            dotted_pairs: false,
            roles: CharRoles::spec_clojure(),
            long_string_backtick: false,
            hash_bracket: HashBracket::Plain,
            regex_slash: false,
            bytevector_vu8: false,
            keyword_trailing_colon: false,
            fold_longhand: false,
            fold_case_insensitive: false,
            hash_curly_symbol: false,
            dotted_pairs_infix: false,
            keep_discarded: false,
        }
    }

    /// Clojure.
    pub fn clojure() -> (o: Self)
        ensures
            o == Options::spec_clojure(),
    {
        Options {
            line_comment: ';',
            comma_is_whitespace: true,
            block_comment: None,
            datum_comment: false,
            discard_underscore: true,
            hash_syntax: true,
            square: DelimRole::Vector,
            curly: DelimRole::Table,
            set_literal: true,
            regex_literal: true,
            tagged_literals: true,
            hash_apostrophe: Some(Prefix::VarQuote),
            reader_conditional: true,
            feature_conditional: false,
            read_eval: false,
            symbol_escape: false,
            booleans: false,
            char_syntax: Some(CharSyntax::Backslash),
            hash_paren: HashParen::HashFn,
            keyword_colon: true,
            hash_keyword: false,
            lang_line: false,
            shebang_line: false,
            piped_symbols: false,
            datum_labels: false,
            dotted_pairs: false,
            roles: CharRoles::clojure(),
            long_string_backtick: false,
            hash_bracket: HashBracket::Plain,
            regex_slash: false,
            bytevector_vu8: false,
            keyword_trailing_colon: false,
            fold_longhand: false,
            fold_case_insensitive: false,
            hash_curly_symbol: false,
            dotted_pairs_infix: false,
            keep_discarded: false,
        }
    }

    /// The preset of [`Options::common_lisp`], as a value.
    pub open spec fn spec_common_lisp() -> Options {
        Options {
            line_comment: ';',
            comma_is_whitespace: false,
            block_comment: Some(BlockComment { open: "#|", close: "|#", nestable: true }),
            datum_comment: false,
            discard_underscore: false,
            hash_syntax: true,
            square: DelimRole::Ordinary,
            curly: DelimRole::Ordinary,
            set_literal: false,
            regex_literal: false,
            tagged_literals: false,
            hash_apostrophe: Some(Prefix::FunctionQuote),
            reader_conditional: false,
            feature_conditional: true,
            read_eval: true,
            symbol_escape: true,
            booleans: false,
            char_syntax: Some(CharSyntax::HashBackslash),
            hash_paren: HashParen::Vector,
            keyword_colon: true,
            hash_keyword: false,
            lang_line: false,
            shebang_line: false,
            piped_symbols: true,
            datum_labels: true,
            dotted_pairs: true,
            roles: CharRoles::spec_scheme(),
            long_string_backtick: false,
            hash_bracket: HashBracket::Plain,
            regex_slash: false,
            bytevector_vu8: false,
            keyword_trailing_colon: false,
            fold_longhand: true,
            fold_case_insensitive: true,
            hash_curly_symbol: false,
            dotted_pairs_infix: false,
            keep_discarded: false,
        }
    }

    /// Common Lisp (ANSI).
    pub fn common_lisp() -> (o: Self)
        ensures
            o == Options::spec_common_lisp(),
    {
        Options {
            line_comment: ';',
            comma_is_whitespace: false,
            block_comment: Some(BlockComment { open: "#|", close: "|#", nestable: true }),
            datum_comment: false,
            discard_underscore: false,
            hash_syntax: true,
            square: DelimRole::Ordinary,
            curly: DelimRole::Ordinary,
            set_literal: false,
            regex_literal: false,
            tagged_literals: false,
            hash_apostrophe: Some(Prefix::FunctionQuote),
            reader_conditional: false,
            feature_conditional: true,
            read_eval: true,
            symbol_escape: true,
            booleans: false,
            char_syntax: Some(CharSyntax::HashBackslash),
            hash_paren: HashParen::Vector,
            keyword_colon: true,
            hash_keyword: false,
            lang_line: false,
            shebang_line: false,
            piped_symbols: true,
            datum_labels: true,
            dotted_pairs: true,
            roles: CharRoles::scheme(),
            long_string_backtick: false,
            hash_bracket: HashBracket::Plain,
            regex_slash: false,
            bytevector_vu8: false,
            keyword_trailing_colon: false,
            fold_longhand: true,
            fold_case_insensitive: true,
            hash_curly_symbol: false,
            dotted_pairs_infix: false,
            keep_discarded: false,
        }
    }

    /// The preset of [`Options::emacs_lisp`], as a value.
    pub open spec fn spec_emacs_lisp() -> Options {
        Options {
            line_comment: ';',
            comma_is_whitespace: false,
            block_comment: None,
            datum_comment: false,
            discard_underscore: false,
            hash_syntax: true,
            square: DelimRole::Vector,
            curly: DelimRole::Ordinary,
            set_literal: false,
            regex_literal: false,
            tagged_literals: false,
            hash_apostrophe: Some(Prefix::FunctionQuote),
            reader_conditional: false,
            feature_conditional: false,
            read_eval: false,
            symbol_escape: true,
            booleans: false,
            char_syntax: Some(CharSyntax::Question),
            hash_paren: HashParen::Vector,
            keyword_colon: true,
            hash_keyword: false,
            lang_line: false,
            shebang_line: false,
            piped_symbols: false,
            datum_labels: true,
            dotted_pairs: true,
            roles: CharRoles::spec_scheme(),
            long_string_backtick: false,
            hash_bracket: HashBracket::Plain,
            regex_slash: false,
            bytevector_vu8: false,
            keyword_trailing_colon: false,
            fold_longhand: true,
            fold_case_insensitive: false,
            hash_curly_symbol: false,
            dotted_pairs_infix: false,
            keep_discarded: false,
        }
    }

    /// Emacs Lisp.
    pub fn emacs_lisp() -> (o: Self)
        ensures
            o == Options::spec_emacs_lisp(),
    {
        Options {
            line_comment: ';',
            comma_is_whitespace: false,
            block_comment: None,
            datum_comment: false,
            discard_underscore: false,
            hash_syntax: true,
            square: DelimRole::Vector,
            curly: DelimRole::Ordinary,
            set_literal: false,
            regex_literal: false,
            tagged_literals: false,
            hash_apostrophe: Some(Prefix::FunctionQuote),
            reader_conditional: false,
            feature_conditional: false,
            read_eval: false,
            symbol_escape: true,
            booleans: false,
            char_syntax: Some(CharSyntax::Question),
            hash_paren: HashParen::Vector,
            keyword_colon: true,
            hash_keyword: false,
            lang_line: false,
            shebang_line: false,
            piped_symbols: false,
            datum_labels: true,
            dotted_pairs: true,
            roles: CharRoles::scheme(),
            long_string_backtick: false,
            hash_bracket: HashBracket::Plain,
            regex_slash: false,
            bytevector_vu8: false,
            keyword_trailing_colon: false,
            fold_longhand: true,
            fold_case_insensitive: false,
            hash_curly_symbol: false,
            dotted_pairs_infix: false,
            keep_discarded: false,
        }
    }

    /// The preset of [`Options::racket`], as a value.
    pub open spec fn spec_racket() -> Options {
        Options {
            curly: DelimRole::List,
            hash_apostrophe: Some(Prefix::VarQuote),
            symbol_escape: true,
            hash_keyword: true,
            lang_line: true,
            shebang_line: true,
            dotted_pairs_infix: true,
            keep_discarded: false,
            ..Options::spec_scheme()
        }
    }

    /// Racket: the Scheme surface with `#lang`, `#:` keywords, `[]`/`{}` as lists, `#'` syntax, and the infix dot.
    pub fn racket() -> (o: Self)
        ensures
            o == Options::spec_racket(),
    {
        Options {
            curly: DelimRole::List,
            hash_apostrophe: Some(Prefix::VarQuote),
            symbol_escape: true,
            hash_keyword: true,
            lang_line: true,
            shebang_line: true,
            dotted_pairs_infix: true,
            keep_discarded: false,
            ..Options::scheme()
        }
    }

    /// The preset of [`Options::janet`], as a value.
    pub open spec fn spec_janet() -> Options {
        Options {
            line_comment: '#',
            block_comment: None,
            datum_comment: false,
            hash_syntax: false,
            curly: DelimRole::Table,
            booleans: false,
            char_syntax: None,
            hash_paren: HashParen::Plain,
            keyword_colon: true,
            piped_symbols: false,
            datum_labels: false,
            dotted_pairs: false,
            roles: CharRoles {
                quasiquote: Some('~'),
                splice: Some(';'),
                mutable: Some('@'),
                short_fn: Some('|'),
                ..CharRoles::spec_scheme()
            },
            long_string_backtick: true,
            fold_longhand: false,
            ..Options::spec_scheme()
        }
    }

    /// Janet: `#` is the line comment, `;` is splice, `~` is quasiquote.
    pub fn janet() -> (o: Self)
        ensures
            o == Options::spec_janet(),
    {
        Options {
            line_comment: '#',
            block_comment: None,
            datum_comment: false,
            hash_syntax: false,
            curly: DelimRole::Table,
            booleans: false,
            char_syntax: None,
            hash_paren: HashParen::Plain,
            keyword_colon: true,
            piped_symbols: false,
            datum_labels: false,
            dotted_pairs: false,
            roles: CharRoles {
                quasiquote: Some('~'),
                splice: Some(';'),
                mutable: Some('@'),
                short_fn: Some('|'),
                ..CharRoles::scheme()
            },
            long_string_backtick: true,
            fold_longhand: false,
            ..Options::scheme()
        }
    }

    /// The preset of [`Options::hy`], as a value.
    pub open spec fn spec_hy() -> Options {
        Options {
            block_comment: None,
            datum_comment: false,
            discard_underscore: true,
            curly: DelimRole::Table,
            set_literal: true,
            tagged_literals: true,
            booleans: false,
            char_syntax: None,
            hash_paren: HashParen::Plain,
            keyword_colon: true,
            piped_symbols: false,
            datum_labels: false,
            dotted_pairs: false,
            roles: CharRoles {
                unquote: Some('~'),
                ..CharRoles::spec_scheme()
            },
            hash_bracket: HashBracket::BracketString,
            fold_longhand: false,
            ..Options::spec_scheme()
        }
    }

    /// Hy (a Lisp that compiles to Python).
    pub fn hy() -> (o: Self)
        ensures
            o == Options::spec_hy(),
    {
        Options {
            block_comment: None,
            datum_comment: false,
            discard_underscore: true,
            curly: DelimRole::Table,
            set_literal: true,
            tagged_literals: true,
            booleans: false,
            char_syntax: None,
            hash_paren: HashParen::Plain,
            keyword_colon: true,
            piped_symbols: false,
            datum_labels: false,
            dotted_pairs: false,
            roles: CharRoles {
                unquote: Some('~'),
                ..CharRoles::scheme()
            },
            hash_bracket: HashBracket::BracketString,
            fold_longhand: false,
            ..Options::scheme()
        }
    }

    /// The preset of [`Options::autolisp`], as a value.
    pub open spec fn spec_autolisp() -> Options {
        Options {
            block_comment: Some(BlockComment { open: ";|", close: "|;", nestable: false }),
            datum_comment: false,
            hash_syntax: false,
            square: DelimRole::Ordinary,
            booleans: false,
            char_syntax: None,
            hash_paren: HashParen::Plain,
            piped_symbols: false,
            datum_labels: false,
            roles: CharRoles {
                quasiquote: None,
                unquote: None,
                ..CharRoles::spec_scheme()
            },
            fold_case_insensitive: true,
            ..Options::spec_scheme()
        }
    }

    /// AutoLISP: `'` quote only, `;|...|;` block comments, no character literals, no reader syntax.
    pub fn autolisp() -> (o: Self)
        ensures
            o == Options::spec_autolisp(),
    {
        Options {
            block_comment: Some(BlockComment { open: ";|", close: "|;", nestable: false }),
            datum_comment: false,
            hash_syntax: false,
            square: DelimRole::Ordinary,
            booleans: false,
            char_syntax: None,
            hash_paren: HashParen::Plain,
            piped_symbols: false,
            datum_labels: false,
            roles: CharRoles {
                quasiquote: None,
                unquote: None,
                ..CharRoles::scheme()
            },
            fold_case_insensitive: true,
            ..Options::scheme()
        }
    }

    /// The preset of [`Options::guile`], as a value.
    pub open spec fn spec_guile() -> Options {
        Options {
            hash_apostrophe: Some(Prefix::VarQuote),
            hash_keyword: true,
            hash_curly_symbol: true,
            ..Options::spec_scheme()
        }
    }

    /// Guile Scheme: `#:` keywords, `#'` syntax, `#{...}#` extended symbols.
    pub fn guile() -> (o: Self)
        ensures
            o == Options::spec_guile(),
    {
        Options {
            hash_apostrophe: Some(Prefix::VarQuote),
            hash_keyword: true,
            hash_curly_symbol: true,
            ..Options::scheme()
        }
    }

    /// The preset of [`Options::phel`], as a value.
    pub open spec fn spec_phel() -> Options {
        Options::spec_clojure()
    }

    /// Phel: the Clojure reader.
    pub fn phel() -> (o: Self)
        ensures
            o == Options::spec_phel(),
    {
        Options::clojure()
    }

    /// The preset of [`Options::edn`], as a value.
    pub open spec fn spec_edn() -> Options {
        Options {
            regex_literal: false,
            hash_apostrophe: None,
            reader_conditional: false,
            hash_paren: HashParen::Plain,
            roles: CharRoles {
                quote: None,
                quasiquote: None,
                unquote: None,
                deref: None,
                meta: None,
                ..CharRoles::spec_clojure()
            },
            ..Options::spec_clojure()
        }
    }

    /// EDN: a data-only preset on Clojure with the code-only reader syntax turned off.
    pub fn edn() -> (o: Self)
        ensures
            o == Options::spec_edn(),
    {
        Options {
            regex_literal: false,
            hash_apostrophe: None,
            reader_conditional: false,
            hash_paren: HashParen::Plain,
            roles: CharRoles {
                quote: None,
                quasiquote: None,
                unquote: None,
                deref: None,
                meta: None,
                ..CharRoles::clojure()
            },
            ..Options::clojure()
        }
    }

    /// The preset of [`Options::fennel`], as a value.
    pub open spec fn spec_fennel() -> Options {
        Options {
            block_comment: None,
            datum_comment: false,
            curly: DelimRole::Table,
            booleans: false,
            char_syntax: None,
            hash_paren: HashParen::HashFn,
            piped_symbols: false,
            datum_labels: false,
            dotted_pairs: false,
            fold_longhand: false,
            ..Options::spec_scheme()
        }
    }

    /// Fennel (a Lisp that compiles to Lua).
    pub fn fennel() -> (o: Self)
        ensures
            o == Options::spec_fennel(),
    {
        Options {
            block_comment: None,
            datum_comment: false,
            curly: DelimRole::Table,
            booleans: false,
            char_syntax: None,
            hash_paren: HashParen::HashFn,
            piped_symbols: false,
            datum_labels: false,
            dotted_pairs: false,
            fold_longhand: false,
            ..Options::scheme()
        }
    }

    /// The preset of [`Options::lfe`], as a value.
    pub open spec fn spec_lfe() -> Options {
        Options {
            block_comment: Some(BlockComment { open: "#|", close: "|#", nestable: false }),
            regex_literal: true,
            hash_apostrophe: Some(Prefix::FunctionQuote),
            booleans: false,
            datum_labels: false,
            ..Options::spec_scheme()
        }
    }

    /// LFE (Lisp Flavoured Erlang).
    pub fn lfe() -> (o: Self)
        ensures
            o == Options::spec_lfe(),
    {
        Options {
            block_comment: Some(BlockComment { open: "#|", close: "|#", nestable: false }),
            regex_literal: true,
            hash_apostrophe: Some(Prefix::FunctionQuote),
            booleans: false,
            datum_labels: false,
            ..Options::scheme()
        }
    }

    /// The preset of [`Options::islisp`], as a value.
    pub open spec fn spec_islisp() -> Options {
        Options {
            square: DelimRole::Ordinary,
            hash_apostrophe: Some(Prefix::FunctionQuote),
            booleans: false,
            keyword_colon: true,
            datum_labels: false,
            fold_case_insensitive: true,
            ..Options::spec_scheme()
        }
    }

    /// ISLisp (ISO/IEC 13816).
    pub fn islisp() -> (o: Self)
        ensures
            o == Options::spec_islisp(),
    {
        Options {
            square: DelimRole::Ordinary,
            hash_apostrophe: Some(Prefix::FunctionQuote),
            booleans: false,
            keyword_colon: true,
            datum_labels: false,
            fold_case_insensitive: true,
            ..Options::scheme()
        }
    }

    /// The preset of [`Options::scheme_superset`], as a value.
    pub open spec fn spec_scheme_superset() -> Options {
        Options {
            regex_literal: true,
            keyword_colon: true,
            hash_bracket: HashBracket::CharSet,
            regex_slash: true,
            bytevector_vu8: true,
            keyword_trailing_colon: true,
            dotted_pairs_infix: true,
            keep_discarded: false,
            ..Options::spec_scheme()
        }
    }

    /// A tolerant "Scheme superset" for arbitrary `.scm` files: R7RS-small widened with Gauche char-sets and regexps, `#"..."` strings, `#vu8(...)`, leading- and trailing-colon keywords, and the infix dot.
    pub fn scheme_superset() -> (o: Self)
        ensures
            o == Options::spec_scheme_superset(),
    {
        Options {
            regex_literal: true,
            keyword_colon: true,
            hash_bracket: HashBracket::CharSet,
            regex_slash: true,
            bytevector_vu8: true,
            keyword_trailing_colon: true,
            dotted_pairs_infix: true,
            keep_discarded: false,
            ..Options::scheme()
        }
    }

    /// Options for a named [`Dialect`].
    pub fn for_dialect(dialect: Dialect) -> (o: Self)
        ensures
            o == spec_dialect_options(dialect),
    {
        match dialect {
            Dialect::Scheme => Options::scheme(),
            Dialect::Clojure => Options::clojure(),
            Dialect::CommonLisp => Options::common_lisp(),
            Dialect::EmacsLisp => Options::emacs_lisp(),
            Dialect::Racket => Options::racket(),
            Dialect::Janet => Options::janet(),
            Dialect::Hy => Options::hy(),
            Dialect::AutoLisp => Options::autolisp(),
            Dialect::Guile => Options::guile(),
            Dialect::Phel => Options::phel(),
            Dialect::Fennel => Options::fennel(),
            Dialect::Lfe => Options::lfe(),
            Dialect::Islisp => Options::islisp(),
            Dialect::SchemeSuperset => Options::scheme_superset(),
            Dialect::Edn => Options::edn(),
            Dialect::Gauche | Dialect::Mosh | Dialect::Gambit => Options::scheme_superset(),
        }
    }
}

impl Default for Options {
    /// The default is [`Options::scheme`].
    fn default() -> (o: Self)
        ensures
            o == Options::spec_scheme(),
    {
        Options::scheme()
    }
}

/// A named dialect. Presets are constructed via [`Options`].
#[derive(Debug, Clone, Copy, PartialEq, Eq, Hash, Structural)]
#[non_exhaustive]
pub enum Dialect {
    /// R7RS-small Scheme.
    Scheme,
    /// Clojure.
    Clojure,
    /// ANSI Common Lisp.
    CommonLisp,
    /// Emacs Lisp.
    EmacsLisp,
    /// Racket.
    Racket,
    /// Janet.
    Janet,
    /// Hy.
    Hy,
    /// AutoLISP.
    AutoLisp,
    /// Guile Scheme.
    Guile,
    /// Phel.
    Phel,
    /// Fennel.
    Fennel,
    /// LFE (Lisp Flavoured Erlang).
    Lfe,
    /// ISLisp.
    Islisp,
    /// A tolerant `.scm` "Scheme superset" — see [`Options::scheme_superset`].
    SchemeSuperset,
    /// EDN (a data-only subset of Clojure).
    Edn,
    /// Gauche Scheme; read with the `.scm` superset reader.
    Gauche,
    /// Mosh (R6RS) Scheme; read with the `.scm` superset reader.
    Mosh,
    /// Gambit Scheme; read with the `.scm` superset reader.
    Gambit,
}

/// The dialects, in declaration order.
pub open spec fn spec_all_dialects() -> Seq<Dialect> {
    seq![
        Dialect::Scheme,
        Dialect::Clojure,
        Dialect::CommonLisp,
        Dialect::EmacsLisp,
        Dialect::Racket,
        Dialect::Janet,
        Dialect::Hy,
        Dialect::AutoLisp,
        Dialect::Guile,
        Dialect::Phel,
        Dialect::Fennel,
        Dialect::Lfe,
        Dialect::Islisp,
        Dialect::SchemeSuperset,
        Dialect::Edn,
        Dialect::Gauche,
        Dialect::Mosh,
        Dialect::Gambit,
    ]
}

/// The kebab-case name of a dialect.
pub open spec fn spec_dialect_name(d: Dialect) -> &'static str {
    match d {
        Dialect::Scheme => "scheme",
        Dialect::Clojure => "clojure",
        Dialect::CommonLisp => "common-lisp",
        Dialect::EmacsLisp => "emacs-lisp",
        Dialect::Racket => "racket",
        Dialect::Janet => "janet",
        Dialect::Hy => "hy",
        Dialect::AutoLisp => "autolisp",
        Dialect::Guile => "guile",
        Dialect::Phel => "phel",
        Dialect::Fennel => "fennel",
        Dialect::Lfe => "lfe",
        Dialect::Islisp => "islisp",
        Dialect::SchemeSuperset => "scheme-superset",
        Dialect::Edn => "edn",
        Dialect::Gauche => "gauche",
        Dialect::Mosh => "mosh",
        Dialect::Gambit => "gambit",
    }
}

/// The preset options of a dialect.
pub open spec fn spec_dialect_options(d: Dialect) -> Options {
    match d {
        Dialect::Scheme => Options::spec_scheme(),
        Dialect::Clojure => Options::spec_clojure(),
        Dialect::CommonLisp => Options::spec_common_lisp(),
        Dialect::EmacsLisp => Options::spec_emacs_lisp(),
        Dialect::Racket => Options::spec_racket(),
        Dialect::Janet => Options::spec_janet(),
        Dialect::Hy => Options::spec_hy(),
        Dialect::AutoLisp => Options::spec_autolisp(),
        Dialect::Guile => Options::spec_guile(),
        Dialect::Phel => Options::spec_phel(),
        Dialect::Fennel => Options::spec_fennel(),
        Dialect::Lfe => Options::spec_lfe(),
        Dialect::Islisp => Options::spec_islisp(),
        Dialect::SchemeSuperset => Options::spec_scheme_superset(),
        Dialect::Edn => Options::spec_edn(),
        Dialect::Gauche | Dialect::Mosh | Dialect::Gambit => Options::spec_scheme_superset(),
    }
}

impl Dialect {
    /// Every currently-known dialect, in declaration order, as a vector.
    pub fn all() -> (v: Vec<Dialect>)
        ensures
            v@ == spec_all_dialects(),
    {
        let v = vec![
        Dialect::Scheme,
        Dialect::Clojure,
        Dialect::CommonLisp,
        Dialect::EmacsLisp,
        Dialect::Racket,
        Dialect::Janet,
        Dialect::Hy,
        Dialect::AutoLisp,
        Dialect::Guile,
        Dialect::Phel,
        Dialect::Fennel,
        Dialect::Lfe,
        Dialect::Islisp,
        Dialect::SchemeSuperset,
        Dialect::Edn,
        Dialect::Gauche,
        Dialect::Mosh,
        Dialect::Gambit,
        ];
        assert(v@ =~= spec_all_dialects());
        v
    }

    /// The preset [`Options`] for this dialect — sugar for
    /// [`Options::for_dialect`].
    pub fn options(&self) -> (o: Options)
        ensures
            o == spec_dialect_options(*self),
    {
        Options::for_dialect(*self)
    }

    /// The dialect's kebab-case name (e.g. `"common-lisp"`), also accepted by
    /// [`Dialect::from_name`].
    pub fn name(self) -> (s: &'static str)
        ensures
            s == spec_dialect_name(self),
    {
        match self {
            Dialect::Scheme => "scheme",
            Dialect::Clojure => "clojure",
            Dialect::CommonLisp => "common-lisp",
            Dialect::EmacsLisp => "emacs-lisp",
            Dialect::Racket => "racket",
            Dialect::Janet => "janet",
            Dialect::Hy => "hy",
            Dialect::AutoLisp => "autolisp",
            Dialect::Guile => "guile",
            Dialect::Phel => "phel",
            Dialect::Fennel => "fennel",
            Dialect::Lfe => "lfe",
            Dialect::Islisp => "islisp",
            Dialect::SchemeSuperset => "scheme-superset",
            Dialect::Edn => "edn",
            Dialect::Gauche => "gauche",
            Dialect::Mosh => "mosh",
            Dialect::Gambit => "gambit",
        }
    }

    /// The dialect whose [`Dialect::name`] is `s`, or a [`ParseDialectError`]
    /// carrying `s` when it names no known dialect.
    pub fn from_name(s: &str) -> (r: Result<Dialect, ParseDialectError>)
        ensures
            match r {
                Ok(d) => spec_dialect_name(d).spec_bytes() == s.spec_bytes(),
                Err(e) => e.input@ == s@ && forall|d: Dialect|
                    spec_dialect_name(d).spec_bytes() != s.spec_bytes(),
            },
    {
        let all = Dialect::all();
        let mut i: usize = 0;
        while i < all.len()
            invariant
                all@ == spec_all_dialects(),
                0 <= i <= all.len(),
                forall|k: int|
                    0 <= k < i ==> spec_dialect_name(#[trigger] all@[k]).spec_bytes() != s.spec_bytes(),
            decreases all.len() - i,
        {
            let d = all[i];
            if bytes_equal(d.name().as_bytes(), s.as_bytes()) {
                return Ok(d);
            }
            i = i + 1;
        }
        proof {
            assert forall|d: Dialect| spec_dialect_name(d).spec_bytes() != s.spec_bytes() by {
                lemma_dialect_in_all(d);
                let k = choose|k: int| 0 <= k < spec_all_dialects().len() && spec_all_dialects()[k] == d;
                assert(spec_dialect_name(all@[k]).spec_bytes() != s.spec_bytes());
            }
        }
        Err(ParseDialectError { input: s.to_owned() })
    }
}

/// Every dialect occurs in [`Dialect::all`].
pub proof fn lemma_dialect_in_all(d: Dialect)
    ensures
        exists|k: int| 0 <= k < spec_all_dialects().len() && spec_all_dialects()[k] == d,
{
    match d {
        Dialect::Scheme => assert(spec_all_dialects()[0] == d),
        Dialect::Clojure => assert(spec_all_dialects()[1] == d),
        Dialect::CommonLisp => assert(spec_all_dialects()[2] == d),
        Dialect::EmacsLisp => assert(spec_all_dialects()[3] == d),
        Dialect::Racket => assert(spec_all_dialects()[4] == d),
        Dialect::Janet => assert(spec_all_dialects()[5] == d),
        Dialect::Hy => assert(spec_all_dialects()[6] == d),
        Dialect::AutoLisp => assert(spec_all_dialects()[7] == d),
        Dialect::Guile => assert(spec_all_dialects()[8] == d),
        Dialect::Phel => assert(spec_all_dialects()[9] == d),
        Dialect::Fennel => assert(spec_all_dialects()[10] == d),
        Dialect::Lfe => assert(spec_all_dialects()[11] == d),
        Dialect::Islisp => assert(spec_all_dialects()[12] == d),
        Dialect::SchemeSuperset => assert(spec_all_dialects()[13] == d),
        Dialect::Edn => assert(spec_all_dialects()[14] == d),
        Dialect::Gauche => assert(spec_all_dialects()[15] == d),
        Dialect::Mosh => assert(spec_all_dialects()[16] == d),
        Dialect::Gambit => assert(spec_all_dialects()[17] == d),
    }
}

/// Distinct dialects have distinct names: the name determines the dialect,
/// so [`Dialect::from_name`] of a [`Dialect::name`] gives the dialect back.
pub proof fn lemma_dialect_name_injective(d1: Dialect, d2: Dialect)
    requires
        spec_dialect_name(d1).spec_bytes() == spec_dialect_name(d2).spec_bytes(),
    ensures
        d1 == d2,
{
    vstd::utf8::encode_utf8_decode_utf8(spec_dialect_name(d1)@);
    vstd::utf8::encode_utf8_decode_utf8(spec_dialect_name(d2)@);
    assert(spec_dialect_name(d1)@ == spec_dialect_name(d2)@);
    reveal_strlit("scheme");
    reveal_strlit("clojure");
    reveal_strlit("common-lisp");
    reveal_strlit("emacs-lisp");
    reveal_strlit("racket");
    reveal_strlit("janet");
    reveal_strlit("hy");
    reveal_strlit("autolisp");
    reveal_strlit("guile");
    reveal_strlit("phel");
    reveal_strlit("fennel");
    reveal_strlit("lfe");
    reveal_strlit("islisp");
    reveal_strlit("scheme-superset");
    reveal_strlit("edn");
    reveal_strlit("gauche");
    reveal_strlit("mosh");
    reveal_strlit("gambit");
    match d1 {
        Dialect::Scheme => match d2 {
            Dialect::Scheme => {},
            Dialect::Clojure => assert("scheme"@.len() != "clojure"@.len()),
            Dialect::CommonLisp => assert("scheme"@.len() != "common-lisp"@.len()),
            Dialect::EmacsLisp => assert("scheme"@.len() != "emacs-lisp"@.len()),
            Dialect::Racket => assert("scheme"@[0] != "racket"@[0]),
            Dialect::Janet => assert("scheme"@.len() != "janet"@.len()),
            Dialect::Hy => assert("scheme"@.len() != "hy"@.len()),
            Dialect::AutoLisp => assert("scheme"@.len() != "autolisp"@.len()),
            Dialect::Guile => assert("scheme"@.len() != "guile"@.len()),
            Dialect::Phel => assert("scheme"@.len() != "phel"@.len()),
            Dialect::Fennel => assert("scheme"@[0] != "fennel"@[0]),
            Dialect::Lfe => assert("scheme"@.len() != "lfe"@.len()),
            Dialect::Islisp => assert("scheme"@[0] != "islisp"@[0]),
            Dialect::SchemeSuperset => assert("scheme"@.len() != "scheme-superset"@.len()),
            Dialect::Edn => assert("scheme"@.len() != "edn"@.len()),
            Dialect::Gauche => assert("scheme"@[0] != "gauche"@[0]),
            Dialect::Mosh => assert("scheme"@.len() != "mosh"@.len()),
            Dialect::Gambit => assert("scheme"@[0] != "gambit"@[0]),
        },
        Dialect::Clojure => match d2 {
            Dialect::Scheme => assert("clojure"@.len() != "scheme"@.len()),
            Dialect::Clojure => {},
            Dialect::CommonLisp => assert("clojure"@.len() != "common-lisp"@.len()),
            Dialect::EmacsLisp => assert("clojure"@.len() != "emacs-lisp"@.len()),
            Dialect::Racket => assert("clojure"@.len() != "racket"@.len()),
            Dialect::Janet => assert("clojure"@.len() != "janet"@.len()),
            Dialect::Hy => assert("clojure"@.len() != "hy"@.len()),
            Dialect::AutoLisp => assert("clojure"@.len() != "autolisp"@.len()),
            Dialect::Guile => assert("clojure"@.len() != "guile"@.len()),
            Dialect::Phel => assert("clojure"@.len() != "phel"@.len()),
            Dialect::Fennel => assert("clojure"@.len() != "fennel"@.len()),
            Dialect::Lfe => assert("clojure"@.len() != "lfe"@.len()),
            Dialect::Islisp => assert("clojure"@.len() != "islisp"@.len()),
            Dialect::SchemeSuperset => assert("clojure"@.len() != "scheme-superset"@.len()),
            Dialect::Edn => assert("clojure"@.len() != "edn"@.len()),
            Dialect::Gauche => assert("clojure"@.len() != "gauche"@.len()),
            Dialect::Mosh => assert("clojure"@.len() != "mosh"@.len()),
            Dialect::Gambit => assert("clojure"@.len() != "gambit"@.len()),
        },
        Dialect::CommonLisp => match d2 {
            Dialect::Scheme => assert("common-lisp"@.len() != "scheme"@.len()),
            Dialect::Clojure => assert("common-lisp"@.len() != "clojure"@.len()),
            Dialect::CommonLisp => {},
            Dialect::EmacsLisp => assert("common-lisp"@.len() != "emacs-lisp"@.len()),
            Dialect::Racket => assert("common-lisp"@.len() != "racket"@.len()),
            Dialect::Janet => assert("common-lisp"@.len() != "janet"@.len()),
            Dialect::Hy => assert("common-lisp"@.len() != "hy"@.len()),
            Dialect::AutoLisp => assert("common-lisp"@.len() != "autolisp"@.len()),
            Dialect::Guile => assert("common-lisp"@.len() != "guile"@.len()),
            Dialect::Phel => assert("common-lisp"@.len() != "phel"@.len()),
            Dialect::Fennel => assert("common-lisp"@.len() != "fennel"@.len()),
            Dialect::Lfe => assert("common-lisp"@.len() != "lfe"@.len()),
            Dialect::Islisp => assert("common-lisp"@.len() != "islisp"@.len()),
            Dialect::SchemeSuperset => assert("common-lisp"@.len() != "scheme-superset"@.len()),
            Dialect::Edn => assert("common-lisp"@.len() != "edn"@.len()),
            Dialect::Gauche => assert("common-lisp"@.len() != "gauche"@.len()),
            Dialect::Mosh => assert("common-lisp"@.len() != "mosh"@.len()),
            Dialect::Gambit => assert("common-lisp"@.len() != "gambit"@.len()),
        },
        Dialect::EmacsLisp => match d2 {
            Dialect::Scheme => assert("emacs-lisp"@.len() != "scheme"@.len()),
            Dialect::Clojure => assert("emacs-lisp"@.len() != "clojure"@.len()),
            Dialect::CommonLisp => assert("emacs-lisp"@.len() != "common-lisp"@.len()),
            Dialect::EmacsLisp => {},
            Dialect::Racket => assert("emacs-lisp"@.len() != "racket"@.len()),
            Dialect::Janet => assert("emacs-lisp"@.len() != "janet"@.len()),
            Dialect::Hy => assert("emacs-lisp"@.len() != "hy"@.len()),
            Dialect::AutoLisp => assert("emacs-lisp"@.len() != "autolisp"@.len()),
            Dialect::Guile => assert("emacs-lisp"@.len() != "guile"@.len()),
            Dialect::Phel => assert("emacs-lisp"@.len() != "phel"@.len()),
            Dialect::Fennel => assert("emacs-lisp"@.len() != "fennel"@.len()),
            Dialect::Lfe => assert("emacs-lisp"@.len() != "lfe"@.len()),
            Dialect::Islisp => assert("emacs-lisp"@.len() != "islisp"@.len()),
            Dialect::SchemeSuperset => assert("emacs-lisp"@.len() != "scheme-superset"@.len()),
            Dialect::Edn => assert("emacs-lisp"@.len() != "edn"@.len()),
            Dialect::Gauche => assert("emacs-lisp"@.len() != "gauche"@.len()),
            Dialect::Mosh => assert("emacs-lisp"@.len() != "mosh"@.len()),
            Dialect::Gambit => assert("emacs-lisp"@.len() != "gambit"@.len()),
        },
        Dialect::Racket => match d2 {
            Dialect::Scheme => assert("racket"@[0] != "scheme"@[0]),
            Dialect::Clojure => assert("racket"@.len() != "clojure"@.len()),
            Dialect::CommonLisp => assert("racket"@.len() != "common-lisp"@.len()),
            Dialect::EmacsLisp => assert("racket"@.len() != "emacs-lisp"@.len()),
            Dialect::Racket => {},
            Dialect::Janet => assert("racket"@.len() != "janet"@.len()),
            Dialect::Hy => assert("racket"@.len() != "hy"@.len()),
            Dialect::AutoLisp => assert("racket"@.len() != "autolisp"@.len()),
            Dialect::Guile => assert("racket"@.len() != "guile"@.len()),
            Dialect::Phel => assert("racket"@.len() != "phel"@.len()),
            Dialect::Fennel => assert("racket"@[0] != "fennel"@[0]),
            Dialect::Lfe => assert("racket"@.len() != "lfe"@.len()),
            Dialect::Islisp => assert("racket"@[0] != "islisp"@[0]),
            Dialect::SchemeSuperset => assert("racket"@.len() != "scheme-superset"@.len()),
            Dialect::Edn => assert("racket"@.len() != "edn"@.len()),
            Dialect::Gauche => assert("racket"@[0] != "gauche"@[0]),
            Dialect::Mosh => assert("racket"@.len() != "mosh"@.len()),
            Dialect::Gambit => assert("racket"@[0] != "gambit"@[0]),
        },
        Dialect::Janet => match d2 {
            Dialect::Scheme => assert("janet"@.len() != "scheme"@.len()),
            Dialect::Clojure => assert("janet"@.len() != "clojure"@.len()),
            Dialect::CommonLisp => assert("janet"@.len() != "common-lisp"@.len()),
            Dialect::EmacsLisp => assert("janet"@.len() != "emacs-lisp"@.len()),
            Dialect::Racket => assert("janet"@.len() != "racket"@.len()),
            Dialect::Janet => {},
            Dialect::Hy => assert("janet"@.len() != "hy"@.len()),
            Dialect::AutoLisp => assert("janet"@.len() != "autolisp"@.len()),
            Dialect::Guile => assert("janet"@[0] != "guile"@[0]),
            Dialect::Phel => assert("janet"@.len() != "phel"@.len()),
            Dialect::Fennel => assert("janet"@.len() != "fennel"@.len()),
            Dialect::Lfe => assert("janet"@.len() != "lfe"@.len()),
            Dialect::Islisp => assert("janet"@.len() != "islisp"@.len()),
            Dialect::SchemeSuperset => assert("janet"@.len() != "scheme-superset"@.len()),
            Dialect::Edn => assert("janet"@.len() != "edn"@.len()),
            Dialect::Gauche => assert("janet"@.len() != "gauche"@.len()),
            Dialect::Mosh => assert("janet"@.len() != "mosh"@.len()),
            Dialect::Gambit => assert("janet"@.len() != "gambit"@.len()),
        },
        Dialect::Hy => match d2 {
            Dialect::Scheme => assert("hy"@.len() != "scheme"@.len()),
            Dialect::Clojure => assert("hy"@.len() != "clojure"@.len()),
            Dialect::CommonLisp => assert("hy"@.len() != "common-lisp"@.len()),
            Dialect::EmacsLisp => assert("hy"@.len() != "emacs-lisp"@.len()),
            Dialect::Racket => assert("hy"@.len() != "racket"@.len()),
            Dialect::Janet => assert("hy"@.len() != "janet"@.len()),
            Dialect::Hy => {},
            Dialect::AutoLisp => assert("hy"@.len() != "autolisp"@.len()),
            Dialect::Guile => assert("hy"@.len() != "guile"@.len()),
            Dialect::Phel => assert("hy"@.len() != "phel"@.len()),
            Dialect::Fennel => assert("hy"@.len() != "fennel"@.len()),
            Dialect::Lfe => assert("hy"@.len() != "lfe"@.len()),
            Dialect::Islisp => assert("hy"@.len() != "islisp"@.len()),
            Dialect::SchemeSuperset => assert("hy"@.len() != "scheme-superset"@.len()),
            Dialect::Edn => assert("hy"@.len() != "edn"@.len()),
            Dialect::Gauche => assert("hy"@.len() != "gauche"@.len()),
            Dialect::Mosh => assert("hy"@.len() != "mosh"@.len()),
            Dialect::Gambit => assert("hy"@.len() != "gambit"@.len()),
        },
        Dialect::AutoLisp => match d2 {
            Dialect::Scheme => assert("autolisp"@.len() != "scheme"@.len()),
            Dialect::Clojure => assert("autolisp"@.len() != "clojure"@.len()),
            Dialect::CommonLisp => assert("autolisp"@.len() != "common-lisp"@.len()),
            Dialect::EmacsLisp => assert("autolisp"@.len() != "emacs-lisp"@.len()),
            Dialect::Racket => assert("autolisp"@.len() != "racket"@.len()),
            Dialect::Janet => assert("autolisp"@.len() != "janet"@.len()),
            Dialect::Hy => assert("autolisp"@.len() != "hy"@.len()),
            Dialect::AutoLisp => {},
            Dialect::Guile => assert("autolisp"@.len() != "guile"@.len()),
            Dialect::Phel => assert("autolisp"@.len() != "phel"@.len()),
            Dialect::Fennel => assert("autolisp"@.len() != "fennel"@.len()),
            Dialect::Lfe => assert("autolisp"@.len() != "lfe"@.len()),
            Dialect::Islisp => assert("autolisp"@.len() != "islisp"@.len()),
            Dialect::SchemeSuperset => assert("autolisp"@.len() != "scheme-superset"@.len()),
            Dialect::Edn => assert("autolisp"@.len() != "edn"@.len()),
            Dialect::Gauche => assert("autolisp"@.len() != "gauche"@.len()),
            Dialect::Mosh => assert("autolisp"@.len() != "mosh"@.len()),
            Dialect::Gambit => assert("autolisp"@.len() != "gambit"@.len()),
        },
        Dialect::Guile => match d2 {
            Dialect::Scheme => assert("guile"@.len() != "scheme"@.len()),
            Dialect::Clojure => assert("guile"@.len() != "clojure"@.len()),
            Dialect::CommonLisp => assert("guile"@.len() != "common-lisp"@.len()),
            Dialect::EmacsLisp => assert("guile"@.len() != "emacs-lisp"@.len()),
            Dialect::Racket => assert("guile"@.len() != "racket"@.len()),
            Dialect::Janet => assert("guile"@[0] != "janet"@[0]),
            Dialect::Hy => assert("guile"@.len() != "hy"@.len()),
            Dialect::AutoLisp => assert("guile"@.len() != "autolisp"@.len()),
            Dialect::Guile => {},
            Dialect::Phel => assert("guile"@.len() != "phel"@.len()),
            Dialect::Fennel => assert("guile"@.len() != "fennel"@.len()),
            Dialect::Lfe => assert("guile"@.len() != "lfe"@.len()),
            Dialect::Islisp => assert("guile"@.len() != "islisp"@.len()),
            Dialect::SchemeSuperset => assert("guile"@.len() != "scheme-superset"@.len()),
            Dialect::Edn => assert("guile"@.len() != "edn"@.len()),
            Dialect::Gauche => assert("guile"@.len() != "gauche"@.len()),
            Dialect::Mosh => assert("guile"@.len() != "mosh"@.len()),
            Dialect::Gambit => assert("guile"@.len() != "gambit"@.len()),
        },
        Dialect::Phel => match d2 {
            Dialect::Scheme => assert("phel"@.len() != "scheme"@.len()),
            Dialect::Clojure => assert("phel"@.len() != "clojure"@.len()),
            Dialect::CommonLisp => assert("phel"@.len() != "common-lisp"@.len()),
            Dialect::EmacsLisp => assert("phel"@.len() != "emacs-lisp"@.len()),
            Dialect::Racket => assert("phel"@.len() != "racket"@.len()),
            Dialect::Janet => assert("phel"@.len() != "janet"@.len()),
            Dialect::Hy => assert("phel"@.len() != "hy"@.len()),
            Dialect::AutoLisp => assert("phel"@.len() != "autolisp"@.len()),
            Dialect::Guile => assert("phel"@.len() != "guile"@.len()),
            Dialect::Phel => {},
            Dialect::Fennel => assert("phel"@.len() != "fennel"@.len()),
            Dialect::Lfe => assert("phel"@.len() != "lfe"@.len()),
            Dialect::Islisp => assert("phel"@.len() != "islisp"@.len()),
            Dialect::SchemeSuperset => assert("phel"@.len() != "scheme-superset"@.len()),
            Dialect::Edn => assert("phel"@.len() != "edn"@.len()),
            Dialect::Gauche => assert("phel"@.len() != "gauche"@.len()),
            Dialect::Mosh => assert("phel"@[0] != "mosh"@[0]),
            Dialect::Gambit => assert("phel"@.len() != "gambit"@.len()),
        },
        Dialect::Fennel => match d2 {
            Dialect::Scheme => assert("fennel"@[0] != "scheme"@[0]),
            Dialect::Clojure => assert("fennel"@.len() != "clojure"@.len()),
            Dialect::CommonLisp => assert("fennel"@.len() != "common-lisp"@.len()),
            Dialect::EmacsLisp => assert("fennel"@.len() != "emacs-lisp"@.len()),
            Dialect::Racket => assert("fennel"@[0] != "racket"@[0]),
            Dialect::Janet => assert("fennel"@.len() != "janet"@.len()),
            Dialect::Hy => assert("fennel"@.len() != "hy"@.len()),
            Dialect::AutoLisp => assert("fennel"@.len() != "autolisp"@.len()),
            Dialect::Guile => assert("fennel"@.len() != "guile"@.len()),
            Dialect::Phel => assert("fennel"@.len() != "phel"@.len()),
            Dialect::Fennel => {},
            Dialect::Lfe => assert("fennel"@.len() != "lfe"@.len()),
            Dialect::Islisp => assert("fennel"@[0] != "islisp"@[0]),
            Dialect::SchemeSuperset => assert("fennel"@.len() != "scheme-superset"@.len()),
            Dialect::Edn => assert("fennel"@.len() != "edn"@.len()),
            Dialect::Gauche => assert("fennel"@[0] != "gauche"@[0]),
            Dialect::Mosh => assert("fennel"@.len() != "mosh"@.len()),
            Dialect::Gambit => assert("fennel"@[0] != "gambit"@[0]),
        },
        Dialect::Lfe => match d2 {
            Dialect::Scheme => assert("lfe"@.len() != "scheme"@.len()),
            Dialect::Clojure => assert("lfe"@.len() != "clojure"@.len()),
            Dialect::CommonLisp => assert("lfe"@.len() != "common-lisp"@.len()),
            Dialect::EmacsLisp => assert("lfe"@.len() != "emacs-lisp"@.len()),
            Dialect::Racket => assert("lfe"@.len() != "racket"@.len()),
            Dialect::Janet => assert("lfe"@.len() != "janet"@.len()),
            Dialect::Hy => assert("lfe"@.len() != "hy"@.len()),
            Dialect::AutoLisp => assert("lfe"@.len() != "autolisp"@.len()),
            Dialect::Guile => assert("lfe"@.len() != "guile"@.len()),
            Dialect::Phel => assert("lfe"@.len() != "phel"@.len()),
            Dialect::Fennel => assert("lfe"@.len() != "fennel"@.len()),
            Dialect::Lfe => {},
            Dialect::Islisp => assert("lfe"@.len() != "islisp"@.len()),
            Dialect::SchemeSuperset => assert("lfe"@.len() != "scheme-superset"@.len()),
            Dialect::Edn => assert("lfe"@[0] != "edn"@[0]),
            Dialect::Gauche => assert("lfe"@.len() != "gauche"@.len()),
            Dialect::Mosh => assert("lfe"@.len() != "mosh"@.len()),
            Dialect::Gambit => assert("lfe"@.len() != "gambit"@.len()),
        },
        Dialect::Islisp => match d2 {
            Dialect::Scheme => assert("islisp"@[0] != "scheme"@[0]),
            Dialect::Clojure => assert("islisp"@.len() != "clojure"@.len()),
            Dialect::CommonLisp => assert("islisp"@.len() != "common-lisp"@.len()),
            Dialect::EmacsLisp => assert("islisp"@.len() != "emacs-lisp"@.len()),
            Dialect::Racket => assert("islisp"@[0] != "racket"@[0]),
            Dialect::Janet => assert("islisp"@.len() != "janet"@.len()),
            Dialect::Hy => assert("islisp"@.len() != "hy"@.len()),
            Dialect::AutoLisp => assert("islisp"@.len() != "autolisp"@.len()),
            Dialect::Guile => assert("islisp"@.len() != "guile"@.len()),
            Dialect::Phel => assert("islisp"@.len() != "phel"@.len()),
            Dialect::Fennel => assert("islisp"@[0] != "fennel"@[0]),
            Dialect::Lfe => assert("islisp"@.len() != "lfe"@.len()),
            Dialect::Islisp => {},
            Dialect::SchemeSuperset => assert("islisp"@.len() != "scheme-superset"@.len()),
            Dialect::Edn => assert("islisp"@.len() != "edn"@.len()),
            Dialect::Gauche => assert("islisp"@[0] != "gauche"@[0]),
            Dialect::Mosh => assert("islisp"@.len() != "mosh"@.len()),
            Dialect::Gambit => assert("islisp"@[0] != "gambit"@[0]),
        },
        Dialect::SchemeSuperset => match d2 {
            Dialect::Scheme => assert("scheme-superset"@.len() != "scheme"@.len()),
            Dialect::Clojure => assert("scheme-superset"@.len() != "clojure"@.len()),
            Dialect::CommonLisp => assert("scheme-superset"@.len() != "common-lisp"@.len()),
            Dialect::EmacsLisp => assert("scheme-superset"@.len() != "emacs-lisp"@.len()),
            Dialect::Racket => assert("scheme-superset"@.len() != "racket"@.len()),
            Dialect::Janet => assert("scheme-superset"@.len() != "janet"@.len()),
            Dialect::Hy => assert("scheme-superset"@.len() != "hy"@.len()),
            Dialect::AutoLisp => assert("scheme-superset"@.len() != "autolisp"@.len()),
            Dialect::Guile => assert("scheme-superset"@.len() != "guile"@.len()),
            Dialect::Phel => assert("scheme-superset"@.len() != "phel"@.len()),
            Dialect::Fennel => assert("scheme-superset"@.len() != "fennel"@.len()),
            Dialect::Lfe => assert("scheme-superset"@.len() != "lfe"@.len()),
            Dialect::Islisp => assert("scheme-superset"@.len() != "islisp"@.len()),
            Dialect::SchemeSuperset => {},
            Dialect::Edn => assert("scheme-superset"@.len() != "edn"@.len()),
            Dialect::Gauche => assert("scheme-superset"@.len() != "gauche"@.len()),
            Dialect::Mosh => assert("scheme-superset"@.len() != "mosh"@.len()),
            Dialect::Gambit => assert("scheme-superset"@.len() != "gambit"@.len()),
        },
        Dialect::Edn => match d2 {
            Dialect::Scheme => assert("edn"@.len() != "scheme"@.len()),
            Dialect::Clojure => assert("edn"@.len() != "clojure"@.len()),
            Dialect::CommonLisp => assert("edn"@.len() != "common-lisp"@.len()),
            Dialect::EmacsLisp => assert("edn"@.len() != "emacs-lisp"@.len()),
            Dialect::Racket => assert("edn"@.len() != "racket"@.len()),
            Dialect::Janet => assert("edn"@.len() != "janet"@.len()),
            Dialect::Hy => assert("edn"@.len() != "hy"@.len()),
            Dialect::AutoLisp => assert("edn"@.len() != "autolisp"@.len()),
            Dialect::Guile => assert("edn"@.len() != "guile"@.len()),
            Dialect::Phel => assert("edn"@.len() != "phel"@.len()),
            Dialect::Fennel => assert("edn"@.len() != "fennel"@.len()),
            Dialect::Lfe => assert("edn"@[0] != "lfe"@[0]),
            Dialect::Islisp => assert("edn"@.len() != "islisp"@.len()),
            Dialect::SchemeSuperset => assert("edn"@.len() != "scheme-superset"@.len()),
            Dialect::Edn => {},
            Dialect::Gauche => assert("edn"@.len() != "gauche"@.len()),
            Dialect::Mosh => assert("edn"@.len() != "mosh"@.len()),
            Dialect::Gambit => assert("edn"@.len() != "gambit"@.len()),
        },
        Dialect::Gauche => match d2 {
            Dialect::Scheme => assert("gauche"@[0] != "scheme"@[0]),
            Dialect::Clojure => assert("gauche"@.len() != "clojure"@.len()),
            Dialect::CommonLisp => assert("gauche"@.len() != "common-lisp"@.len()),
            Dialect::EmacsLisp => assert("gauche"@.len() != "emacs-lisp"@.len()),
            Dialect::Racket => assert("gauche"@[0] != "racket"@[0]),
            Dialect::Janet => assert("gauche"@.len() != "janet"@.len()),
            Dialect::Hy => assert("gauche"@.len() != "hy"@.len()),
            Dialect::AutoLisp => assert("gauche"@.len() != "autolisp"@.len()),
            Dialect::Guile => assert("gauche"@.len() != "guile"@.len()),
            Dialect::Phel => assert("gauche"@.len() != "phel"@.len()),
            Dialect::Fennel => assert("gauche"@[0] != "fennel"@[0]),
            Dialect::Lfe => assert("gauche"@.len() != "lfe"@.len()),
            Dialect::Islisp => assert("gauche"@[0] != "islisp"@[0]),
            Dialect::SchemeSuperset => assert("gauche"@.len() != "scheme-superset"@.len()),
            Dialect::Edn => assert("gauche"@.len() != "edn"@.len()),
            Dialect::Gauche => {},
            Dialect::Mosh => assert("gauche"@.len() != "mosh"@.len()),
            Dialect::Gambit => assert("gauche"@[2] != "gambit"@[2]),
        },
        Dialect::Mosh => match d2 {
            Dialect::Scheme => assert("mosh"@.len() != "scheme"@.len()),
            Dialect::Clojure => assert("mosh"@.len() != "clojure"@.len()),
            Dialect::CommonLisp => assert("mosh"@.len() != "common-lisp"@.len()),
            Dialect::EmacsLisp => assert("mosh"@.len() != "emacs-lisp"@.len()),
            Dialect::Racket => assert("mosh"@.len() != "racket"@.len()),
            Dialect::Janet => assert("mosh"@.len() != "janet"@.len()),
            Dialect::Hy => assert("mosh"@.len() != "hy"@.len()),
            Dialect::AutoLisp => assert("mosh"@.len() != "autolisp"@.len()),
            Dialect::Guile => assert("mosh"@.len() != "guile"@.len()),
            Dialect::Phel => assert("mosh"@[0] != "phel"@[0]),
            Dialect::Fennel => assert("mosh"@.len() != "fennel"@.len()),
            Dialect::Lfe => assert("mosh"@.len() != "lfe"@.len()),
            Dialect::Islisp => assert("mosh"@.len() != "islisp"@.len()),
            Dialect::SchemeSuperset => assert("mosh"@.len() != "scheme-superset"@.len()),
            Dialect::Edn => assert("mosh"@.len() != "edn"@.len()),
            Dialect::Gauche => assert("mosh"@.len() != "gauche"@.len()),
            Dialect::Mosh => {},
            Dialect::Gambit => assert("mosh"@.len() != "gambit"@.len()),
        },
        Dialect::Gambit => match d2 {
            Dialect::Scheme => assert("gambit"@[0] != "scheme"@[0]),
            Dialect::Clojure => assert("gambit"@.len() != "clojure"@.len()),
            Dialect::CommonLisp => assert("gambit"@.len() != "common-lisp"@.len()),
            Dialect::EmacsLisp => assert("gambit"@.len() != "emacs-lisp"@.len()),
            Dialect::Racket => assert("gambit"@[0] != "racket"@[0]),
            Dialect::Janet => assert("gambit"@.len() != "janet"@.len()),
            Dialect::Hy => assert("gambit"@.len() != "hy"@.len()),
            Dialect::AutoLisp => assert("gambit"@.len() != "autolisp"@.len()),
            Dialect::Guile => assert("gambit"@.len() != "guile"@.len()),
            Dialect::Phel => assert("gambit"@.len() != "phel"@.len()),
            Dialect::Fennel => assert("gambit"@[0] != "fennel"@[0]),
            Dialect::Lfe => assert("gambit"@.len() != "lfe"@.len()),
            Dialect::Islisp => assert("gambit"@[0] != "islisp"@[0]),
            Dialect::SchemeSuperset => assert("gambit"@.len() != "scheme-superset"@.len()),
            Dialect::Edn => assert("gambit"@.len() != "edn"@.len()),
            Dialect::Gauche => assert("gambit"@[2] != "gauche"@[2]),
            Dialect::Mosh => assert("gambit"@.len() != "mosh"@.len()),
            Dialect::Gambit => {},
        },
    }
}

impl std::str::FromStr for Dialect {
    type Err = ParseDialectError;

    /// Parse a dialect's kebab-case name (e.g. `"common-lisp"`).
    fn from_str(s: &str) -> (r: Result<Self, Self::Err>)
        ensures
            match r {
                Ok(d) => spec_dialect_name(d).spec_bytes() == s.spec_bytes(),
                Err(e) => e.input@ == s@ && forall|d: Dialect|
                    spec_dialect_name(d).spec_bytes() != s.spec_bytes(),
            },
    {
        Dialect::from_name(s)
    }
}

/// The error returned by [`Dialect::from_name`] when the input names no known
/// dialect.
#[derive(Debug, Clone, PartialEq, Eq)]
pub struct ParseDialectError {
    /// The text that named no dialect.
    pub input: String,
}

impl ParseDialectError {
    /// The human-readable message: ``unknown dialect: `INPUT` ``.
    pub fn message(&self) -> (m: String)
        ensures
            m@ == "unknown dialect: `"@ + self.input@ + "`"@,
    {
        let mut m = String::from_str("unknown dialect: `");
        m.append(self.input.as_str());
        m.append("`");
        m
    }
}

/// Whether two byte slices are equal.
pub fn bytes_equal(a: &[u8], b: &[u8]) -> (r: bool)
    ensures
        r == (a@ == b@),
{
    if a.len() != b.len() {
        return false;
    }
    let mut i: usize = 0;
    while i < a.len()
        invariant
            a.len() == b.len(),
            0 <= i <= a.len(),
            forall|k: int| 0 <= k < i ==> a@[k] == b@[k],
        decreases a.len() - i,
    {
        if a[i] != b[i] {
            return false;
        }
        i = i + 1;
    }
    assert(a@ =~= b@);
    true
}

} // verus!
