# lib — a verified reader for S-expression syntax

A reader (lexer and parser) for the S-expression syntax of many Lisp-family
dialects, with definition-form annotation, indent-spec harvesting and Emacs
file-variable readers on top. Every function in `src/` is verified with Verus
against a contract stated over mathematical models (`Seq`, `Map`, spec
functions); nothing is trusted beyond vstd.

## Layout

- `options.rs` — dialect presets (`Options::scheme()`, `Options::clojure()`, …)
  and `Dialect`, each preset equal to its spec value.
- `lexer.rs`, `token.rs` — the token layer: `scan` is proved equal to the spec
  scanner `spec_scan`, and the tokens of a source tile it exactly
  (`tokens_from`).
- `reader.rs`, `reading.rs`, `shape.rs`, `datum.rs`, `error.rs` — the parser.
  `reading.rs` states, as spec functions over token streams, which data and
  diagnostics the fault-tolerant recursive-descent reader produces;
  `reader.rs` is proved to agree with it (`parse`, `read_all`,
  `parse_form_at`). Every datum is well-formed over its source (`Datum::wf`):
  spans nest in source order and leaves carry their verbatim source text.
- `walk.rs` — the code-vs-data classification (`Region`, `Class`), the
  pruning visitors `walk`/`walk_regions`, whose contracts give the exact
  visit sequence (`walk_from`, `is_walk_of`), and the pre-order `code_nodes`
  iterator over code.
- `line_index.rs`, `span.rs`, `source.rs` — offsets, lines and columns.
- `detect.rs` — dialect detection from file name, shebang and content.
- `annotate.rs` — definition-form registries, the annotator, and the
  def-macro harvesters.
- `indent.rs`, `emacs/` — Emacs Lisp indent specs, file-local variables and
  `.dir-locals.el`.

Proof functions named `lemma_…` that are public state properties of the
library as a whole (for example that reading one form at the start of a
parsed form gives that form back, or that a footer binding overrides a header
binding).
