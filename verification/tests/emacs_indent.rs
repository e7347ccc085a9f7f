use std::collections::HashSet;

use lib::emacs::indent::{bundled_table, defun_specs, number_specs};
use lib::indent::{harvest_indent_specs, IndentSpec};
use lib::Dialect;

#[test]
fn known_specs_are_present() {
    let t = bundled_table(Dialect::EmacsLisp);
    // Number specs (note: `defun` itself harvests as an integer 2, not the
    // `defun` symbol — the data is Emacs's, verbatim).
    assert_eq!(t.get("defun"), Some(&IndentSpec::Number(2)));
    assert_eq!(t.get("defmacro"), Some(&IndentSpec::Number(2)));
    assert_eq!(t.get("if"), Some(&IndentSpec::Number(2)));
    assert_eq!(t.get("when"), Some(&IndentSpec::Number(1)));
    assert_eq!(t.get("progn"), Some(&IndentSpec::Number(0)));
    // `defun`-spec forms.
    assert_eq!(t.get("lambda"), Some(&IndentSpec::Defun));
    assert_eq!(t.get("defclass"), Some(&IndentSpec::Defun));
    assert_eq!(t.get("define-minor-mode"), Some(&IndentSpec::Defun));
    // cc-mode coverage.
    assert_eq!(t.get("c-lang-defconst"), Some(&IndentSpec::Number(1)));
}

#[test]
fn covers_both_spec_kinds_and_is_nonempty() {
    let t = bundled_table(Dialect::EmacsLisp);
    assert_eq!(t.len(), number_specs().len() + defun_specs().len());
    assert!(t.iter().iter().any(|(_, s)| matches!(s, IndentSpec::Number(_))));
    assert!(t.iter().iter().any(|(_, s)| **s == IndentSpec::Defun));
}

#[test]
fn data_has_no_duplicate_symbols() {
    // The number and defun specs must not overlap or self-repeat, or the
    // table length above would silently under-count.
    let mut seen = HashSet::new();
    for (sym, _) in number_specs() {
        assert!(seen.insert(sym), "duplicate symbol: {sym}");
    }
    for sym in defun_specs() {
        assert!(seen.insert(sym), "duplicate symbol: {sym}");
    }
}

#[test]
fn non_emacs_dialects_get_an_empty_table() {
    assert!(bundled_table(Dialect::Scheme).is_empty());
    assert!(bundled_table(Dialect::CommonLisp).is_empty());
    assert!(bundled_table(Dialect::Clojure).is_empty());
}

#[test]
fn file_specs_layer_over_the_bundled_table() {
    // Start from the bundled standard specs, then layer a file's own on top.
    let mut table = bundled_table(Dialect::EmacsLisp);
    table.merge(harvest_indent_specs("(put 'my-macro 'lisp-indent-function 1)"));
    assert_eq!(table.get("lambda"), Some(&IndentSpec::Defun));
    assert_eq!(table.get("when"), Some(&IndentSpec::Number(1)));
    assert_eq!(table.get("my-macro"), Some(&IndentSpec::Number(1)));
    // A file's own spec wins over the bundled one.
    table.merge(harvest_indent_specs("(put 'when 'lisp-indent-function 3)"));
    assert_eq!(table.get("when"), Some(&IndentSpec::Number(3)));
}
