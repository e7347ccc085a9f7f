//! Tests of the indent-spec table and its harvest.

use lib::indent::{harvest_indent_specs, harvest_indent_specs_into, IndentSpec, IndentTable};

#[test]
fn declare_indent_number() {
    let table =
        harvest_indent_specs("(defmacro my-when (c &rest body) (declare (indent 1)) body)");
    assert_eq!(table.get("my-when"), Some(&IndentSpec::Number(1)));
}

#[test]
fn declare_indent_defun() {
    let table = harvest_indent_specs("(defmacro deffoo (name) (declare (indent defun)) name)");
    assert_eq!(table.get("deffoo"), Some(&IndentSpec::Defun));
}

#[test]
fn declare_indent_function_name() {
    let table = harvest_indent_specs("(defmacro m (a) (declare (indent my-indent-fn)) a)");
    assert_eq!(
        table.get("m"),
        Some(&IndentSpec::Function("my-indent-fn".into()))
    );
}

#[test]
fn put_lisp_indent_function() {
    let table = harvest_indent_specs("(put 'with-foo 'lisp-indent-function 2)");
    assert_eq!(table.get("with-foo"), Some(&IndentSpec::Number(2)));
}

#[test]
fn put_quoted_defun_spec() {
    let table = harvest_indent_specs("(put 'my-form 'lisp-indent-function 'defun)");
    assert_eq!(table.get("my-form"), Some(&IndentSpec::Defun));
}

#[test]
fn function_put_signal() {
    let table = harvest_indent_specs("(function-put 'my-macro 'lisp-indent-function 3)");
    assert_eq!(table.get("my-macro"), Some(&IndentSpec::Number(3)));
}

#[test]
fn non_definition_macro_gets_indent() {
    // A control macro that is not a def-form still carries an indent spec
    // (via put) — the table serves it, which a FormSpec-only design could not.
    let table = harvest_indent_specs("(put 'dolist 'lisp-indent-function 1)");
    assert_eq!(table.get("dolist"), Some(&IndentSpec::Number(1)));
}

#[test]
fn raw_fallback_for_list_spec() {
    let table = harvest_indent_specs("(put 'weird 'lisp-indent-function '(1 2))");
    assert_eq!(table.get("weird"), Some(&IndentSpec::Raw("(1 2)".into())));
}

#[test]
fn nil_spec_yields_no_entry() {
    // `nil` means "no special indent" — not an indent function named nil.
    let table = harvest_indent_specs("(put 'plain 'lisp-indent-function nil)");
    assert!(table.get("plain").is_none());
}

#[test]
fn vector_literal_content_is_not_harvested() {
    // A (put …) inside an elisp `[…]` vector is data, never executed.
    let table = harvest_indent_specs("(defconst k [(put 'y 'lisp-indent-function 5)])");
    assert!(table.get("y").is_none());
}

#[test]
fn quoted_list_content_is_not_harvested() {
    let table = harvest_indent_specs("(defvar d '((put 'z 'lisp-indent-function 5)))");
    assert!(table.get("z").is_none());
}

#[test]
fn table_outlives_and_merges_across_sources() {
    // The owned table accumulates across files and outlives the sources.
    let mut table = IndentTable::new();
    {
        let src_a = String::from("(put 'a 'lisp-indent-function 1)");
        let src_b = String::from("(put 'b 'lisp-indent-function 2)");
        harvest_indent_specs_into(&src_a, &mut table);
        harvest_indent_specs_into(&src_b, &mut table);
        // src_a / src_b dropped here.
    }
    assert_eq!(table.get("a"), Some(&IndentSpec::Number(1)));
    assert_eq!(table.get("b"), Some(&IndentSpec::Number(2)));

    // merge: later table wins on collision.
    let mut other = IndentTable::new();
    other.insert("a", IndentSpec::Defun);
    table.merge(other);
    assert_eq!(table.get("a"), Some(&IndentSpec::Defun));
}

#[test]
fn empty_when_no_specs() {
    let table = harvest_indent_specs("(defun plain (x) x)");
    assert!(table.is_empty());
}

#[test]
fn indent_table_extend_keeps_the_later_spec() {
    let mut table = IndentTable::new();
    table.insert("a", IndentSpec::Number(1));
    table.extend(vec![
        ("a".to_string(), IndentSpec::Defun),
        ("b".to_string(), IndentSpec::Number(2)),
        ("b".to_string(), IndentSpec::Number(3)),
    ]);
    assert_eq!(table.len(), 2);
    assert_eq!(table.get("a"), Some(&IndentSpec::Defun));
    assert_eq!(table.get("b"), Some(&IndentSpec::Number(3)));
}

#[test]
fn indent_table_iter_yields_every_symbol_once() {
    let mut table = IndentTable::new();
    table.insert("a", IndentSpec::Number(1));
    table.insert("b", IndentSpec::Defun);
    table.insert("a", IndentSpec::Number(2));
    let entries = table.iter();
    assert_eq!(entries.len(), 2);
    let mut names: Vec<&str> = entries.iter().map(|e| e.0).collect();
    names.sort();
    assert_eq!(names, vec!["a", "b"]);
    for (k, v) in &entries {
        assert_eq!(table.get(k), Some(*v));
    }
}
