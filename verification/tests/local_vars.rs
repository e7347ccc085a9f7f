use lib::emacs::local_vars::file_locals;

#[test]
fn header_variable_form() {
    let fl = file_locals(";;; x -*- indent-tabs-mode: t; tab-width: 4 -*-\n(foo)\n");
    assert_eq!(fl.get("indent-tabs-mode"), Some("t"));
    assert_eq!(fl.get("tab-width"), Some("4"));
}

#[test]
fn header_bare_mode_form_normalizes_to_mode() {
    let fl = file_locals("-*- lisp -*-\n(foo)");
    assert_eq!(fl.get("mode"), Some("lisp"));
}

#[test]
fn shebang_line_is_skipped_for_header() {
    let fl = file_locals("#!/usr/bin/emacs --script\n;; -*- tab-width: 2 -*-\n");
    assert_eq!(fl.get("tab-width"), Some("2"));
}

#[test]
fn footer_block_with_comment_prefix() {
    let fl = file_locals("(foo)\n;; Local Variables:\n;; indent-tabs-mode: t\n;; End:\n");
    assert_eq!(fl.get("indent-tabs-mode"), Some("t"));
}

#[test]
fn footer_overrides_header_last_wins() {
    let src = ";;; -*- tab-width: 2 -*-\n(x)\n;; Local Variables:\n;; tab-width: 8\n;; End:\n";
    let fl = file_locals(src);
    assert_eq!(fl.get("tab-width"), Some("8"));
    // Both bindings are retained in order.
    assert_eq!(fl.len(), 2);
}

#[test]
fn eval_entry_is_surfaced_as_data_not_executed() {
    let src = "(x)\n;; Local Variables:\n;; eval: (setq foo 1)\n;; End:\n";
    let fl = file_locals(src);
    assert_eq!(fl.get("eval"), Some("(setq foo 1)"));
}

#[test]
fn no_locals_is_empty() {
    let fl = file_locals("(defun f ())\n");
    assert!(fl.is_empty());
    assert_eq!(fl.get("tab-width"), None);
}

#[test]
fn local_vars_string_value_kept_verbatim() {
    // The consumer, not this reader, strips quotes / reads the elisp value.
    let fl = file_locals(";;; -*- foo: \"bar baz\" -*-\n");
    assert_eq!(fl.get("foo"), Some("\"bar baz\""));
}

#[test]
fn module_example_reads_header_pairs() {
    let src = ";;; x.el -*- lexical-binding: t; tab-width: 4 -*-\n(defun f ())\n";
    let fl = file_locals(src);
    assert_eq!(fl.get("lexical-binding"), Some("t"));
    assert_eq!(fl.get("tab-width"), Some("4"));
}

#[test]
fn iter_keeps_duplicates_in_application_order() {
    let src = "-*- a: 1; b: 2 -*-\n;; Local Variables:\n;; a: 3\n;; End:\n";
    let fl = file_locals(src);
    let all = fl.iter();
    assert_eq!(all, vec![("a", "1"), ("b", "2"), ("a", "3")]);
    assert_eq!(fl.get("a"), Some("3"));
}

#[test]
fn block_stops_at_end_line() {
    let src = ";; Local Variables:\n;; a: 1\n;; End:\n;; b: 2\n";
    let fl = file_locals(src);
    assert_eq!(fl.get("a"), Some("1"));
    assert_eq!(fl.get("b"), None);
}

#[test]
fn block_line_without_prefix_is_trimmed() {
    let src = "/* Local Variables: */\n   c-basic-offset: 4\n/* End: */\n";
    let fl = file_locals(src);
    assert_eq!(fl.get("c-basic-offset"), Some("4"));
}

#[test]
fn crlf_lines_and_empty_names_are_handled() {
    let src = "-*- : x; k: v -*-\r\n(x)\r\n";
    let fl = file_locals(src);
    assert_eq!(fl.len(), 1);
    assert_eq!(fl.get("k"), Some("v"));
}

#[test]
fn last_local_variables_block_wins() {
    let src = ";; Local Variables:\n;; a: 1\n;; End:\n;; Local Variables:\n;; a: 2\n;; End:\n";
    let fl = file_locals(src);
    assert_eq!(fl.len(), 1);
    assert_eq!(fl.get("a"), Some("2"));
}
