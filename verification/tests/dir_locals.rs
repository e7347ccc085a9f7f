use lib::emacs::dir_locals::DirLocals;

#[test]
fn flat_mode_dotted_form() {
    let dl = DirLocals::parse("((emacs-lisp-mode . ((indent-tabs-mode . t) (tab-width . 3))))");
    assert_eq!(
        dl.for_mode("emacs-lisp-mode"),
        vec![("indent-tabs-mode", "t"), ("tab-width", "3")]
    );
}

#[test]
fn non_dotted_mode_form() {
    // `(MODE (VAR . VAL) …)` — the form php-mode's own dir-locals uses.
    let dl = DirLocals::parse("((emacs-lisp-mode (tab-width . 5) (nameless-mode . t)))");
    assert_eq!(
        dl.for_mode("emacs-lisp-mode"),
        vec![("tab-width", "5"), ("nameless-mode", "t")]
    );
}

#[test]
fn nil_applies_to_all_modes_first() {
    let dl = DirLocals::parse(
        "((nil . ((fill-column . 80))) (emacs-lisp-mode . ((fill-column . 70))))",
    );
    // nil first, then the mode-specific one (which the consumer applies last).
    assert_eq!(
        dl.for_mode("emacs-lisp-mode"),
        vec![("fill-column", "80"), ("fill-column", "70")]
    );
    // A mode with no specific entry still gets the nil bindings.
    assert_eq!(dl.for_mode("scheme-mode"), vec![("fill-column", "80")]);
}

#[test]
fn eval_value_is_surfaced_verbatim_not_run() {
    let dl = DirLocals::parse("((nil . ((eval . (setq foo 1)))))");
    assert_eq!(dl.for_mode("any"), vec![("eval", "(setq foo 1)")]);
}

#[test]
fn dir_locals_string_value_kept_verbatim() {
    let dl = DirLocals::parse("((nil . ((project-name . \"my app\"))))");
    assert_eq!(dl.for_mode("any"), vec![("project-name", "\"my app\"")]);
}

#[test]
fn subdirectory_scope_is_captured_but_excluded_from_for_mode() {
    let dl =
        DirLocals::parse("((nil . ((a . 1))) (\"tests\" . ((emacs-lisp-mode . ((b . 2))))))");
    // for_mode only resolves top-level entries.
    assert_eq!(dl.for_mode("emacs-lisp-mode"), vec![("a", "1")]);
    // ...but the subdir group is retained for a consumer that wants it.
    let sub = dl
        .entries()
        .iter()
        .find(|e| e.subdir.as_deref() == Some("tests"))
        .expect("subdir entry");
    assert_eq!(sub.mode.as_deref(), Some("emacs-lisp-mode"));
    assert_eq!(sub.vars, vec![("b".to_string(), "2".to_string())]);
}

#[test]
fn malformed_input_is_empty() {
    assert!(DirLocals::parse("").entries().is_empty());
    assert!(DirLocals::parse("not-a-list").entries().is_empty());
    assert!(DirLocals::parse("((emacs-lisp-mode))")
        .for_mode("emacs-lisp-mode")
        .is_empty());
}

#[test]
fn module_example_reads_mode_vars() {
    let dl = DirLocals::parse("((emacs-lisp-mode . ((indent-tabs-mode . t) (tab-width . 4))))");
    let vars = dl.for_mode("emacs-lisp-mode");
    assert_eq!(vars, vec![("indent-tabs-mode", "t"), ("tab-width", "4")]);
}

#[test]
fn nil_group_has_no_mode_and_other_modes_are_excluded() {
    let dl = DirLocals::parse("((nil . ((a . 1))) (c-mode . ((b . 2))) (emacs-lisp-mode . ((c . 3))))");
    let entries = dl.entries();
    assert_eq!(entries.len(), 3);
    assert_eq!(entries[0].mode, None);
    assert_eq!(entries[1].mode.as_deref(), Some("c-mode"));
    assert_eq!(dl.for_mode("c-mode"), vec![("a", "1"), ("b", "2")]);
}

#[test]
fn pair_with_extra_items_is_skipped() {
    let dl = DirLocals::parse("((nil (a 1 2) (b 3) (c . 4)))");
    assert_eq!(dl.for_mode("x"), vec![("b", "3"), ("c", "4")]);
}

#[test]
fn multiple_quotes_are_stripped_from_subdir() {
    let dl = DirLocals::parse("((\"src/\" . ((nil . ((x . y))))))");
    let e = &dl.entries()[0];
    assert_eq!(e.subdir.as_deref(), Some("src/"));
    assert_eq!(e.mode, None);
    assert!(dl.for_mode("any").is_empty());
}
