//! Tests of dialect detection.

use lib::detect::{detect, detect_project, Confidence, Detection};
use lib::Dialect;

#[test]
fn unambiguous_extension_is_high() {
    assert_eq!(
        detect(Some("init.el"), "(defun f ())"),
        Detection { dialect: Some(Dialect::EmacsLisp), confidence: Confidence::High, reason: "unambiguous extension" }
    );
    assert_eq!(
        detect(Some("core.clj"), "(ns app)").dialect,
        Some(Dialect::Clojure)
    );
    assert_eq!(
        detect(Some("data.edn"), "{:a 1}").dialect,
        Some(Dialect::Edn)
    );
}

#[test]
fn lang_directive_beats_everything() {
    let d = detect(Some("weird.txt"), "#lang typed/racket\n(define x 1)");
    assert_eq!(d.dialect, Some(Dialect::Racket));
    assert_eq!(d.confidence, Confidence::High);
    // Leading whitespace before #lang still counts.
    assert_eq!(
        detect(None, "  #lang racket").dialect,
        Some(Dialect::Racket)
    );
}

#[test]
fn shebang_env_and_direct() {
    assert_eq!(
        detect(None, "#!/usr/bin/env fennel\n(local x 1)").dialect,
        Some(Dialect::Fennel)
    );
    assert_eq!(
        detect(None, "#!/usr/bin/guile -s\n!#\n(display 1)").dialect,
        Some(Dialect::Guile)
    );
    assert_eq!(
        detect(Some("script"), "#!/usr/bin/sbcl --script\n(print 1)").dialect,
        Some(Dialect::CommonLisp)
    );
}

#[test]
fn shared_scm_extension_disambiguates_guile() {
    // Plain .scm → the tolerant superset.
    let d = detect(Some("lib.scm"), "(define (f x) x)");
    assert_eq!(d.dialect, Some(Dialect::SchemeSuperset));
    assert_eq!(d.confidence, Confidence::Medium);
    // Guile module form → Guile.
    let d = detect(Some("lib.scm"), "(define-module (a b))\n(define x 1)");
    assert_eq!(d.dialect, Some(Dialect::Guile));
}

#[test]
fn shared_lsp_extension_disambiguates_autolisp() {
    assert_eq!(
        detect(Some("cmd.lsp"), "(defun c:hello () (princ))").dialect,
        Some(Dialect::AutoLisp)
    );
    assert_eq!(
        detect(Some("pkg.lsp"), "(defpackage :app)").dialect,
        Some(Dialect::CommonLisp)
    );
    // A .lsp with no distinctive content defaults to the first candidate.
    assert_eq!(
        detect(Some("x.lsp"), "(+ 1 2)").dialect,
        Some(Dialect::CommonLisp)
    );
}

#[test]
fn content_only_markers() {
    assert_eq!(
        detect(None, "(define-library (foo) (export bar))").dialect,
        Some(Dialect::Scheme)
    );
    assert_eq!(
        detect(None, "(in-package :cl-user)").dialect,
        Some(Dialect::CommonLisp)
    );
    assert_eq!(
        detect(None, ";;; -*- lexical-binding: t -*-\n(defun f ())").dialect,
        Some(Dialect::EmacsLisp)
    );
    let d = detect(None, "(define-library (x))");
    assert_eq!(d.confidence, Confidence::Low);
}

#[test]
fn nothing_detected_is_none_not_a_wrong_guess() {
    let d = detect(Some("mystery.txt"), "(+ 1 2)");
    assert_eq!(d.dialect, None);
    assert_eq!(detect(None, "(+ 1 2)").dialect, None);
}

#[test]
fn extension_registry_round_trips_and_shares() {
    assert_eq!(Dialect::from_extension("el"), &[Dialect::EmacsLisp]);
    assert_eq!(Dialect::from_extension(".EL"), &[Dialect::EmacsLisp]); // dot + case
    assert_eq!(
        Dialect::from_extension("scm"),
        &[Dialect::SchemeSuperset, Dialect::Guile]
    );
    assert_eq!(
        Dialect::from_extension("lsp"),
        &[Dialect::CommonLisp, Dialect::AutoLisp]
    );
    assert!(Dialect::from_extension("txt").is_empty());
    assert!(Dialect::EmacsLisp.extensions().contains(&"el"));
}

#[test]
fn project_aggregates_order_independently() {
    let files = [
        ("a.clj", "(ns a)"),
        ("b.clj", "(ns b)"),
        ("weird.el", "(defun f ())"),
    ];
    assert_eq!(detect_project(&files), Some(Dialect::Clojure));
    // Reversed order → same winner (order-independent aggregation).
    let mut rev = files;
    rev.reverse();
    assert_eq!(detect_project(&rev), Some(Dialect::Clojure));
    assert_eq!(detect_project(&Vec::<(&str, &str)>::new()), None);
}
