//! Bundled standard Emacs indent-spec data.
//!
//! [`crate::indent`] owns the mechanism — [`IndentSpec`], [`IndentTable`]
//! and the harvesting of a file's own `declare`/`put` specs. This module
//! ships the standard data Emacs carries built in (`if` → 2, `defun` → 2,
//! `lambda` → `defun`, …), so a formatter matches a file indented by a
//! fully-loaded Emacs without re-harvesting it by hand. The indent
//! algorithm stays the consumer's; this is data only.
//!
//! Emacs is the source of truth: the table was harvested once from a
//! running Emacs (with `cl-lib`, `pcase`, `cc-mode` and a few other core
//! packages loaded, reading `lisp-indent-function` through `function-get`
//! with its `'macro` argument) and is bundled as data; nothing is fetched
//! at run time. Every entry is an integer or `defun` spec.

#![verifier::loop_isolation(false)]

use vstd::prelude::*;

use crate::indent::{IndentSpec, IndentTable};
use crate::options::Dialect;

verus! {

/// The text of each `(symbol, n)` pair.
pub open spec fn number_view(v: Seq<(&str, u32)>) -> Seq<(Seq<char>, u32)> {
    v.map_values(|p: (&str, u32)| (p.0@, p.1))
}

/// The text of each symbol.
pub open spec fn defun_view(v: Seq<&str>) -> Seq<Seq<char>> {
    v.map_values(|p: &str| p@)
}

/// The integer indent specs Emacs carries built in, as `(symbol, n)`.
pub open spec fn spec_number_specs() -> Seq<(Seq<char>, u32)> {
    seq![
        ("and-let*"@, 1u32), ("atomic-change-group"@, 0u32), ("benchmark-elapse"@, 0u32),
        ("benchmark-progn"@, 0u32), ("benchmark-run"@, 1u32), ("benchmark-run-compiled"@, 1u32),
        ("byte-compile-maybe-guarded"@, 1u32), ("byte-optimize--pcase"@, 1u32), ("cal-menu-x-popup-menu"@, 2u32),
        ("calendar-dlet"@, 1u32), ("calendar-in-read-only-buffer"@, 1u32), ("catch"@, 1u32),
        ("cl--define-built-in-type"@, 2u32), ("cl-block"@, 1u32), ("cl-callf"@, 2u32),
        ("cl-callf2"@, 3u32), ("cl-case"@, 1u32), ("cl-defgeneric"@, 2u32),
        ("cl-define-compiler-macro"@, 2u32), ("cl-defmacro"@, 2u32), ("cl-defstruct"@, 1u32),
        ("cl-defsubst"@, 2u32), ("cl-deftype"@, 2u32), ("cl-defun"@, 2u32),
        ("cl-destructuring-bind"@, 2u32), ("cl-do"@, 2u32), ("cl-do*"@, 2u32),
        ("cl-do-all-symbols"@, 1u32), ("cl-do-symbols"@, 1u32), ("cl-dolist"@, 1u32),
        ("cl-dotimes"@, 1u32), ("cl-ecase"@, 1u32), ("cl-etypecase"@, 1u32),
        ("cl-eval-when"@, 1u32), ("cl-flet"@, 1u32), ("cl-flet*"@, 1u32),
        ("cl-generic-define-generalizer"@, 1u32), ("cl-iter-defun"@, 2u32), ("cl-labels"@, 1u32),
        ("cl-letf"@, 1u32), ("cl-letf*"@, 1u32), ("cl-locally"@, 0u32),
        ("cl-macrolet"@, 1u32), ("cl-multiple-value-bind"@, 2u32), ("cl-multiple-value-setq"@, 1u32),
        ("cl-once-only"@, 1u32), ("cl-progv"@, 2u32), ("cl-return-from"@, 1u32),
        ("cl-symbol-macrolet"@, 1u32), ("cl-the"@, 1u32), ("cl-typecase"@, 1u32),
        ("cl-with-accessors"@, 2u32), ("cl-with-gensyms"@, 1u32), ("combine-after-change-calls"@, 0u32),
        ("combine-change-calls"@, 2u32), ("comment-with-narrowing"@, 2u32), ("condition-case"@, 2u32),
        ("condition-case-unless-debug"@, 2u32), ("cps--add-state"@, 1u32), ("custom-dirlocals-with-buffer"@, 0u32),
        ("debugger-env-macro"@, 0u32), ("def-edebug-elem-spec"@, 1u32), ("def-edebug-spec"@, 1u32),
        ("defadvice"@, 2u32), ("define-advice"@, 2u32), ("define-generic-mode"@, 1u32),
        ("define-ibuffer-filter"@, 2u32), ("define-ibuffer-op"@, 2u32), ("define-ibuffer-sorter"@, 1u32),
        ("define-icon"@, 2u32), ("defmacro"@, 2u32), ("defsubst"@, 2u32),
        ("deftheme"@, 1u32), ("defun"@, 2u32), ("defvar-keymap"@, 1u32),
        ("delay-mode-hooks"@, 0u32), ("dlet"@, 1u32), ("dolist"@, 1u32),
        ("dolist-with-progress-reporter"@, 2u32), ("dont-compile"@, 0u32), ("dotimes"@, 1u32),
        ("dotimes-with-progress-reporter"@, 2u32), ("easy-mmode-define-navigation"@, 5u32), ("easy-mmode-defmap"@, 1u32),
        ("easy-mmode-defsyntax"@, 1u32), ("eldoc--documentation-strategy-defcustom"@, 2u32), ("ert-deftest"@, 2u32),
        ("ert-font-lock-deftest"@, 1u32), ("ert-font-lock-deftest-file"@, 1u32), ("ert-info"@, 1u32),
        ("ert-with-buffer-renamed"@, 1u32), ("ert-with-buffer-selected"@, 1u32), ("ert-with-message-capture"@, 1u32),
        ("ert-with-temp-file"@, 1u32), ("ert-with-test-buffer-selected"@, 1u32), ("eval-after-load"@, 1u32),
        ("eval-and-compile"@, 0u32), ("eval-when-compile"@, 0u32), ("flymake--with-backend-state"@, 2u32),
        ("gv-define-expander"@, 1u32), ("gv-define-setter"@, 2u32), ("gv-letplace"@, 2u32),
        ("handler-bind"@, 1u32), ("ibuffer-aif"@, 2u32), ("ibuffer-awhen"@, 1u32),
        ("ibuffer-save-marks"@, 0u32), ("if"@, 2u32), ("if-let"@, 2u32),
        ("if-let*"@, 2u32), ("ignore-error"@, 1u32), ("ignore-errors"@, 0u32),
        ("inhibit-auto-revert"@, 0u32), ("inline"@, 0u32), ("inline--leteval"@, 1u32),
        ("inline-letevals"@, 1u32), ("iter-do"@, 1u32), ("let"@, 1u32),
        ("let*"@, 1u32), ("let-alist"@, 1u32), ("let-when-compile"@, 1u32),
        ("letrec"@, 1u32), ("macroexp--accumulate"@, 1u32), ("macroexp--with-extended-form-stack"@, 1u32),
        ("macroexp-let2"@, 3u32), ("macroexp-let2*"@, 2u32), ("macroexp-preserve-posification"@, 1u32),
        ("map-let"@, 2u32), ("minibuffer-with-setup-hook"@, 1u32), ("named-let"@, 2u32),
        ("oclosure--lambda"@, 3u32), ("oclosure-define"@, 1u32), ("oclosure-lambda"@, 2u32),
        ("org-add-props"@, 2u32), ("org-agenda-with-point-at-orig-entry"@, 1u32), ("org-babel-comint-async-delete-dangling-and-eval"@, 1u32),
        ("org-babel-comint-in-buffer"@, 1u32), ("org-babel-comint-with-output"@, 1u32), ("org-babel-map-call-lines"@, 1u32),
        ("org-babel-map-inline-src-blocks"@, 1u32), ("org-babel-map-src-blocks"@, 1u32), ("org-babel-result-cond"@, 1u32),
        ("org-babel-with-temp-filebuffer"@, 1u32), ("org-cite-emphasize"@, 1u32), ("org-cite-register-processor"@, 1u32),
        ("org-combine-change-calls"@, 2u32), ("org-dlet"@, 1u32), ("org-element-adopt"@, 1u32),
        ("org-element-adopt-elements"@, 1u32), ("org-element-ast-map"@, 2u32), ("org-element-lineage-map"@, 2u32),
        ("org-element-map"@, 2u32), ("org-element-with-disabled-cache"@, 0u32), ("org-eval-in-environment"@, 1u32),
        ("org-export-to-buffer"@, 2u32), ("org-export-to-file"@, 2u32), ("org-fold-core-cycle-over-indirect-buffers"@, 0u32),
        ("org-fold-core-ignore-modifications"@, 0u32), ("org-fold-core-save-visibility"@, 1u32), ("org-fold-core-suppress-folding-fix"@, 0u32),
        ("org-fold-save-outline-visibility"@, 1u32), ("org-lint-add-checker"@, 1u32), ("org-no-warnings"@, 0u32),
        ("org-save-outline-visibility"@, 1u32), ("org-unbracket-string"@, 2u32), ("org-with-base-buffer"@, 1u32),
        ("org-with-gensyms"@, 1u32), ("org-with-point-at"@, 1u32), ("org-with-remote-undo"@, 1u32),
        ("org-with-syntax-table"@, 1u32), ("org-with-undo-amalgamate"@, 0u32), ("org-without-partial-completion"@, 0u32),
        ("pcase"@, 1u32), ("pcase-defmacro"@, 2u32), ("pcase-dolist"@, 1u32),
        ("pcase-exhaustive"@, 1u32), ("pcase-let"@, 1u32), ("pcase-let*"@, 1u32),
        ("prog1"@, 1u32), ("prog2"@, 2u32), ("progn"@, 0u32),
        ("replace--push-stack"@, 0u32), ("report-errors"@, 1u32), ("rx-let"@, 1u32),
        ("rx-let-eval"@, 1u32), ("save-current-buffer"@, 0u32), ("save-excursion"@, 0u32),
        ("save-mark-and-excursion"@, 0u32), ("save-match-data"@, 0u32), ("save-restriction"@, 0u32),
        ("save-selected-window"@, 0u32), ("save-window-excursion"@, 0u32), ("seq-doseq"@, 1u32),
        ("seq-let"@, 2u32), ("static-if"@, 2u32), ("static-unless"@, 1u32),
        ("static-when"@, 1u32), ("thread-first"@, 0u32), ("thread-last"@, 0u32),
        ("track-mouse"@, 0u32), ("treesit--some"@, 1u32), ("treesit-node-get"@, 1u32),
        ("treesit-query-first-valid"@, 1u32), ("treesit-query-with-fallback"@, 1u32), ("unless"@, 1u32),
        ("unwind-protect"@, 1u32), ("when"@, 1u32), ("when-let"@, 1u32),
        ("when-let*"@, 1u32), ("while"@, 1u32), ("while-let"@, 1u32),
        ("while-no-input"@, 0u32), ("with-auto-compression-mode"@, 0u32), ("with-buffer-unmodified-if-unchanged"@, 0u32),
        ("with-case-table"@, 1u32), ("with-category-table"@, 1u32), ("with-coding-priority"@, 1u32),
        ("with-connection-local-application-variables"@, 1u32), ("with-connection-local-variables"@, 0u32), ("with-current-buffer"@, 1u32),
        ("with-current-buffer-window"@, 3u32), ("with-decoded-time-value"@, 1u32), ("with-delayed-message"@, 1u32),
        ("with-demoted-errors"@, 1u32), ("with-displayed-buffer-window"@, 3u32), ("with-environment-variables"@, 1u32),
        ("with-eval-after-load"@, 1u32), ("with-existing-directory"@, 0u32), ("with-file-modes"@, 1u32),
        ("with-help-window"@, 1u32), ("with-local-quit"@, 0u32), ("with-locale-environment"@, 1u32),
        ("with-memoization"@, 1u32), ("with-minibuffer-completions-window"@, 0u32), ("with-minibuffer-selected-window"@, 0u32),
        ("with-mutex"@, 1u32), ("with-no-warnings"@, 0u32), ("with-output-to-string"@, 0u32),
        ("with-output-to-temp-buffer"@, 1u32), ("with-restriction"@, 2u32), ("with-selected-frame"@, 1u32),
        ("with-selected-window"@, 1u32), ("with-silent-modifications"@, 0u32), ("with-slots"@, 2u32),
        ("with-sqlite-transaction"@, 1u32), ("with-suppressed-warnings"@, 1u32), ("with-syntax-table"@, 1u32),
        ("with-system-sleep-block"@, 1u32), ("with-temp-buffer"@, 0u32), ("with-temp-buffer-window"@, 3u32),
        ("with-temp-file"@, 1u32), ("with-temp-message"@, 1u32), ("with-timeout"@, 1u32),
        ("with-undo-amalgamate"@, 0u32), ("with-window-non-dedicated"@, 1u32), ("with-work-buffer"@, 0u32),
        ("with-wrapper-hook"@, 2u32), ("without-remote-files"@, 0u32), ("without-restriction"@, 0u32),
        ("c-define-abbrev-table"@, 1u32), ("c-font-lock-doc-comments"@, 2u32), ("c-fontify-types-and-refs"@, 1u32),
        ("c-lang-defconst"@, 1u32), ("c-let*-maybe-max-specpdl-size"@, 1u32), ("c-make-keywords-re"@, 1u32),
        ("c-safe"@, 0u32), ("c-save-buffer-state"@, 1u32), ("c-tentative-buffer-changes"@, 0u32),
        ("c-with-syntax-table"@, 1u32), ("cc-eval-when-compile"@, 0u32), ("org-compatible-face"@, 1u32),
        ("org-fold-core-ignore-fragility-checks"@, 0u32), ("org-persist-collection-let"@, 1u32),
    ]
}

/// The symbols Emacs indents like `defun`.
pub open spec fn spec_defun_specs() -> Seq<Seq<char>> {
    seq![
        "autoload"@, "cl-defmethod"@, "cl-generic-define-context-rewriter"@, "defalias"@,
        "defcalcmodevar"@, "defclass"@, "defconst"@, "defcustom"@,
        "defface"@, "defgroup"@, "defimage"@, "define-abbrev"@,
        "define-abbrev-table"@, "define-alternatives"@, "define-auto-insert"@, "define-button-type"@,
        "define-category"@, "define-ccl-program"@, "define-char-code-property"@, "define-charset"@,
        "define-charset-internal"@, "define-coding-system"@, "define-compilation-mode"@, "define-completion-category"@,
        "define-derived-mode"@, "define-fringe-bitmap"@, "define-global-minor-mode"@, "define-globalized-minor-mode"@,
        "define-ibuffer-column"@, "define-inline"@, "define-key-after"@, "define-keymap"@,
        "define-mail-user-agent"@, "define-minor-mode"@, "define-multisession-variable"@, "define-obsolete-function-alias"@,
        "define-obsolete-variable-alias"@, "define-short-documentation-group"@, "define-skeleton"@, "define-translation-hash-table"@,
        "define-translation-table"@, "define-treesit-generic-mode"@, "define-widget"@, "define-widget-keywords"@,
        "defmath"@, "defvar"@, "defvar-local"@, "defvaralias"@,
        "easy-menu-define"@, "easy-mmode-define-global-mode"@, "easy-mmode-define-minor-mode"@, "isearch-define-mode-toggle"@,
        "iter-defun"@, "keymap-set-after"@, "lambda"@, "org-agenda--insert-overriding-header"@,
        "org-defvaralias"@, "pcase-lambda"@, "rx-define"@, "transient-append-suffix"@,
        "transient-inline-group"@, "transient-insert-suffix"@, "transient-remove-suffix"@, "transient-replace-suffix"@,
        "use-package"@, "use-package-only-one"@, "which-key-add-keymap-based-replacements"@, "which-key-add-major-mode-key-based-replacements"@,
        "defcustom-c-stylevar"@, "use-package-as-one"@,
    ]
}

/// The integer indent specs Emacs carries built in, as `(symbol, n)`,
/// harvested once from a running Emacs with `cc-mode` loaded.
pub fn number_specs() -> (v: Vec<(&'static str, u32)>)
    ensures
        number_view(v@) == spec_number_specs(),
{
    let v: Vec<(&'static str, u32)> = vec![
        ("and-let*", 1), ("atomic-change-group", 0), ("benchmark-elapse", 0),
        ("benchmark-progn", 0), ("benchmark-run", 1), ("benchmark-run-compiled", 1),
        ("byte-compile-maybe-guarded", 1), ("byte-optimize--pcase", 1), ("cal-menu-x-popup-menu", 2),
        ("calendar-dlet", 1), ("calendar-in-read-only-buffer", 1), ("catch", 1),
        ("cl--define-built-in-type", 2), ("cl-block", 1), ("cl-callf", 2),
        ("cl-callf2", 3), ("cl-case", 1), ("cl-defgeneric", 2),
        ("cl-define-compiler-macro", 2), ("cl-defmacro", 2), ("cl-defstruct", 1),
        ("cl-defsubst", 2), ("cl-deftype", 2), ("cl-defun", 2),
        ("cl-destructuring-bind", 2), ("cl-do", 2), ("cl-do*", 2),
        ("cl-do-all-symbols", 1), ("cl-do-symbols", 1), ("cl-dolist", 1),
        ("cl-dotimes", 1), ("cl-ecase", 1), ("cl-etypecase", 1),
        ("cl-eval-when", 1), ("cl-flet", 1), ("cl-flet*", 1),
        ("cl-generic-define-generalizer", 1), ("cl-iter-defun", 2), ("cl-labels", 1),
        ("cl-letf", 1), ("cl-letf*", 1), ("cl-locally", 0),
        ("cl-macrolet", 1), ("cl-multiple-value-bind", 2), ("cl-multiple-value-setq", 1),
        ("cl-once-only", 1), ("cl-progv", 2), ("cl-return-from", 1),
        ("cl-symbol-macrolet", 1), ("cl-the", 1), ("cl-typecase", 1),
        ("cl-with-accessors", 2), ("cl-with-gensyms", 1), ("combine-after-change-calls", 0),
        ("combine-change-calls", 2), ("comment-with-narrowing", 2), ("condition-case", 2),
        ("condition-case-unless-debug", 2), ("cps--add-state", 1), ("custom-dirlocals-with-buffer", 0),
        ("debugger-env-macro", 0), ("def-edebug-elem-spec", 1), ("def-edebug-spec", 1),
        ("defadvice", 2), ("define-advice", 2), ("define-generic-mode", 1),
        ("define-ibuffer-filter", 2), ("define-ibuffer-op", 2), ("define-ibuffer-sorter", 1),
        ("define-icon", 2), ("defmacro", 2), ("defsubst", 2),
        ("deftheme", 1), ("defun", 2), ("defvar-keymap", 1),
        ("delay-mode-hooks", 0), ("dlet", 1), ("dolist", 1),
        ("dolist-with-progress-reporter", 2), ("dont-compile", 0), ("dotimes", 1),
        ("dotimes-with-progress-reporter", 2), ("easy-mmode-define-navigation", 5), ("easy-mmode-defmap", 1),
        ("easy-mmode-defsyntax", 1), ("eldoc--documentation-strategy-defcustom", 2), ("ert-deftest", 2),
        ("ert-font-lock-deftest", 1), ("ert-font-lock-deftest-file", 1), ("ert-info", 1),
        ("ert-with-buffer-renamed", 1), ("ert-with-buffer-selected", 1), ("ert-with-message-capture", 1),
        ("ert-with-temp-file", 1), ("ert-with-test-buffer-selected", 1), ("eval-after-load", 1),
        ("eval-and-compile", 0), ("eval-when-compile", 0), ("flymake--with-backend-state", 2),
        ("gv-define-expander", 1), ("gv-define-setter", 2), ("gv-letplace", 2),
        ("handler-bind", 1), ("ibuffer-aif", 2), ("ibuffer-awhen", 1),
        ("ibuffer-save-marks", 0), ("if", 2), ("if-let", 2),
        ("if-let*", 2), ("ignore-error", 1), ("ignore-errors", 0),
        ("inhibit-auto-revert", 0), ("inline", 0), ("inline--leteval", 1),
        ("inline-letevals", 1), ("iter-do", 1), ("let", 1),
        ("let*", 1), ("let-alist", 1), ("let-when-compile", 1),
        ("letrec", 1), ("macroexp--accumulate", 1), ("macroexp--with-extended-form-stack", 1),
        ("macroexp-let2", 3), ("macroexp-let2*", 2), ("macroexp-preserve-posification", 1),
        ("map-let", 2), ("minibuffer-with-setup-hook", 1), ("named-let", 2),
        ("oclosure--lambda", 3), ("oclosure-define", 1), ("oclosure-lambda", 2),
        ("org-add-props", 2), ("org-agenda-with-point-at-orig-entry", 1), ("org-babel-comint-async-delete-dangling-and-eval", 1),
        ("org-babel-comint-in-buffer", 1), ("org-babel-comint-with-output", 1), ("org-babel-map-call-lines", 1),
        ("org-babel-map-inline-src-blocks", 1), ("org-babel-map-src-blocks", 1), ("org-babel-result-cond", 1),
        ("org-babel-with-temp-filebuffer", 1), ("org-cite-emphasize", 1), ("org-cite-register-processor", 1),
        ("org-combine-change-calls", 2), ("org-dlet", 1), ("org-element-adopt", 1),
        ("org-element-adopt-elements", 1), ("org-element-ast-map", 2), ("org-element-lineage-map", 2),
        ("org-element-map", 2), ("org-element-with-disabled-cache", 0), ("org-eval-in-environment", 1),
        ("org-export-to-buffer", 2), ("org-export-to-file", 2), ("org-fold-core-cycle-over-indirect-buffers", 0),
        ("org-fold-core-ignore-modifications", 0), ("org-fold-core-save-visibility", 1), ("org-fold-core-suppress-folding-fix", 0),
        ("org-fold-save-outline-visibility", 1), ("org-lint-add-checker", 1), ("org-no-warnings", 0),
        ("org-save-outline-visibility", 1), ("org-unbracket-string", 2), ("org-with-base-buffer", 1),
        ("org-with-gensyms", 1), ("org-with-point-at", 1), ("org-with-remote-undo", 1),
        ("org-with-syntax-table", 1), ("org-with-undo-amalgamate", 0), ("org-without-partial-completion", 0),
        ("pcase", 1), ("pcase-defmacro", 2), ("pcase-dolist", 1),
        ("pcase-exhaustive", 1), ("pcase-let", 1), ("pcase-let*", 1),
        ("prog1", 1), ("prog2", 2), ("progn", 0),
        ("replace--push-stack", 0), ("report-errors", 1), ("rx-let", 1),
        ("rx-let-eval", 1), ("save-current-buffer", 0), ("save-excursion", 0),
        ("save-mark-and-excursion", 0), ("save-match-data", 0), ("save-restriction", 0),
        ("save-selected-window", 0), ("save-window-excursion", 0), ("seq-doseq", 1),
        ("seq-let", 2), ("static-if", 2), ("static-unless", 1),
        ("static-when", 1), ("thread-first", 0), ("thread-last", 0),
        ("track-mouse", 0), ("treesit--some", 1), ("treesit-node-get", 1),
        ("treesit-query-first-valid", 1), ("treesit-query-with-fallback", 1), ("unless", 1),
        ("unwind-protect", 1), ("when", 1), ("when-let", 1),
        ("when-let*", 1), ("while", 1), ("while-let", 1),
        ("while-no-input", 0), ("with-auto-compression-mode", 0), ("with-buffer-unmodified-if-unchanged", 0),
        ("with-case-table", 1), ("with-category-table", 1), ("with-coding-priority", 1),
        ("with-connection-local-application-variables", 1), ("with-connection-local-variables", 0), ("with-current-buffer", 1),
        ("with-current-buffer-window", 3), ("with-decoded-time-value", 1), ("with-delayed-message", 1),
        ("with-demoted-errors", 1), ("with-displayed-buffer-window", 3), ("with-environment-variables", 1),
        ("with-eval-after-load", 1), ("with-existing-directory", 0), ("with-file-modes", 1),
        ("with-help-window", 1), ("with-local-quit", 0), ("with-locale-environment", 1),
        ("with-memoization", 1), ("with-minibuffer-completions-window", 0), ("with-minibuffer-selected-window", 0),
        ("with-mutex", 1), ("with-no-warnings", 0), ("with-output-to-string", 0),
        ("with-output-to-temp-buffer", 1), ("with-restriction", 2), ("with-selected-frame", 1),
        ("with-selected-window", 1), ("with-silent-modifications", 0), ("with-slots", 2),
        ("with-sqlite-transaction", 1), ("with-suppressed-warnings", 1), ("with-syntax-table", 1),
        ("with-system-sleep-block", 1), ("with-temp-buffer", 0), ("with-temp-buffer-window", 3),
        ("with-temp-file", 1), ("with-temp-message", 1), ("with-timeout", 1),
        ("with-undo-amalgamate", 0), ("with-window-non-dedicated", 1), ("with-work-buffer", 0),
        ("with-wrapper-hook", 2), ("without-remote-files", 0), ("without-restriction", 0),
        ("c-define-abbrev-table", 1), ("c-font-lock-doc-comments", 2), ("c-fontify-types-and-refs", 1),
        ("c-lang-defconst", 1), ("c-let*-maybe-max-specpdl-size", 1), ("c-make-keywords-re", 1),
        ("c-safe", 0), ("c-save-buffer-state", 1), ("c-tentative-buffer-changes", 0),
        ("c-with-syntax-table", 1), ("cc-eval-when-compile", 0), ("org-compatible-face", 1),
        ("org-fold-core-ignore-fragility-checks", 0), ("org-persist-collection-let", 1),
    ];
    assert(number_view(v@) =~= spec_number_specs());
    v
}

/// The symbols Emacs indents like `defun`.
pub fn defun_specs() -> (v: Vec<&'static str>)
    ensures
        defun_view(v@) == spec_defun_specs(),
{
    let v: Vec<&'static str> = vec![
        "autoload", "cl-defmethod", "cl-generic-define-context-rewriter", "defalias",
        "defcalcmodevar", "defclass", "defconst", "defcustom",
        "defface", "defgroup", "defimage", "define-abbrev",
        "define-abbrev-table", "define-alternatives", "define-auto-insert", "define-button-type",
        "define-category", "define-ccl-program", "define-char-code-property", "define-charset",
        "define-charset-internal", "define-coding-system", "define-compilation-mode", "define-completion-category",
        "define-derived-mode", "define-fringe-bitmap", "define-global-minor-mode", "define-globalized-minor-mode",
        "define-ibuffer-column", "define-inline", "define-key-after", "define-keymap",
        "define-mail-user-agent", "define-minor-mode", "define-multisession-variable", "define-obsolete-function-alias",
        "define-obsolete-variable-alias", "define-short-documentation-group", "define-skeleton", "define-translation-hash-table",
        "define-translation-table", "define-treesit-generic-mode", "define-widget", "define-widget-keywords",
        "defmath", "defvar", "defvar-local", "defvaralias",
        "easy-menu-define", "easy-mmode-define-global-mode", "easy-mmode-define-minor-mode", "isearch-define-mode-toggle",
        "iter-defun", "keymap-set-after", "lambda", "org-agenda--insert-overriding-header",
        "org-defvaralias", "pcase-lambda", "rx-define", "transient-append-suffix",
        "transient-inline-group", "transient-insert-suffix", "transient-remove-suffix", "transient-replace-suffix",
        "use-package", "use-package-only-one", "which-key-add-keymap-based-replacements", "which-key-add-major-mode-key-based-replacements",
        "defcustom-c-stylevar", "use-package-as-one",
    ];
    assert(defun_view(v@) =~= spec_defun_specs());
    v
}

/// `m` with each `(symbol, n)` of `s` inserted in order as a number spec.
pub open spec fn with_numbers(m: Map<Seq<char>, IndentSpec>, s: Seq<(Seq<char>, u32)>) -> Map<Seq<char>, IndentSpec>
    decreases s.len(),
{
    if s.len() == 0 {
        m
    } else {
        with_numbers(m, s.drop_last()).insert(s.last().0, IndentSpec::Number(s.last().1))
    }
}

/// `m` with each symbol of `s` inserted in order as a `defun` spec.
pub open spec fn with_defuns(m: Map<Seq<char>, IndentSpec>, s: Seq<Seq<char>>) -> Map<Seq<char>, IndentSpec>
    decreases s.len(),
{
    if s.len() == 0 {
        m
    } else {
        with_defuns(m, s.drop_last()).insert(s.last(), IndentSpec::Defun)
    }
}

/// The bundled table's contents for `dialect`.
pub open spec fn spec_bundled_table(dialect: Dialect) -> Map<Seq<char>, IndentSpec> {
    if dialect == Dialect::EmacsLisp {
        with_defuns(with_numbers(Map::empty(), spec_number_specs()), spec_defun_specs())
    } else {
        Map::empty()
    }
}

/// The bundled standard indent-spec table for `dialect`.
///
/// Populated for [`Dialect::EmacsLisp`]; every other dialect gets an empty
/// table, since these specs are Emacs-specific. Layer a file's own
/// harvested specs on top with [`IndentTable::merge`].
pub fn bundled_table(dialect: Dialect) -> (t: IndentTable)
    ensures
        t.wf(),
        t@ == spec_bundled_table(dialect),
{
    let mut table = IndentTable::new();
    if dialect == Dialect::EmacsLisp {
        let numbers = number_specs();
        let mut i: usize = 0;
        while i < numbers.len()
            invariant
                i <= numbers.len(),
                table.wf(),
                number_view(numbers@) == spec_number_specs(),
                table@ == with_numbers(Map::empty(), spec_number_specs().take(i as int)),
            decreases numbers.len() - i,
        {
            assert(spec_number_specs().take(i + 1).drop_last() =~= spec_number_specs().take(i as int));
            let (sym, n) = numbers[i];
            table.insert(sym, IndentSpec::Number(n));
            i = i + 1;
        }
        assert(spec_number_specs().take(numbers.len() as int) =~= spec_number_specs());
        let defuns = defun_specs();
        let ghost base = table@;
        let mut j: usize = 0;
        while j < defuns.len()
            invariant
                j <= defuns.len(),
                table.wf(),
                defun_view(defuns@) == spec_defun_specs(),
                table@ == with_defuns(base, spec_defun_specs().take(j as int)),
            decreases defuns.len() - j,
        {
            assert(spec_defun_specs().take(j + 1).drop_last() =~= spec_defun_specs().take(j as int));
            table.insert(defuns[j], IndentSpec::Defun);
            j = j + 1;
        }
        assert(spec_defun_specs().take(defuns.len() as int) =~= spec_defun_specs());
    }
    table
}

} // verus!
