//! Opt-in, content-aware dialect detection.
//!
//! Choosing which [`Dialect`] to read a file with is the caller's job — the
//! reader stays passive. Call [`detect`] to pick a dialect, then hand its
//! options to [`crate::parse`]. Detection resolves a reader surface, never an
//! implementation.

#![verifier::loop_isolation(false)]

use vstd::prelude::*;
use vstd::string::*;

use crate::lexer::{spec_ws_width, ws_width};
use crate::options::{bytes_equal, spec_all_dialects, Dialect};
use crate::reader::ascii_lower;
use crate::source::{
    at_boundary, bytes_contain, bytes_start_with, contains_bytes, lemma_ascii_next, lemma_str_valid,
    slice, starts_with_at,
};

verus! {

/// How sure a [`Detection`] is.
#[derive(Debug, Clone, Copy, PartialEq, Eq, Hash)]
#[non_exhaustive]
pub enum Confidence {
    /// A `#lang`/shebang directive, or an extension owned by exactly one
    /// dialect.
    High,
    /// A shared extension resolved by a content signal.
    Medium,
    /// A content-only guess with no (or an unknown) extension.
    Low,
}

/// The result of [`detect`]: a best-effort dialect, a [`Confidence`], and a
/// short human-readable reason. `dialect` is `None` when no signal fired —
/// detection never falls back to a wrong silent default.
#[derive(Debug, Clone, Copy, PartialEq, Eq)]
pub struct Detection {
    /// The detected reader surface, or `None` if undetermined.
    pub dialect: Option<Dialect>,
    /// How sure the detection is.
    pub confidence: Confidence,
    /// Why this dialect (or nothing) was chosen.
    pub reason: &'static str,
}

fn detection(dialect: Option<Dialect>, confidence: Confidence, reason: &'static str) -> (d: Detection)
    ensures
        d == (Detection { dialect, confidence, reason }),
{
    Detection { dialect, confidence, reason }
}

/// The bytes of `(define-module`.
pub open spec fn lit_define_module() -> Seq<u8> {
    seq![40u8, 100, 101, 102, 105, 110, 101, 45, 109, 111, 100, 117, 108, 101]
}

fn lit_define_module_exec() -> (v: Vec<u8>)
    ensures
        v@ == lit_define_module(),
{
    let v = vec![40u8, 100, 101, 102, 105, 110, 101, 45, 109, 111, 100, 117, 108, 101];
    assert(v@ =~= lit_define_module());
    v
}

/// The bytes of `(use-modules`.
pub open spec fn lit_use_modules() -> Seq<u8> {
    seq![40u8, 117, 115, 101, 45, 109, 111, 100, 117, 108, 101, 115]
}

fn lit_use_modules_exec() -> (v: Vec<u8>)
    ensures
        v@ == lit_use_modules(),
{
    let v = vec![40u8, 117, 115, 101, 45, 109, 111, 100, 117, 108, 101, 115];
    assert(v@ =~= lit_use_modules());
    v
}

/// The bytes of `(defun c:`.
pub open spec fn lit_defun_c() -> Seq<u8> {
    seq![40u8, 100, 101, 102, 117, 110, 32, 99, 58]
}

fn lit_defun_c_exec() -> (v: Vec<u8>)
    ensures
        v@ == lit_defun_c(),
{
    let v = vec![40u8, 100, 101, 102, 117, 110, 32, 99, 58];
    assert(v@ =~= lit_defun_c());
    v
}

/// The bytes of `(vl-`.
pub open spec fn lit_vl() -> Seq<u8> {
    seq![40u8, 118, 108, 45]
}

fn lit_vl_exec() -> (v: Vec<u8>)
    ensures
        v@ == lit_vl(),
{
    let v = vec![40u8, 118, 108, 45];
    assert(v@ =~= lit_vl());
    v
}

/// The bytes of `(vlax-`.
pub open spec fn lit_vlax() -> Seq<u8> {
    seq![40u8, 118, 108, 97, 120, 45]
}

fn lit_vlax_exec() -> (v: Vec<u8>)
    ensures
        v@ == lit_vlax(),
{
    let v = vec![40u8, 118, 108, 97, 120, 45];
    assert(v@ =~= lit_vlax());
    v
}

/// The bytes of `(command `.
pub open spec fn lit_command() -> Seq<u8> {
    seq![40u8, 99, 111, 109, 109, 97, 110, 100, 32]
}

fn lit_command_exec() -> (v: Vec<u8>)
    ensures
        v@ == lit_command(),
{
    let v = vec![40u8, 99, 111, 109, 109, 97, 110, 100, 32];
    assert(v@ =~= lit_command());
    v
}

/// The bytes of `(define-library`.
pub open spec fn lit_define_library() -> Seq<u8> {
    seq![40u8, 100, 101, 102, 105, 110, 101, 45, 108, 105, 98, 114, 97, 114, 121]
}

fn lit_define_library_exec() -> (v: Vec<u8>)
    ensures
        v@ == lit_define_library(),
{
    let v = vec![40u8, 100, 101, 102, 105, 110, 101, 45, 108, 105, 98, 114, 97, 114, 121];
    assert(v@ =~= lit_define_library());
    v
}

/// The bytes of `(import (scheme`.
pub open spec fn lit_import_scheme() -> Seq<u8> {
    seq![40u8, 105, 109, 112, 111, 114, 116, 32, 40, 115, 99, 104, 101, 109, 101]
}

fn lit_import_scheme_exec() -> (v: Vec<u8>)
    ensures
        v@ == lit_import_scheme(),
{
    let v = vec![40u8, 105, 109, 112, 111, 114, 116, 32, 40, 115, 99, 104, 101, 109, 101];
    assert(v@ =~= lit_import_scheme());
    v
}

/// The bytes of `(import (rnrs`.
pub open spec fn lit_import_rnrs() -> Seq<u8> {
    seq![40u8, 105, 109, 112, 111, 114, 116, 32, 40, 114, 110, 114, 115]
}

fn lit_import_rnrs_exec() -> (v: Vec<u8>)
    ensures
        v@ == lit_import_rnrs(),
{
    let v = vec![40u8, 105, 109, 112, 111, 114, 116, 32, 40, 114, 110, 114, 115];
    assert(v@ =~= lit_import_rnrs());
    v
}

/// The bytes of `(defpackage`.
pub open spec fn lit_defpackage() -> Seq<u8> {
    seq![40u8, 100, 101, 102, 112, 97, 99, 107, 97, 103, 101]
}

fn lit_defpackage_exec() -> (v: Vec<u8>)
    ensures
        v@ == lit_defpackage(),
{
    let v = vec![40u8, 100, 101, 102, 112, 97, 99, 107, 97, 103, 101];
    assert(v@ =~= lit_defpackage());
    v
}

/// The bytes of `(in-package`.
pub open spec fn lit_in_package() -> Seq<u8> {
    seq![40u8, 105, 110, 45, 112, 97, 99, 107, 97, 103, 101]
}

fn lit_in_package_exec() -> (v: Vec<u8>)
    ensures
        v@ == lit_in_package(),
{
    let v = vec![40u8, 105, 110, 45, 112, 97, 99, 107, 97, 103, 101];
    assert(v@ =~= lit_in_package());
    v
}

/// The bytes of `lexical-binding:`.
pub open spec fn lit_lexical_binding() -> Seq<u8> {
    seq![108u8, 101, 120, 105, 99, 97, 108, 45, 98, 105, 110, 100, 105, 110, 103, 58]
}

fn lit_lexical_binding_exec() -> (v: Vec<u8>)
    ensures
        v@ == lit_lexical_binding(),
{
    let v = vec![108u8, 101, 120, 105, 99, 97, 108, 45, 98, 105, 110, 100, 105, 110, 103, 58];
    assert(v@ =~= lit_lexical_binding());
    v
}

/// The bytes of `;;;###autoload`.
pub open spec fn lit_autoload() -> Seq<u8> {
    seq![59u8, 59, 59, 35, 35, 35, 97, 117, 116, 111, 108, 111, 97, 100]
}

fn lit_autoload_exec() -> (v: Vec<u8>)
    ensures
        v@ == lit_autoload(),
{
    let v = vec![59u8, 59, 59, 35, 35, 35, 97, 117, 116, 111, 108, 111, 97, 100];
    assert(v@ =~= lit_autoload());
    v
}

/// The bytes of `(provide '`.
pub open spec fn lit_provide() -> Seq<u8> {
    seq![40u8, 112, 114, 111, 118, 105, 100, 101, 32, 39]
}

fn lit_provide_exec() -> (v: Vec<u8>)
    ensures
        v@ == lit_provide(),
{
    let v = vec![40u8, 112, 114, 111, 118, 105, 100, 101, 32, 39];
    assert(v@ =~= lit_provide());
    v
}

/// The bytes of `(ns `.
pub open spec fn lit_ns() -> Seq<u8> {
    seq![40u8, 110, 115, 32]
}

fn lit_ns_exec() -> (v: Vec<u8>)
    ensures
        v@ == lit_ns(),
{
    let v = vec![40u8, 110, 115, 32];
    assert(v@ =~= lit_ns());
    v
}

/// The bytes of `#lang`.
pub open spec fn lit_lang() -> Seq<u8> {
    seq![35u8, 108, 97, 110, 103]
}

fn lit_lang_exec() -> (v: Vec<u8>)
    ensures
        v@ == lit_lang(),
{
    let v = vec![35u8, 108, 97, 110, 103];
    assert(v@ =~= lit_lang());
    v
}

/// The bytes of `#!`.
pub open spec fn lit_shebang() -> Seq<u8> {
    seq![35u8, 33]
}

fn lit_shebang_exec() -> (v: Vec<u8>)
    ensures
        v@ == lit_shebang(),
{
    let v = vec![35u8, 33];
    assert(v@ =~= lit_shebang());
    v
}

/// The candidate dialects of a lower-cased extension without leading dots,
/// ordered by prior likelihood.
pub open spec fn ext_candidates(e: Seq<u8>) -> Seq<Dialect> {
    if e == seq![101u8, 108] || e == seq![101u8, 108, 100] {
        seq![Dialect::EmacsLisp]
    } else if e == seq![115u8, 99, 109] {
        seq![Dialect::SchemeSuperset, Dialect::Guile]
    } else if e == seq![115u8, 115] || e == seq![115u8, 108, 100] || e == seq![115u8, 108, 115] {
        seq![Dialect::Scheme]
    } else if e == seq![114u8, 107, 116] || e == seq![114u8, 107, 116, 108] || e == seq![114u8, 107, 116, 100] {
        seq![Dialect::Racket]
    } else if e == seq![99u8, 108, 106] || e == seq![99u8, 108, 106, 115] || e == seq![99u8, 108, 106, 99] || e == seq![99u8, 108, 106, 120] {
        seq![Dialect::Clojure]
    } else if e == seq![101u8, 100, 110] {
        seq![Dialect::Edn]
    } else if e == seq![112u8, 104, 101, 108] {
        seq![Dialect::Phel]
    } else if e == seq![102u8, 110, 108] {
        seq![Dialect::Fennel]
    } else if e == seq![106u8, 97, 110, 101, 116] || e == seq![106u8, 100, 110] {
        seq![Dialect::Janet]
    } else if e == seq![104u8, 121] {
        seq![Dialect::Hy]
    } else if e == seq![108u8, 102, 101] {
        seq![Dialect::Lfe]
    } else if e == seq![99u8, 108] || e == seq![108u8, 105, 115, 112] {
        seq![Dialect::CommonLisp]
    } else if e == seq![108u8, 115, 112] {
        seq![Dialect::CommonLisp, Dialect::AutoLisp]
    } else {
        Seq::empty()
    }
}

fn ext_candidates_exec(e: &[u8]) -> (r: Vec<Dialect>)
    ensures
        r@ == ext_candidates(e@),
{
    let l0: [u8; 2] = [101u8, 108];  // el
    assert(l0@ =~= seq![101u8, 108]);
    let l1: [u8; 3] = [101u8, 108, 100];  // eld
    assert(l1@ =~= seq![101u8, 108, 100]);
    if bytes_equal(e, l0.as_slice()) || bytes_equal(e, l1.as_slice()) {
        return vec![Dialect::EmacsLisp];
    }
    let l2: [u8; 3] = [115u8, 99, 109];  // scm
    assert(l2@ =~= seq![115u8, 99, 109]);
    if bytes_equal(e, l2.as_slice()) {
        return vec![Dialect::SchemeSuperset, Dialect::Guile];
    }
    let l3: [u8; 2] = [115u8, 115];  // ss
    assert(l3@ =~= seq![115u8, 115]);
    let l4: [u8; 3] = [115u8, 108, 100];  // sld
    assert(l4@ =~= seq![115u8, 108, 100]);
    let l5: [u8; 3] = [115u8, 108, 115];  // sls
    assert(l5@ =~= seq![115u8, 108, 115]);
    if bytes_equal(e, l3.as_slice()) || bytes_equal(e, l4.as_slice()) || bytes_equal(e, l5.as_slice()) {
        return vec![Dialect::Scheme];
    }
    let l6: [u8; 3] = [114u8, 107, 116];  // rkt
    assert(l6@ =~= seq![114u8, 107, 116]);
    let l7: [u8; 4] = [114u8, 107, 116, 108];  // rktl
    assert(l7@ =~= seq![114u8, 107, 116, 108]);
    let l8: [u8; 4] = [114u8, 107, 116, 100];  // rktd
    assert(l8@ =~= seq![114u8, 107, 116, 100]);
    if bytes_equal(e, l6.as_slice()) || bytes_equal(e, l7.as_slice()) || bytes_equal(e, l8.as_slice()) {
        return vec![Dialect::Racket];
    }
    let l9: [u8; 3] = [99u8, 108, 106];  // clj
    assert(l9@ =~= seq![99u8, 108, 106]);
    let l10: [u8; 4] = [99u8, 108, 106, 115];  // cljs
    assert(l10@ =~= seq![99u8, 108, 106, 115]);
    let l11: [u8; 4] = [99u8, 108, 106, 99];  // cljc
    assert(l11@ =~= seq![99u8, 108, 106, 99]);
    let l12: [u8; 4] = [99u8, 108, 106, 120];  // cljx
    assert(l12@ =~= seq![99u8, 108, 106, 120]);
    if bytes_equal(e, l9.as_slice()) || bytes_equal(e, l10.as_slice()) || bytes_equal(e, l11.as_slice()) || bytes_equal(e, l12.as_slice()) {
        return vec![Dialect::Clojure];
    }
    let l13: [u8; 3] = [101u8, 100, 110];  // edn
    assert(l13@ =~= seq![101u8, 100, 110]);
    if bytes_equal(e, l13.as_slice()) {
        return vec![Dialect::Edn];
    }
    let l14: [u8; 4] = [112u8, 104, 101, 108];  // phel
    assert(l14@ =~= seq![112u8, 104, 101, 108]);
    if bytes_equal(e, l14.as_slice()) {
        return vec![Dialect::Phel];
    }
    let l15: [u8; 3] = [102u8, 110, 108];  // fnl
    assert(l15@ =~= seq![102u8, 110, 108]);
    if bytes_equal(e, l15.as_slice()) {
        return vec![Dialect::Fennel];
    }
    let l16: [u8; 5] = [106u8, 97, 110, 101, 116];  // janet
    assert(l16@ =~= seq![106u8, 97, 110, 101, 116]);
    let l17: [u8; 3] = [106u8, 100, 110];  // jdn
    assert(l17@ =~= seq![106u8, 100, 110]);
    if bytes_equal(e, l16.as_slice()) || bytes_equal(e, l17.as_slice()) {
        return vec![Dialect::Janet];
    }
    let l18: [u8; 2] = [104u8, 121];  // hy
    assert(l18@ =~= seq![104u8, 121]);
    if bytes_equal(e, l18.as_slice()) {
        return vec![Dialect::Hy];
    }
    let l19: [u8; 3] = [108u8, 102, 101];  // lfe
    assert(l19@ =~= seq![108u8, 102, 101]);
    if bytes_equal(e, l19.as_slice()) {
        return vec![Dialect::Lfe];
    }
    let l20: [u8; 2] = [99u8, 108];  // cl
    assert(l20@ =~= seq![99u8, 108]);
    let l21: [u8; 4] = [108u8, 105, 115, 112];  // lisp
    assert(l21@ =~= seq![108u8, 105, 115, 112]);
    if bytes_equal(e, l20.as_slice()) || bytes_equal(e, l21.as_slice()) {
        return vec![Dialect::CommonLisp];
    }
    let l22: [u8; 3] = [108u8, 115, 112];  // lsp
    assert(l22@ =~= seq![108u8, 115, 112]);
    if bytes_equal(e, l22.as_slice()) {
        return vec![Dialect::CommonLisp, Dialect::AutoLisp];
    }
    Vec::new()
}

/// The dialect a shebang interpreter's base name names, if known.
pub open spec fn interpreter(n: Seq<u8>) -> Option<Dialect> {
    if n == seq![103u8, 117, 105, 108, 101] {
        Some(Dialect::Guile)
    } else if n == seq![103u8, 111, 115, 104] {
        Some(Dialect::SchemeSuperset)
    } else if n == seq![115u8, 99, 104, 101, 109, 101] || n == seq![99u8, 104, 101, 122] || n == seq![99u8, 104, 101, 122, 115, 99, 104, 101, 109, 101] || n == seq![112u8, 101, 116, 105, 116, 101] || n == seq![99u8, 115, 105] || n == seq![99u8, 104, 105, 98, 105, 45, 115, 99, 104, 101, 109, 101] {
        Some(Dialect::Scheme)
    } else if n == seq![114u8, 97, 99, 107, 101, 116] {
        Some(Dialect::Racket)
    } else if n == seq![115u8, 98, 99, 108] || n == seq![99u8, 99, 108] || n == seq![99u8, 108, 105, 115, 112] || n == seq![101u8, 99, 108] || n == seq![97u8, 98, 99, 108] {
        Some(Dialect::CommonLisp)
    } else if n == seq![99u8, 108, 111, 106, 117, 114, 101] || n == seq![99u8, 108, 106] || n == seq![98u8, 98] {
        Some(Dialect::Clojure)
    } else if n == seq![106u8, 97, 110, 101, 116] {
        Some(Dialect::Janet)
    } else if n == seq![104u8, 121] {
        Some(Dialect::Hy)
    } else if n == seq![102u8, 101, 110, 110, 101, 108] {
        Some(Dialect::Fennel)
    } else if n == seq![101u8, 109, 97, 99, 115] {
        Some(Dialect::EmacsLisp)
    } else if n == seq![108u8, 102, 101] || n == seq![108u8, 102, 101, 115, 99, 114, 105, 112, 116] {
        Some(Dialect::Lfe)
    } else {
        None
    }
}

fn interpreter_exec(e: &[u8]) -> (r: Option<Dialect>)
    ensures
        r == interpreter(e@),
{
    let l0: [u8; 5] = [103u8, 117, 105, 108, 101];  // guile
    assert(l0@ =~= seq![103u8, 117, 105, 108, 101]);
    if bytes_equal(e, l0.as_slice()) {
        return Some(Dialect::Guile);
    }
    let l1: [u8; 4] = [103u8, 111, 115, 104];  // gosh
    assert(l1@ =~= seq![103u8, 111, 115, 104]);
    if bytes_equal(e, l1.as_slice()) {
        return Some(Dialect::SchemeSuperset);
    }
    let l2: [u8; 6] = [115u8, 99, 104, 101, 109, 101];  // scheme
    assert(l2@ =~= seq![115u8, 99, 104, 101, 109, 101]);
    let l3: [u8; 4] = [99u8, 104, 101, 122];  // chez
    assert(l3@ =~= seq![99u8, 104, 101, 122]);
    let l4: [u8; 10] = [99u8, 104, 101, 122, 115, 99, 104, 101, 109, 101];  // chezscheme
    assert(l4@ =~= seq![99u8, 104, 101, 122, 115, 99, 104, 101, 109, 101]);
    let l5: [u8; 6] = [112u8, 101, 116, 105, 116, 101];  // petite
    assert(l5@ =~= seq![112u8, 101, 116, 105, 116, 101]);
    let l6: [u8; 3] = [99u8, 115, 105];  // csi
    assert(l6@ =~= seq![99u8, 115, 105]);
    let l7: [u8; 12] = [99u8, 104, 105, 98, 105, 45, 115, 99, 104, 101, 109, 101];  // chibi-scheme
    assert(l7@ =~= seq![99u8, 104, 105, 98, 105, 45, 115, 99, 104, 101, 109, 101]);
    if bytes_equal(e, l2.as_slice()) || bytes_equal(e, l3.as_slice()) || bytes_equal(e, l4.as_slice()) || bytes_equal(e, l5.as_slice()) || bytes_equal(e, l6.as_slice()) || bytes_equal(e, l7.as_slice()) {
        return Some(Dialect::Scheme);
    }
    let l8: [u8; 6] = [114u8, 97, 99, 107, 101, 116];  // racket
    assert(l8@ =~= seq![114u8, 97, 99, 107, 101, 116]);
    if bytes_equal(e, l8.as_slice()) {
        return Some(Dialect::Racket);
    }
    let l9: [u8; 4] = [115u8, 98, 99, 108];  // sbcl
    assert(l9@ =~= seq![115u8, 98, 99, 108]);
    let l10: [u8; 3] = [99u8, 99, 108];  // ccl
    assert(l10@ =~= seq![99u8, 99, 108]);
    let l11: [u8; 5] = [99u8, 108, 105, 115, 112];  // clisp
    assert(l11@ =~= seq![99u8, 108, 105, 115, 112]);
    let l12: [u8; 3] = [101u8, 99, 108];  // ecl
    assert(l12@ =~= seq![101u8, 99, 108]);
    let l13: [u8; 4] = [97u8, 98, 99, 108];  // abcl
    assert(l13@ =~= seq![97u8, 98, 99, 108]);
    if bytes_equal(e, l9.as_slice()) || bytes_equal(e, l10.as_slice()) || bytes_equal(e, l11.as_slice()) || bytes_equal(e, l12.as_slice()) || bytes_equal(e, l13.as_slice()) {
        return Some(Dialect::CommonLisp);
    }
    let l14: [u8; 7] = [99u8, 108, 111, 106, 117, 114, 101];  // clojure
    assert(l14@ =~= seq![99u8, 108, 111, 106, 117, 114, 101]);
    let l15: [u8; 3] = [99u8, 108, 106];  // clj
    assert(l15@ =~= seq![99u8, 108, 106]);
    let l16: [u8; 2] = [98u8, 98];  // bb
    assert(l16@ =~= seq![98u8, 98]);
    if bytes_equal(e, l14.as_slice()) || bytes_equal(e, l15.as_slice()) || bytes_equal(e, l16.as_slice()) {
        return Some(Dialect::Clojure);
    }
    let l17: [u8; 5] = [106u8, 97, 110, 101, 116];  // janet
    assert(l17@ =~= seq![106u8, 97, 110, 101, 116]);
    if bytes_equal(e, l17.as_slice()) {
        return Some(Dialect::Janet);
    }
    let l18: [u8; 2] = [104u8, 121];  // hy
    assert(l18@ =~= seq![104u8, 121]);
    if bytes_equal(e, l18.as_slice()) {
        return Some(Dialect::Hy);
    }
    let l19: [u8; 6] = [102u8, 101, 110, 110, 101, 108];  // fennel
    assert(l19@ =~= seq![102u8, 101, 110, 110, 101, 108]);
    if bytes_equal(e, l19.as_slice()) {
        return Some(Dialect::Fennel);
    }
    let l20: [u8; 5] = [101u8, 109, 97, 99, 115];  // emacs
    assert(l20@ =~= seq![101u8, 109, 97, 99, 115]);
    if bytes_equal(e, l20.as_slice()) {
        return Some(Dialect::EmacsLisp);
    }
    let l21: [u8; 3] = [108u8, 102, 101];  // lfe
    assert(l21@ =~= seq![108u8, 102, 101]);
    let l22: [u8; 9] = [108u8, 102, 101, 115, 99, 114, 105, 112, 116];  // lfescript
    assert(l22@ =~= seq![108u8, 102, 101, 115, 99, 114, 105, 112, 116]);
    if bytes_equal(e, l21.as_slice()) || bytes_equal(e, l22.as_slice()) {
        return Some(Dialect::Lfe);
    }
    None
}

/// The bytes of the file extensions (without the leading dot)
/// conventionally associated with a dialect.
pub open spec fn spec_extensions(d: Dialect) -> Seq<Seq<u8>> {
    match d {
        Dialect::Scheme => seq![seq![115u8, 115], seq![115u8, 108, 100], seq![115u8, 108, 115]],
        Dialect::SchemeSuperset | Dialect::Gauche | Dialect::Mosh | Dialect::Gambit => seq![seq![115u8, 99, 109]],
        Dialect::Guile => seq![seq![115u8, 99, 109]],
        Dialect::Racket => seq![seq![114u8, 107, 116], seq![114u8, 107, 116, 108], seq![114u8, 107, 116, 100]],
        Dialect::Clojure => seq![seq![99u8, 108, 106], seq![99u8, 108, 106, 115], seq![99u8, 108, 106, 99]],
        Dialect::Phel => seq![seq![112u8, 104, 101, 108]],
        Dialect::Edn => seq![seq![101u8, 100, 110]],
        Dialect::CommonLisp => seq![seq![108u8, 105, 115, 112], seq![108u8, 115, 112], seq![99u8, 108]],
        Dialect::EmacsLisp => seq![seq![101u8, 108], seq![101u8, 108, 100]],
        Dialect::AutoLisp => seq![seq![108u8, 115, 112]],
        Dialect::Janet => seq![seq![106u8, 97, 110, 101, 116], seq![106u8, 100, 110]],
        Dialect::Hy => seq![seq![104u8, 121]],
        Dialect::Fennel => seq![seq![102u8, 110, 108]],
        Dialect::Lfe => seq![seq![108u8, 102, 101]],
        Dialect::Islisp => Seq::empty(),
    }
}

/// An extension of lowercase ASCII letters names the candidates it spells.
proof fn lemma_plain_extension(e: Seq<u8>)
    requires
        e.len() > 0,
        forall|k: int| 0 <= k < e.len() ==> 97 <= #[trigger] e[k] <= 122,
    ensures
        spec_from_extension(e) == ext_candidates(e),
{
    assert(skip_dots(e, 0) == 0);
    assert(e.skip(0).map_values(|c: u8| ascii_lower(c)) =~= e);
}

/// Every extension a dialect lists maps back to that dialect among its
/// candidates — except for Gauche, Mosh and Gambit, which share `.scm`
/// with the superset reader: `.scm` names the superset and Guile.
pub proof fn lemma_extensions_round_trip(d: Dialect, i: int)
    requires
        0 <= i < spec_extensions(d).len(),
        !(d is Gauche || d is Mosh || d is Gambit),
    ensures
        spec_from_extension(spec_extensions(d)[i]).contains(d),
{
    let e = spec_extensions(d)[i];
    lemma_plain_extension(e);
    let c = ext_candidates(e);
    if d is AutoLisp || d is Guile {
        assert(c[1] == d);
    } else {
        assert(c[0] == d);
    }
}

impl Dialect {
    /// The file extensions (without the leading dot) conventionally
    /// associated with this dialect. Best-effort; some dialects (e.g. ISLisp)
    /// have no distinctive extension and return none.
    pub fn extensions(self) -> (v: Vec<&'static str>)
        ensures
            v@.len() == spec_extensions(self).len(),
            forall|i: int| 0 <= i < v@.len() ==> (#[trigger] v@[i]).spec_bytes() == spec_extensions(self)[i],
    {
        let mut v: Vec<&'static str> = Vec::new();
        match self {
            Dialect::Scheme => {
                proof {
                    reveal_strlit("ss");
                    is_ascii_spec_bytes("ss");
                    assert("ss".spec_bytes() =~= seq![115u8, 115]);
                }
                v.push("ss");
                proof {
                    reveal_strlit("sld");
                    is_ascii_spec_bytes("sld");
                    assert("sld".spec_bytes() =~= seq![115u8, 108, 100]);
                }
                v.push("sld");
                proof {
                    reveal_strlit("sls");
                    is_ascii_spec_bytes("sls");
                    assert("sls".spec_bytes() =~= seq![115u8, 108, 115]);
                }
                v.push("sls");
            },
            Dialect::SchemeSuperset | Dialect::Gauche | Dialect::Mosh | Dialect::Gambit => {
                proof {
                    reveal_strlit("scm");
                    is_ascii_spec_bytes("scm");
                    assert("scm".spec_bytes() =~= seq![115u8, 99, 109]);
                }
                v.push("scm");
            },
            Dialect::Guile => {
                proof {
                    reveal_strlit("scm");
                    is_ascii_spec_bytes("scm");
                    assert("scm".spec_bytes() =~= seq![115u8, 99, 109]);
                }
                v.push("scm");
            },
            Dialect::Racket => {
                proof {
                    reveal_strlit("rkt");
                    is_ascii_spec_bytes("rkt");
                    assert("rkt".spec_bytes() =~= seq![114u8, 107, 116]);
                }
                v.push("rkt");
                proof {
                    reveal_strlit("rktl");
                    is_ascii_spec_bytes("rktl");
                    assert("rktl".spec_bytes() =~= seq![114u8, 107, 116, 108]);
                }
                v.push("rktl");
                proof {
                    reveal_strlit("rktd");
                    is_ascii_spec_bytes("rktd");
                    assert("rktd".spec_bytes() =~= seq![114u8, 107, 116, 100]);
                }
                v.push("rktd");
            },
            Dialect::Clojure => {
                proof {
                    reveal_strlit("clj");
                    is_ascii_spec_bytes("clj");
                    assert("clj".spec_bytes() =~= seq![99u8, 108, 106]);
                }
                v.push("clj");
                proof {
                    reveal_strlit("cljs");
                    is_ascii_spec_bytes("cljs");
                    assert("cljs".spec_bytes() =~= seq![99u8, 108, 106, 115]);
                }
                v.push("cljs");
                proof {
                    reveal_strlit("cljc");
                    is_ascii_spec_bytes("cljc");
                    assert("cljc".spec_bytes() =~= seq![99u8, 108, 106, 99]);
                }
                v.push("cljc");
            },
            Dialect::Phel => {
                proof {
                    reveal_strlit("phel");
                    is_ascii_spec_bytes("phel");
                    assert("phel".spec_bytes() =~= seq![112u8, 104, 101, 108]);
                }
                v.push("phel");
            },
            Dialect::Edn => {
                proof {
                    reveal_strlit("edn");
                    is_ascii_spec_bytes("edn");
                    assert("edn".spec_bytes() =~= seq![101u8, 100, 110]);
                }
                v.push("edn");
            },
            Dialect::CommonLisp => {
                proof {
                    reveal_strlit("lisp");
                    is_ascii_spec_bytes("lisp");
                    assert("lisp".spec_bytes() =~= seq![108u8, 105, 115, 112]);
                }
                v.push("lisp");
                proof {
                    reveal_strlit("lsp");
                    is_ascii_spec_bytes("lsp");
                    assert("lsp".spec_bytes() =~= seq![108u8, 115, 112]);
                }
                v.push("lsp");
                proof {
                    reveal_strlit("cl");
                    is_ascii_spec_bytes("cl");
                    assert("cl".spec_bytes() =~= seq![99u8, 108]);
                }
                v.push("cl");
            },
            Dialect::EmacsLisp => {
                proof {
                    reveal_strlit("el");
                    is_ascii_spec_bytes("el");
                    assert("el".spec_bytes() =~= seq![101u8, 108]);
                }
                v.push("el");
                proof {
                    reveal_strlit("eld");
                    is_ascii_spec_bytes("eld");
                    assert("eld".spec_bytes() =~= seq![101u8, 108, 100]);
                }
                v.push("eld");
            },
            Dialect::AutoLisp => {
                proof {
                    reveal_strlit("lsp");
                    is_ascii_spec_bytes("lsp");
                    assert("lsp".spec_bytes() =~= seq![108u8, 115, 112]);
                }
                v.push("lsp");
            },
            Dialect::Janet => {
                proof {
                    reveal_strlit("janet");
                    is_ascii_spec_bytes("janet");
                    assert("janet".spec_bytes() =~= seq![106u8, 97, 110, 101, 116]);
                }
                v.push("janet");
                proof {
                    reveal_strlit("jdn");
                    is_ascii_spec_bytes("jdn");
                    assert("jdn".spec_bytes() =~= seq![106u8, 100, 110]);
                }
                v.push("jdn");
            },
            Dialect::Hy => {
                proof {
                    reveal_strlit("hy");
                    is_ascii_spec_bytes("hy");
                    assert("hy".spec_bytes() =~= seq![104u8, 121]);
                }
                v.push("hy");
            },
            Dialect::Fennel => {
                proof {
                    reveal_strlit("fnl");
                    is_ascii_spec_bytes("fnl");
                    assert("fnl".spec_bytes() =~= seq![102u8, 110, 108]);
                }
                v.push("fnl");
            },
            Dialect::Lfe => {
                proof {
                    reveal_strlit("lfe");
                    is_ascii_spec_bytes("lfe");
                    assert("lfe".spec_bytes() =~= seq![108u8, 102, 101]);
                }
                v.push("lfe");
            },
            Dialect::Islisp => {
            },
        }
        v
    }
}

/// The offset of the first non-whitespace character at or after `p`.
pub open spec fn skip_ws(b: Seq<u8>, p: int) -> int
    decreases b.len() - p,
{
    if 0 <= p < b.len() && spec_ws_width(b, p) > 0 {
        skip_ws(b, p + spec_ws_width(b, p))
    } else {
        p
    }
}

/// The source, after leading whitespace, starts with `#lang`.
pub open spec fn has_lang_directive(b: Seq<u8>) -> bool {
    starts_with_at(b, skip_ws(b, 0), lit_lang())
}

/// The offset of the first `\n` at or after `p`, or the end.
pub open spec fn line_end_from(b: Seq<u8>, p: int) -> int
    decreases b.len() - p,
{
    if p < 0 || p >= b.len() || b[p] == 10u8 {
        p
    } else {
        line_end_from(b, p + 1)
    }
}

/// The first line of `b`, without its `\n` or `\r\n` break.
pub open spec fn first_line(b: Seq<u8>) -> Seq<u8> {
    let e = line_end_from(b, 0);
    if 0 < e < b.len() && b[e - 1] == 13u8 {
        b.take(e - 1)
    } else {
        b.take(e)
    }
}

/// The end of the run of non-whitespace bytes starting at `p`.
pub open spec fn run_end(l: Seq<u8>, p: int) -> int
    decreases l.len() - p,
{
    if 0 <= p < l.len() && spec_ws_width(l, p) == 0 {
        run_end(l, p + 1)
    } else {
        p
    }
}

/// A run of non-whitespace bytes is non-empty when it starts on one.
pub proof fn lemma_run_end(l: Seq<u8>, p: int)
    requires
        0 <= p <= l.len(),
    ensures
        p <= run_end(l, p) <= l.len(),
        p < l.len() && spec_ws_width(l, p) == 0 ==> p < run_end(l, p),
    decreases l.len() - p,
{
    if p < l.len() && spec_ws_width(l, p) == 0 {
        lemma_run_end(l, p + 1);
    }
}

/// The offset just past the last `/` or `\` among the first `i` bytes of
/// `t` (0 if none).
pub open spec fn base_start(t: Seq<u8>, i: int) -> int
    decreases i,
{
    if i <= 0 {
        0
    } else if t[i - 1] == 47u8 || t[i - 1] == 92u8 {
        i
    } else {
        base_start(t, i - 1)
    }
}

/// A path's base name: what follows its last `/` or `\`.
pub open spec fn basename(t: Seq<u8>) -> Seq<u8> {
    t.skip(base_start(t, t.len() as int))
}

/// The dialect of the last whitespace-separated word of `l` at or after
/// `p` whose base name is a known interpreter (`acc` if none).
pub open spec fn last_interpreter(l: Seq<u8>, p: int, acc: Option<Dialect>) -> Option<Dialect>
    decreases l.len() - p,
{
    if p < 0 || p >= l.len() {
        acc
    } else if spec_ws_width(l, p) > 0 {
        last_interpreter(l, p + spec_ws_width(l, p), acc)
    } else {
        let q = run_end(l, p);
        proof {
            lemma_run_end(l, p);
        }
        let found = interpreter(basename(l.subrange(p, q)));
        last_interpreter(
            l,
            q,
            if found is Some {
                found
            } else {
                acc
            },
        )
    }
}

/// The dialect a `#!` first line names: the last word whose base name is a
/// known interpreter (`#!/usr/bin/guile`, `#!/usr/bin/env guile`).
pub open spec fn spec_shebang_dialect(b: Seq<u8>) -> Option<Dialect> {
    let l = first_line(b);
    if starts_with_at(l, 0, lit_shebang()) {
        last_interpreter(l.skip(2), 0, None)
    } else {
        None
    }
}

/// The offset of the last `.` among the first `i` bytes of `n` (-1 if none).
pub open spec fn last_dot(n: Seq<u8>, i: int) -> int
    decreases i,
{
    if i <= 0 {
        -1
    } else if n[i - 1] == 46u8 {
        i - 1
    } else {
        last_dot(n, i - 1)
    }
}

/// A file name's extension: what follows its last `.`, if it has one.
pub open spec fn ext_of(n: Seq<u8>) -> Option<Seq<u8>> {
    let d = last_dot(n, n.len() as int);
    if d < 0 {
        None
    } else {
        Some(n.skip(d + 1))
    }
}

/// The offset of the first byte at or after `i` that is not a `.`.
pub open spec fn skip_dots(e: Seq<u8>, i: int) -> int
    decreases e.len() - i,
{
    if 0 <= i < e.len() && e[i] == 46u8 {
        skip_dots(e, i + 1)
    } else {
        i
    }
}

/// The candidate dialects of an extension: leading dots dropped, ASCII
/// case folded.
pub open spec fn spec_from_extension(e: Seq<u8>) -> Seq<Dialect> {
    ext_candidates(e.skip(skip_dots(e, 0)).map_values(|c: u8| ascii_lower(c)))
}

/// Leading dots are skipped alike after one more dot.
proof fn lemma_skip_dots_shift(e: Seq<u8>, i: int)
    requires
        0 <= i <= e.len(),
    ensures
        skip_dots(seq![46u8] + e, i + 1) == skip_dots(e, i) + 1,
    decreases e.len() - i,
{
    let x = seq![46u8] + e;
    if i < e.len() {
        assert(x[i + 1] == e[i]);
        if e[i] == 46u8 {
            lemma_skip_dots_shift(e, i + 1);
        }
    }
}

/// Leading dots are the same in two spellings that differ only in case.
proof fn lemma_skip_dots_case(e1: Seq<u8>, e2: Seq<u8>, i: int)
    requires
        0 <= i <= e1.len(),
        e1.len() == e2.len(),
        forall|j: int| 0 <= j < e1.len() ==> ascii_lower(#[trigger] e1[j]) == ascii_lower(e2[j]),
    ensures
        skip_dots(e1, i) == skip_dots(e2, i),
    decreases e1.len() - i,
{
    if i < e1.len() {
        assert(ascii_lower(e1[i]) == ascii_lower(e2[i]));
        assert(e1[i] == 46u8 <==> e2[i] == 46u8);
        lemma_skip_dots_case(e1, e2, i + 1);
    }
}

/// Skipping leading dots stays within the extension.
proof fn lemma_skip_dots_bound(e: Seq<u8>, i: int)
    requires
        0 <= i <= e.len(),
    ensures
        i <= skip_dots(e, i) <= e.len(),
    decreases e.len() - i,
{
    if i < e.len() && e[i] == 46u8 {
        lemma_skip_dots_bound(e, i + 1);
    }
}

/// An extension is looked up without its leading dot and without regard
/// to ASCII case: `.el`, `el`, `EL` and `.El` name the same candidates.
pub proof fn lemma_extension_normalized(e1: Seq<u8>, e2: Seq<u8>)
    ensures
        spec_from_extension(seq![46u8] + e1) == spec_from_extension(e1),
        e1.len() == e2.len() && (forall|j: int| 0 <= j < e1.len() ==> ascii_lower(#[trigger] e1[j])
            == ascii_lower(e2[j])) ==> spec_from_extension(e1) == spec_from_extension(e2),
{
    let x = seq![46u8] + e1;
    let k = skip_dots(e1, 0);
    lemma_skip_dots_bound(e1, 0);
    assert(x[0] == 46u8);
    lemma_skip_dots_shift(e1, 0);
    assert(skip_dots(x, 0) == k + 1);
    assert(x.skip(k + 1) =~= e1.skip(k));
    if e1.len() == e2.len() && (forall|j: int| 0 <= j < e1.len() ==> ascii_lower(#[trigger] e1[j])
        == ascii_lower(e2[j])) {
        lemma_skip_dots_case(e1, e2, 0);
        let l1 = e1.skip(k).map_values(|c: u8| ascii_lower(c));
        let l2 = e2.skip(k).map_values(|c: u8| ascii_lower(c));
        assert forall|j: int| 0 <= j < l1.len() implies l1[j] == l2[j] by {
            assert(e1.skip(k)[j] == e1[k + j]);
            assert(e2.skip(k)[j] == e2[k + j]);
            assert(ascii_lower(e1[k + j]) == ascii_lower(e2[k + j]));
        }
        assert(l1 =~= l2);
    }
}

/// Guile vs the tolerant superset for `.scm`; AutoLISP vs Common Lisp for
/// `.lsp`; by content markers.
pub open spec fn spec_disambiguate(cands: Seq<Dialect>, b: Seq<u8>) -> Option<Dialect> {
    if cands.contains(Dialect::Guile) {
        if contains_bytes(b, lit_define_module()) || contains_bytes(b, lit_use_modules()) {
            Some(Dialect::Guile)
        } else {
            Some(Dialect::SchemeSuperset)
        }
    } else if cands.contains(Dialect::AutoLisp) {
        if contains_bytes(b, lit_defun_c()) || contains_bytes(b, lit_vl()) || contains_bytes(
            b,
            lit_vlax(),
        ) || contains_bytes(b, lit_command()) {
            Some(Dialect::AutoLisp)
        } else {
            Some(Dialect::CommonLisp)
        }
    } else {
        None
    }
}

/// A content-only guess for the few dialects with an unambiguous marker.
/// `(defn …)` alone is not one: Clojure, Janet, Hy and Fennel share it.
pub open spec fn spec_content_dialect(b: Seq<u8>) -> Option<Dialect> {
    if contains_bytes(b, lit_define_library()) || contains_bytes(b, lit_import_scheme())
        || contains_bytes(b, lit_import_rnrs()) {
        Some(Dialect::Scheme)
    } else if contains_bytes(b, lit_defpackage()) || contains_bytes(b, lit_in_package()) {
        Some(Dialect::CommonLisp)
    } else if contains_bytes(b, lit_lexical_binding()) || contains_bytes(b, lit_autoload())
        || contains_bytes(b, lit_provide()) {
        Some(Dialect::EmacsLisp)
    } else if contains_bytes(b, lit_ns()) {
        Some(Dialect::Clojure)
    } else {
        None
    }
}

/// The extension candidates of a file name, if it has an extension.
pub open spec fn name_candidates(name: Option<Seq<u8>>) -> Seq<Dialect> {
    match name {
        Some(n) => match ext_of(n) {
            Some(e) => spec_from_extension(e),
            None => Seq::empty(),
        },
        None => Seq::empty(),
    }
}

/// Detection, by precedence: a leading `#lang` directive (Racket); a shebang
/// interpreter; the file extension, disambiguated by content when shared;
/// a content-only marker; else nothing.
pub open spec fn spec_detect(name: Option<Seq<u8>>, b: Seq<u8>) -> Detection {
    let cands = name_candidates(name);
    if has_lang_directive(b) {
        Detection {
            dialect: Some(Dialect::Racket),
            confidence: Confidence::High,
            reason: "#lang directive",
        }
    } else if spec_shebang_dialect(b) is Some {
        Detection {
            dialect: spec_shebang_dialect(b),
            confidence: Confidence::High,
            reason: "shebang interpreter",
        }
    } else if cands.len() == 1 {
        Detection {
            dialect: Some(cands[0]),
            confidence: Confidence::High,
            reason: "unambiguous extension",
        }
    } else if cands.len() > 1 {
        match spec_disambiguate(cands, b) {
            Some(d) => Detection {
                dialect: Some(d),
                confidence: Confidence::Medium,
                reason: "extension + content",
            },
            None => Detection {
                dialect: Some(cands[0]),
                confidence: Confidence::Medium,
                reason: "extension (default)",
            },
        }
    } else if spec_content_dialect(b) is Some {
        Detection {
            dialect: spec_content_dialect(b),
            confidence: Confidence::Low,
            reason: "content marker",
        }
    } else {
        Detection {
            dialect: None,
            confidence: Confidence::Low,
            reason: "no extension or content signal",
        }
    }
}

/// A run of non-whitespace bytes from `p` ends at the end or on whitespace,
/// and covers only non-whitespace.
proof fn lemma_run_end_stops(l: Seq<u8>, p: int)
    requires
        0 <= p <= l.len(),
    ensures
        run_end(l, p) == l.len() || spec_ws_width(l, run_end(l, p)) > 0,
        forall|j: int| p <= j < run_end(l, p) ==> spec_ws_width(l, j) == 0,
    decreases l.len() - p,
{
    if p < l.len() && spec_ws_width(l, p) == 0 {
        lemma_run_end_stops(l, p + 1);
    }
}

/// The base name starts just past the last `/` or `\` before `i`: at `m`
/// when `t[m - 1]` is one (or `m` is 0) and none lies in `[m, i)`.
proof fn lemma_base_start_at(t: Seq<u8>, m: int, i: int)
    requires
        0 <= m <= i <= t.len(),
        m == 0 || t[m - 1] == 47u8 || t[m - 1] == 92u8,
        forall|j: int| m <= j < i ==> t[j] != 47u8 && t[j] != 92u8,
    ensures
        base_start(t, i) == m,
    decreases i,
{
    if i > m {
        lemma_base_start_at(t, m, i - 1);
    }
}

/// Scanning the words of `l` from `p`, when `l` ends in a run of ASCII
/// non-whitespace bytes from `k`, and every word that can cover that run has
/// a base name naming `d`, the last known interpreter is `d`.
proof fn lemma_last_word_decides(l: Seq<u8>, p: int, acc: Option<Dialect>, k: int, d: Dialect)
    requires
        0 <= p <= k < l.len(),
        forall|j: int| k <= j < l.len() ==> #[trigger] l[j] < 128,
        forall|j: int| k <= j < l.len() ==> #[trigger] spec_ws_width(l, j) == 0,
        forall|s: int|
            p <= s <= k && (forall|j: int| s <= j < k ==> spec_ws_width(l, j) == 0) ==> interpreter(
                basename(#[trigger] l.subrange(s, l.len() as int)),
            ) == Some(d),
    ensures
        last_interpreter(l, p, acc) == Some(d),
    decreases l.len() - p,
{
    let n = l.len() as int;
    if spec_ws_width(l, p) > 0 {
        assert(p < k);
        let w = spec_ws_width(l, p);
        if w >= 2 {
            assert(l[p + 1] >= 128);
            assert(p + 1 < k);
        }
        if w == 3 {
            assert(l[p + 2] >= 128);
            assert(p + 2 < k);
        }
        lemma_last_word_decides(l, p + w, acc, k, d);
    } else {
        let q = run_end(l, p);
        lemma_run_end(l, p);
        lemma_run_end_stops(l, p);
        if q == n {
            assert(forall|j: int| p <= j < k ==> spec_ws_width(l, j) == 0);
            assert(interpreter(basename(l.subrange(p, n))) == Some(d));
            assert(last_interpreter(l, q, Some(d)) == Some(d));
        } else {
            assert(q < k);
            let found = interpreter(basename(l.subrange(p, q)));
            lemma_last_word_decides(
                l,
                q,
                if found is Some {
                    found
                } else {
                    acc
                },
                k,
                d,
            );
        }
    }
}

/// The first line of `b` runs to its first `\n` at or after `p`: to `e`
/// when no `\n` lies in `[p, e)` and `e` is the end or a `\n`.
proof fn lemma_line_end_at(b: Seq<u8>, p: int, e: int)
    requires
        0 <= p <= e <= b.len(),
        e == b.len() || b[e] == 10u8,
        forall|j: int| p <= j < e ==> b[j] != 10u8,
    ensures
        line_end_from(b, p) == e,
    decreases e - p,
{
    if p < e {
        lemma_line_end_at(b, p + 1, e);
    }
}

/// `rest` is empty or starts with a line break, `\n` or `\r\n`.
pub open spec fn starts_line_break(rest: Seq<u8>) -> bool {
    ||| rest.len() == 0
    ||| rest[0] == 10u8
    ||| rest.len() >= 2 && rest[0] == 13u8 && rest[1] == 10u8
}

/// A word an interpreter can be named by: ASCII, with no whitespace, line
/// break or path separator.
pub open spec fn plain_word(w: Seq<u8>) -> bool {
    &&& w.len() > 0
    &&& forall|j: int|
        0 <= j < w.len() ==> {
            let c = #[trigger] w[j];
            &&& c < 128
            &&& c != 9 && c != 10 && c != 11 && c != 12 && c != 13 && c != 32
            &&& c != 47 && c != 92
        }
}

/// The last word of a shebang line decides: a source whose first line is
/// `#!`, then any bytes `pre` that end in whitespace or a path separator (or
/// none), then a word `w` naming a known interpreter, is detected as that
/// interpreter's dialect with high confidence, whatever the file's name
/// (`#!/usr/bin/guile`, `#!/usr/bin/env guile`, `#!guile`).
pub proof fn lemma_shebang_last_word(name: Option<Seq<u8>>, pre: Seq<u8>, w: Seq<u8>, rest: Seq<u8>)
    requires
        forall|j: int| 0 <= j < pre.len() ==> pre[j] != 10u8,
        pre.len() == 0 || pre.last() == 9u8 || pre.last() == 32u8 || pre.last() == 47u8
            || pre.last() == 92u8,
        plain_word(w),
        interpreter(w) is Some,
        starts_line_break(rest),
    ensures
        spec_detect(name, lit_shebang() + pre + w + rest) == (Detection {
            dialect: interpreter(w),
            confidence: Confidence::High,
            reason: "shebang interpreter",
        }),
{
    let b = lit_shebang() + pre + w + rest;
    lemma_shebang_not_lang(b);
    lemma_shebang_first_line(pre, w, rest);
    lemma_last_word_of(pre, w);
}

/// A source starting `#!` has no `#lang` directive.
proof fn lemma_shebang_not_lang(b: Seq<u8>)
    requires
        b.len() >= 2,
        b[0] == 35u8,
        b[1] == 33u8,
    ensures
        !has_lang_directive(b),
{
    assert(spec_ws_width(b, 0) == 0);
    assert(skip_ws(b, 0) == 0);
    if starts_with_at(b, 0, lit_lang()) {
        assert(b.subrange(0, 5)[1] == lit_lang()[1]);
    }
}

/// The first line of `#!` + `pre` + `w` + `rest` is `#!` + `pre` + `w`,
/// when neither `pre` nor `w` holds a line break and `rest` is empty or
/// starts one.
proof fn lemma_shebang_first_line(pre: Seq<u8>, w: Seq<u8>, rest: Seq<u8>)
    requires
        forall|j: int| 0 <= j < pre.len() ==> pre[j] != 10u8,
        plain_word(w),
        starts_line_break(rest),
    ensures
        first_line(lit_shebang() + pre + w + rest) == lit_shebang() + pre + w,
        (lit_shebang() + pre + w + rest)[0] == 35u8,
        (lit_shebang() + pre + w + rest)[1] == 33u8,
        spec_shebang_dialect(lit_shebang() + pre + w + rest) == last_interpreter(pre + w, 0, None),
{
    let b = lit_shebang() + pre + w + rest;
    let k = pre.len() as int;
    let e = 2 + k + w.len();
    assert forall|j: int| 0 <= j < e implies b[j] != 10u8 by {
        if 2 <= j < 2 + k {
            assert(b[j] == pre[j - 2]);
        } else if 2 + k <= j {
            assert(b[j] == w[j - 2 - k]);
        }
    }
    if e < b.len() {
        assert(b[e] == rest[0]);
    }
    if rest.len() > 0 && rest[0] == 13u8 {
        assert(b[e + 1] == rest[1]);
        lemma_line_end_at(b, 0, e + 1);
        assert(b[e] == 13u8);
    } else {
        lemma_line_end_at(b, 0, e);
        assert(b[e - 1] == w[w.len() - 1]);
    }
    let line = first_line(b);
    assert(line =~= lit_shebang() + pre + w);
    assert(line.subrange(0, 2) =~= lit_shebang());
    assert(line.skip(2) =~= pre + w);
}

/// In `pre` + `w`, with `pre` ending in whitespace or a path separator (or
/// empty), the last known interpreter is the one `w` names.
proof fn lemma_last_word_of(pre: Seq<u8>, w: Seq<u8>)
    requires
        pre.len() == 0 || pre.last() == 9u8 || pre.last() == 32u8 || pre.last() == 47u8
            || pre.last() == 92u8,
        plain_word(w),
        interpreter(w) is Some,
    ensures
        last_interpreter(pre + w, 0, None) == interpreter(w),
{
    let l = pre + w;
    let k = pre.len() as int;
    let n = l.len() as int;
    let d = interpreter(w).unwrap();
    assert forall|j: int| k <= j < n implies #[trigger] l[j] < 128 by {
        assert(l[j] == w[j - k]);
    }
    assert forall|j: int| k <= j < n implies #[trigger] spec_ws_width(l, j) == 0 by {
        assert(l[j] == w[j - k]);
    }
    assert forall|s: int|
        0 <= s <= k && (forall|j: int| s <= j < k ==> spec_ws_width(l, j) == 0) implies interpreter(
        basename(#[trigger] l.subrange(s, n)),
    ) == Some(d) by {
        let t = l.subrange(s, n);
        if k > 0 && (pre.last() == 9u8 || pre.last() == 32u8) {
            if s < k {
                assert(l[k - 1] == pre.last());
                assert(spec_ws_width(l, k - 1) > 0);
            }
            assert(t =~= w);
            assert forall|j: int| 0 <= j < t.len() implies t[j] != 47u8 && t[j] != 92u8 by {
                assert(t[j] == w[j]);
            }
            lemma_base_start_at(t, 0, t.len() as int);
            assert(basename(t) =~= w);
        } else {
            assert forall|j: int| k - s <= j < t.len() implies t[j] != 47u8 && t[j] != 92u8 by {
                assert(t[j] == w[j - (k - s)]);
            }
            if k - s > 0 {
                assert(t[k - s - 1] == pre.last());
            }
            lemma_base_start_at(t, k - s, t.len() as int);
            assert(t.skip(k - s) =~= w);
            assert(basename(t) =~= w);
        }
    }
    lemma_last_word_decides(l, 0, None, k, d);
}

/// `#!/usr/bin/env racket` or `#!/usr/bin/racket` as the first line, with
/// `racket` its last word: the source is detected as Racket with high
/// confidence, whatever the file's name.
pub proof fn lemma_racket_shebang(name: Option<Seq<u8>>, pre: Seq<u8>, rest: Seq<u8>)
    requires
        forall|j: int| 0 <= j < pre.len() ==> pre[j] != 10u8,
        pre.len() == 0 || pre.last() == 9u8 || pre.last() == 32u8 || pre.last() == 47u8
            || pre.last() == 92u8,
        starts_line_break(rest),
    ensures
        spec_detect(name, lit_shebang() + pre + seq![114u8, 97, 99, 107, 101, 116] + rest) == (
        Detection { dialect: Some(Dialect::Racket), confidence: Confidence::High, reason: "shebang interpreter" }),
{
    let w = seq![114u8, 97, 99, 107, 101, 116];
    assert(interpreter(w) == Some(Dialect::Racket));
    lemma_shebang_last_word(name, pre, w, rest);
}

/// The dialect detected for a source whose first line is `#!`, `pre`, then
/// the word `w`, followed by `rest`.
pub open spec fn shebang_dialect_of(name: Option<Seq<u8>>, pre: Seq<u8>, w: Seq<u8>, rest: Seq<u8>) -> Option<Dialect> {
    spec_detect(name, lit_shebang() + pre + w + rest).dialect
}

/// Guile, the tolerant reader and the Scheme implementations as a shebang's
/// last word.
proof fn lemma_shebang_scheme(name: Option<Seq<u8>>, pre: Seq<u8>, rest: Seq<u8>)
    requires
        forall|j: int| 0 <= j < pre.len() ==> pre[j] != 10u8,
        pre.len() == 0 || pre.last() == 9u8 || pre.last() == 32u8 || pre.last() == 47u8
            || pre.last() == 92u8,
        starts_line_break(rest),
    ensures
        shebang_dialect_of(name, pre, seq![103u8, 117, 105, 108, 101], rest) == Some(Dialect::Guile),
        shebang_dialect_of(name, pre, seq![103u8, 111, 115, 104], rest) == Some(Dialect::SchemeSuperset),
        shebang_dialect_of(name, pre, seq![115u8, 99, 104, 101, 109, 101], rest) == Some(Dialect::Scheme),
        shebang_dialect_of(name, pre, seq![99u8, 104, 101, 122], rest) == Some(Dialect::Scheme),
        shebang_dialect_of(name, pre, seq![99u8, 104, 101, 122, 115, 99, 104, 101, 109, 101], rest) == Some(Dialect::Scheme),
{
    assert(shebang_dialect_of(name, pre, seq![103u8, 117, 105, 108, 101], rest) == Some(Dialect::Guile)) by {
        assert(interpreter(seq![103u8, 117, 105, 108, 101]) == Some(Dialect::Guile));
        lemma_shebang_last_word(name, pre, seq![103u8, 117, 105, 108, 101], rest);
    }
    assert(shebang_dialect_of(name, pre, seq![103u8, 111, 115, 104], rest) == Some(Dialect::SchemeSuperset)) by {
        assert(interpreter(seq![103u8, 111, 115, 104]) == Some(Dialect::SchemeSuperset));
        lemma_shebang_last_word(name, pre, seq![103u8, 111, 115, 104], rest);
    }
    assert(shebang_dialect_of(name, pre, seq![115u8, 99, 104, 101, 109, 101], rest) == Some(Dialect::Scheme)) by {
        assert(interpreter(seq![115u8, 99, 104, 101, 109, 101]) == Some(Dialect::Scheme));
        lemma_shebang_last_word(name, pre, seq![115u8, 99, 104, 101, 109, 101], rest);
    }
    assert(shebang_dialect_of(name, pre, seq![99u8, 104, 101, 122], rest) == Some(Dialect::Scheme)) by {
        assert(interpreter(seq![99u8, 104, 101, 122]) == Some(Dialect::Scheme));
        lemma_shebang_last_word(name, pre, seq![99u8, 104, 101, 122], rest);
    }
    assert(shebang_dialect_of(name, pre, seq![99u8, 104, 101, 122, 115, 99, 104, 101, 109, 101], rest) == Some(Dialect::Scheme)) by {
        assert(interpreter(seq![99u8, 104, 101, 122, 115, 99, 104, 101, 109, 101]) == Some(Dialect::Scheme));
        lemma_shebang_last_word(name, pre, seq![99u8, 104, 101, 122, 115, 99, 104, 101, 109, 101], rest);
    }
}

/// The other Scheme implementations and Racket as a shebang's last word.
proof fn lemma_shebang_scheme_more(name: Option<Seq<u8>>, pre: Seq<u8>, rest: Seq<u8>)
    requires
        forall|j: int| 0 <= j < pre.len() ==> pre[j] != 10u8,
        pre.len() == 0 || pre.last() == 9u8 || pre.last() == 32u8 || pre.last() == 47u8
            || pre.last() == 92u8,
        starts_line_break(rest),
    ensures
        shebang_dialect_of(name, pre, seq![112u8, 101, 116, 105, 116, 101], rest) == Some(Dialect::Scheme),
        shebang_dialect_of(name, pre, seq![99u8, 115, 105], rest) == Some(Dialect::Scheme),
        shebang_dialect_of(name, pre, seq![99u8, 104, 105, 98, 105, 45, 115, 99, 104, 101, 109, 101], rest) == Some(Dialect::Scheme),
        shebang_dialect_of(name, pre, seq![114u8, 97, 99, 107, 101, 116], rest) == Some(Dialect::Racket),
{
    assert(shebang_dialect_of(name, pre, seq![112u8, 101, 116, 105, 116, 101], rest) == Some(Dialect::Scheme)) by {
        assert(interpreter(seq![112u8, 101, 116, 105, 116, 101]) == Some(Dialect::Scheme));
        lemma_shebang_last_word(name, pre, seq![112u8, 101, 116, 105, 116, 101], rest);
    }
    assert(shebang_dialect_of(name, pre, seq![99u8, 115, 105], rest) == Some(Dialect::Scheme)) by {
        assert(interpreter(seq![99u8, 115, 105]) == Some(Dialect::Scheme));
        lemma_shebang_last_word(name, pre, seq![99u8, 115, 105], rest);
    }
    assert(shebang_dialect_of(name, pre, seq![99u8, 104, 105, 98, 105, 45, 115, 99, 104, 101, 109, 101], rest) == Some(Dialect::Scheme)) by {
        assert(interpreter(seq![99u8, 104, 105, 98, 105, 45, 115, 99, 104, 101, 109, 101]) == Some(Dialect::Scheme));
        lemma_shebang_last_word(name, pre, seq![99u8, 104, 105, 98, 105, 45, 115, 99, 104, 101, 109, 101], rest);
    }
    assert(shebang_dialect_of(name, pre, seq![114u8, 97, 99, 107, 101, 116], rest) == Some(Dialect::Racket)) by {
        assert(interpreter(seq![114u8, 97, 99, 107, 101, 116]) == Some(Dialect::Racket));
        lemma_shebang_last_word(name, pre, seq![114u8, 97, 99, 107, 101, 116], rest);
    }
}

/// The Common Lisp implementations as a shebang's last word.
proof fn lemma_shebang_common_lisp(name: Option<Seq<u8>>, pre: Seq<u8>, rest: Seq<u8>)
    requires
        forall|j: int| 0 <= j < pre.len() ==> pre[j] != 10u8,
        pre.len() == 0 || pre.last() == 9u8 || pre.last() == 32u8 || pre.last() == 47u8
            || pre.last() == 92u8,
        starts_line_break(rest),
    ensures
        shebang_dialect_of(name, pre, seq![115u8, 98, 99, 108], rest) == Some(Dialect::CommonLisp),
        shebang_dialect_of(name, pre, seq![99u8, 99, 108], rest) == Some(Dialect::CommonLisp),
        shebang_dialect_of(name, pre, seq![99u8, 108, 105, 115, 112], rest) == Some(Dialect::CommonLisp),
        shebang_dialect_of(name, pre, seq![101u8, 99, 108], rest) == Some(Dialect::CommonLisp),
        shebang_dialect_of(name, pre, seq![97u8, 98, 99, 108], rest) == Some(Dialect::CommonLisp),
{
    assert(shebang_dialect_of(name, pre, seq![115u8, 98, 99, 108], rest) == Some(Dialect::CommonLisp)) by {
        assert(interpreter(seq![115u8, 98, 99, 108]) == Some(Dialect::CommonLisp));
        lemma_shebang_last_word(name, pre, seq![115u8, 98, 99, 108], rest);
    }
    assert(shebang_dialect_of(name, pre, seq![99u8, 99, 108], rest) == Some(Dialect::CommonLisp)) by {
        assert(interpreter(seq![99u8, 99, 108]) == Some(Dialect::CommonLisp));
        lemma_shebang_last_word(name, pre, seq![99u8, 99, 108], rest);
    }
    assert(shebang_dialect_of(name, pre, seq![99u8, 108, 105, 115, 112], rest) == Some(Dialect::CommonLisp)) by {
        assert(interpreter(seq![99u8, 108, 105, 115, 112]) == Some(Dialect::CommonLisp));
        lemma_shebang_last_word(name, pre, seq![99u8, 108, 105, 115, 112], rest);
    }
    assert(shebang_dialect_of(name, pre, seq![101u8, 99, 108], rest) == Some(Dialect::CommonLisp)) by {
        assert(interpreter(seq![101u8, 99, 108]) == Some(Dialect::CommonLisp));
        lemma_shebang_last_word(name, pre, seq![101u8, 99, 108], rest);
    }
    assert(shebang_dialect_of(name, pre, seq![97u8, 98, 99, 108], rest) == Some(Dialect::CommonLisp)) by {
        assert(interpreter(seq![97u8, 98, 99, 108]) == Some(Dialect::CommonLisp));
        lemma_shebang_last_word(name, pre, seq![97u8, 98, 99, 108], rest);
    }
}

/// Clojure's and Janet's interpreters as a shebang's last word.
proof fn lemma_shebang_clojure_janet(name: Option<Seq<u8>>, pre: Seq<u8>, rest: Seq<u8>)
    requires
        forall|j: int| 0 <= j < pre.len() ==> pre[j] != 10u8,
        pre.len() == 0 || pre.last() == 9u8 || pre.last() == 32u8 || pre.last() == 47u8
            || pre.last() == 92u8,
        starts_line_break(rest),
    ensures
        shebang_dialect_of(name, pre, seq![99u8, 108, 111, 106, 117, 114, 101], rest) == Some(Dialect::Clojure),
        shebang_dialect_of(name, pre, seq![99u8, 108, 106], rest) == Some(Dialect::Clojure),
        shebang_dialect_of(name, pre, seq![98u8, 98], rest) == Some(Dialect::Clojure),
        shebang_dialect_of(name, pre, seq![106u8, 97, 110, 101, 116], rest) == Some(Dialect::Janet),
{
    assert(shebang_dialect_of(name, pre, seq![99u8, 108, 111, 106, 117, 114, 101], rest) == Some(Dialect::Clojure)) by {
        assert(interpreter(seq![99u8, 108, 111, 106, 117, 114, 101]) == Some(Dialect::Clojure));
        lemma_shebang_last_word(name, pre, seq![99u8, 108, 111, 106, 117, 114, 101], rest);
    }
    assert(shebang_dialect_of(name, pre, seq![99u8, 108, 106], rest) == Some(Dialect::Clojure)) by {
        assert(interpreter(seq![99u8, 108, 106]) == Some(Dialect::Clojure));
        lemma_shebang_last_word(name, pre, seq![99u8, 108, 106], rest);
    }
    assert(shebang_dialect_of(name, pre, seq![98u8, 98], rest) == Some(Dialect::Clojure)) by {
        assert(interpreter(seq![98u8, 98]) == Some(Dialect::Clojure));
        lemma_shebang_last_word(name, pre, seq![98u8, 98], rest);
    }
    assert(shebang_dialect_of(name, pre, seq![106u8, 97, 110, 101, 116], rest) == Some(Dialect::Janet)) by {
        assert(interpreter(seq![106u8, 97, 110, 101, 116]) == Some(Dialect::Janet));
        lemma_shebang_last_word(name, pre, seq![106u8, 97, 110, 101, 116], rest);
    }
}

/// Hy, Fennel, Emacs and LFE as a shebang's last word.
proof fn lemma_shebang_other(name: Option<Seq<u8>>, pre: Seq<u8>, rest: Seq<u8>)
    requires
        forall|j: int| 0 <= j < pre.len() ==> pre[j] != 10u8,
        pre.len() == 0 || pre.last() == 9u8 || pre.last() == 32u8 || pre.last() == 47u8
            || pre.last() == 92u8,
        starts_line_break(rest),
    ensures
        shebang_dialect_of(name, pre, seq![104u8, 121], rest) == Some(Dialect::Hy),
        shebang_dialect_of(name, pre, seq![102u8, 101, 110, 110, 101, 108], rest) == Some(Dialect::Fennel),
        shebang_dialect_of(name, pre, seq![101u8, 109, 97, 99, 115], rest) == Some(Dialect::EmacsLisp),
        shebang_dialect_of(name, pre, seq![108u8, 102, 101], rest) == Some(Dialect::Lfe),
        shebang_dialect_of(name, pre, seq![108u8, 102, 101, 115, 99, 114, 105, 112, 116], rest) == Some(Dialect::Lfe),
{
    assert(shebang_dialect_of(name, pre, seq![104u8, 121], rest) == Some(Dialect::Hy)) by {
        assert(interpreter(seq![104u8, 121]) == Some(Dialect::Hy));
        lemma_shebang_last_word(name, pre, seq![104u8, 121], rest);
    }
    assert(shebang_dialect_of(name, pre, seq![102u8, 101, 110, 110, 101, 108], rest) == Some(Dialect::Fennel)) by {
        assert(interpreter(seq![102u8, 101, 110, 110, 101, 108]) == Some(Dialect::Fennel));
        lemma_shebang_last_word(name, pre, seq![102u8, 101, 110, 110, 101, 108], rest);
    }
    assert(shebang_dialect_of(name, pre, seq![101u8, 109, 97, 99, 115], rest) == Some(Dialect::EmacsLisp)) by {
        assert(interpreter(seq![101u8, 109, 97, 99, 115]) == Some(Dialect::EmacsLisp));
        lemma_shebang_last_word(name, pre, seq![101u8, 109, 97, 99, 115], rest);
    }
    assert(shebang_dialect_of(name, pre, seq![108u8, 102, 101], rest) == Some(Dialect::Lfe)) by {
        assert(interpreter(seq![108u8, 102, 101]) == Some(Dialect::Lfe));
        lemma_shebang_last_word(name, pre, seq![108u8, 102, 101], rest);
    }
    assert(shebang_dialect_of(name, pre, seq![108u8, 102, 101, 115, 99, 114, 105, 112, 116], rest) == Some(Dialect::Lfe)) by {
        assert(interpreter(seq![108u8, 102, 101, 115, 99, 114, 105, 112, 116]) == Some(Dialect::Lfe));
        lemma_shebang_last_word(name, pre, seq![108u8, 102, 101, 115, 99, 114, 105, 112, 116], rest);
    }
}

/// Each known interpreter, as a shebang's last word, detects its dialect,
/// whatever the file's name: `guile`; `gosh` (the tolerant `.scm` reader);
/// `scheme`, `chez`, `chezscheme`, `petite`, `csi`, `chibi-scheme`;
/// `racket`; `sbcl`, `ccl`, `clisp`, `ecl`, `abcl`; `clojure`, `clj`, `bb`;
/// `janet`; `hy`; `fennel`; `emacs`; `lfe`, `lfescript`.
pub proof fn lemma_shebang_interpreters(name: Option<Seq<u8>>, pre: Seq<u8>, rest: Seq<u8>)
    requires
        forall|j: int| 0 <= j < pre.len() ==> pre[j] != 10u8,
        pre.len() == 0 || pre.last() == 9u8 || pre.last() == 32u8 || pre.last() == 47u8
            || pre.last() == 92u8,
        starts_line_break(rest),
    ensures
        shebang_dialect_of(name, pre, seq![103u8, 117, 105, 108, 101], rest) == Some(Dialect::Guile),
        shebang_dialect_of(name, pre, seq![103u8, 111, 115, 104], rest) == Some(Dialect::SchemeSuperset),
        shebang_dialect_of(name, pre, seq![115u8, 99, 104, 101, 109, 101], rest) == Some(Dialect::Scheme),
        shebang_dialect_of(name, pre, seq![99u8, 104, 101, 122], rest) == Some(Dialect::Scheme),
        shebang_dialect_of(name, pre, seq![99u8, 104, 101, 122, 115, 99, 104, 101, 109, 101], rest) == Some(Dialect::Scheme),
        shebang_dialect_of(name, pre, seq![112u8, 101, 116, 105, 116, 101], rest) == Some(Dialect::Scheme),
        shebang_dialect_of(name, pre, seq![99u8, 115, 105], rest) == Some(Dialect::Scheme),
        shebang_dialect_of(name, pre, seq![99u8, 104, 105, 98, 105, 45, 115, 99, 104, 101, 109, 101], rest) == Some(Dialect::Scheme),
        shebang_dialect_of(name, pre, seq![114u8, 97, 99, 107, 101, 116], rest) == Some(Dialect::Racket),
        shebang_dialect_of(name, pre, seq![115u8, 98, 99, 108], rest) == Some(Dialect::CommonLisp),
        shebang_dialect_of(name, pre, seq![99u8, 99, 108], rest) == Some(Dialect::CommonLisp),
        shebang_dialect_of(name, pre, seq![99u8, 108, 105, 115, 112], rest) == Some(Dialect::CommonLisp),
        shebang_dialect_of(name, pre, seq![101u8, 99, 108], rest) == Some(Dialect::CommonLisp),
        shebang_dialect_of(name, pre, seq![97u8, 98, 99, 108], rest) == Some(Dialect::CommonLisp),
        shebang_dialect_of(name, pre, seq![99u8, 108, 111, 106, 117, 114, 101], rest) == Some(Dialect::Clojure),
        shebang_dialect_of(name, pre, seq![99u8, 108, 106], rest) == Some(Dialect::Clojure),
        shebang_dialect_of(name, pre, seq![98u8, 98], rest) == Some(Dialect::Clojure),
        shebang_dialect_of(name, pre, seq![106u8, 97, 110, 101, 116], rest) == Some(Dialect::Janet),
        shebang_dialect_of(name, pre, seq![104u8, 121], rest) == Some(Dialect::Hy),
        shebang_dialect_of(name, pre, seq![102u8, 101, 110, 110, 101, 108], rest) == Some(Dialect::Fennel),
        shebang_dialect_of(name, pre, seq![101u8, 109, 97, 99, 115], rest) == Some(Dialect::EmacsLisp),
        shebang_dialect_of(name, pre, seq![108u8, 102, 101], rest) == Some(Dialect::Lfe),
        shebang_dialect_of(name, pre, seq![108u8, 102, 101, 115, 99, 114, 105, 112, 116], rest) == Some(Dialect::Lfe),
{
    lemma_shebang_scheme(name, pre, rest);
    lemma_shebang_scheme_more(name, pre, rest);
    lemma_shebang_common_lisp(name, pre, rest);
    lemma_shebang_clojure_janet(name, pre, rest);
    lemma_shebang_other(name, pre, rest);
}

/// The bytes of an optional string.
pub open spec fn opt_bytes(s: Option<&str>) -> Option<Seq<u8>> {
    match s {
        Some(t) => Some(t.spec_bytes()),
        None => None,
    }
}

impl Dialect {
    /// The candidate dialects for a file extension (with or without a leading
    /// dot, case-insensitive), ordered by prior likelihood. A shared
    /// extension returns several candidates (`.scm` → superset then Guile;
    /// `.lsp` → Common Lisp then AutoLISP); an unknown one returns none.
    pub fn from_extension(ext: &str) -> (v: Vec<Dialect>)
        ensures
            v@ == spec_from_extension(ext.spec_bytes()),
    {
        let b = ext.as_bytes();
        let mut i: usize = 0;
        while i < b.len() && b[i] == 46
            invariant
                i <= b.len(),
                skip_dots(b@, 0) == skip_dots(b@, i as int),
            decreases b.len() - i,
        {
            i = i + 1;
        }
        let mut lower: Vec<u8> = Vec::new();
        let mut k: usize = i;
        while k < b.len()
            invariant
                i <= k <= b.len(),
                lower@ == b@.subrange(i as int, k as int).map_values(|c: u8| ascii_lower(c)),
            decreases b.len() - k,
        {
            let c = b[k];
            let l = if 65 <= c && c <= 90 {
                c + 32
            } else {
                c
            };
            lower.push(l);
            proof {
                assert(b@.subrange(i as int, k + 1) =~= b@.subrange(i as int, k as int).push(c));
            }
            k = k + 1;
        }
        assert(b@.skip(i as int) =~= b@.subrange(i as int, b.len() as int));
        ext_candidates_exec(lower.as_slice())
    }
}

/// Detect the dialect of a single file from its name and/or contents.
///
/// Precedence: a leading `#lang` directive, then a shebang interpreter, then
/// the file extension (disambiguated by content when the extension is
/// shared), then a content-only guess.
pub fn detect(filename: Option<&str>, source: &str) -> (d: Detection)
    ensures
        d == spec_detect(opt_bytes(filename), source.spec_bytes()),
{
    let b = source.as_bytes();
    // 1. A `#lang` directive is definitive: Racket.
    let start = skip_ws_exec(b);
    if bytes_start_with(b, start, lit_lang_exec().as_slice()) {
        return detection(Some(Dialect::Racket), Confidence::High, "#lang directive");
    }
    // 2. A shebang naming a known interpreter.
    let sb = shebang_dialect(b);
    if sb.is_some() {
        return detection(sb, Confidence::High, "shebang interpreter");
    }
    // 3. The file extension.
    let cands = match filename {
        Some(name) => match last_dot_exec(name.as_bytes()) {
            Some(d) => {
                proof {
                    lemma_str_valid(name);
                    lemma_ascii_next(name.spec_bytes(), d as int);
                    assert(name.spec_bytes().skip(d + 1) =~= name.spec_bytes().subrange(
                        d + 1,
                        name.spec_bytes().len() as int,
                    ));
                }
                let ext = slice(name, d + 1, name.as_bytes().len());
                Dialect::from_extension(ext)
            },
            None => Vec::new(),
        },
        None => Vec::new(),
    };
    if cands.len() == 1 {
        return detection(Some(cands[0]), Confidence::High, "unambiguous extension");
    }
    if cands.len() > 1 {
        match disambiguate(&cands, b) {
            Some(d) => {
                return detection(Some(d), Confidence::Medium, "extension + content");
            },
            None => {
                return detection(Some(cands[0]), Confidence::Medium, "extension (default)");
            },
        }
    }
    // 4. Content-only markers (unknown or absent extension).
    let cd = content_dialect(b);
    if cd.is_some() {
        return detection(cd, Confidence::Low, "content marker");
    }
    detection(None, Confidence::Low, "no extension or content signal")
}

fn skip_ws_exec(b: &[u8]) -> (p: usize)
    ensures
        p == skip_ws(b@, 0),
        p <= b.len(),
{
    let mut p: usize = 0;
    while p < b.len()
        invariant
            p <= b.len(),
            skip_ws(b@, 0) == skip_ws(b@, p as int),
        decreases b.len() - p,
    {
        let w = ws_width(b, p);
        if w == 0 {
            break;
        }
        p = p + w;
    }
    p
}

/// The offset of the last `.` of `n`, if any.
fn last_dot_exec(n: &[u8]) -> (r: Option<usize>)
    ensures
        match r {
            Some(d) => d == last_dot(n@, n@.len() as int) && d < n.len() && n@[d as int] == 46u8,
            None => last_dot(n@, n@.len() as int) < 0,
        },
{
    let mut i: usize = n.len();
    while i > 0
        invariant
            i <= n.len(),
            last_dot(n@, n@.len() as int) == last_dot(n@, i as int),
        decreases i,
    {
        if n[i - 1] == 46 {
            return Some(i - 1);
        }
        i = i - 1;
    }
    None
}

fn dialects_contain(v: &Vec<Dialect>, d: Dialect) -> (r: bool)
    ensures
        r == v@.contains(d),
{
    let mut i: usize = 0;
    while i < v.len()
        invariant
            i <= v.len(),
            forall|k: int| 0 <= k < i ==> v@[k] != d,
        decreases v.len() - i,
    {
        if v[i] == d {
            return true;
        }
        i = i + 1;
    }
    false
}

fn disambiguate(cands: &Vec<Dialect>, b: &[u8]) -> (r: Option<Dialect>)
    ensures
        r == spec_disambiguate(cands@, b@),
{
    // `.scm` → Guile vs the tolerant superset.
    if dialects_contain(cands, Dialect::Guile) {
        if bytes_contain(b, lit_define_module_exec().as_slice()) || bytes_contain(
            b,
            lit_use_modules_exec().as_slice(),
        ) {
            return Some(Dialect::Guile);
        }
        return Some(Dialect::SchemeSuperset);
    }
    // `.lsp` → AutoLISP vs Common Lisp.
    if dialects_contain(cands, Dialect::AutoLisp) {
        if bytes_contain(b, lit_defun_c_exec().as_slice()) || bytes_contain(
            b,
            lit_vl_exec().as_slice(),
        ) || bytes_contain(b, lit_vlax_exec().as_slice()) || bytes_contain(
            b,
            lit_command_exec().as_slice(),
        ) {
            return Some(Dialect::AutoLisp);
        }
        return Some(Dialect::CommonLisp);
    }
    None
}

fn content_dialect(b: &[u8]) -> (r: Option<Dialect>)
    ensures
        r == spec_content_dialect(b@),
{
    if bytes_contain(b, lit_define_library_exec().as_slice()) || bytes_contain(
        b,
        lit_import_scheme_exec().as_slice(),
    ) || bytes_contain(b, lit_import_rnrs_exec().as_slice()) {
        return Some(Dialect::Scheme);
    }
    if bytes_contain(b, lit_defpackage_exec().as_slice()) || bytes_contain(
        b,
        lit_in_package_exec().as_slice(),
    ) {
        return Some(Dialect::CommonLisp);
    }
    if bytes_contain(b, lit_lexical_binding_exec().as_slice()) || bytes_contain(
        b,
        lit_autoload_exec().as_slice(),
    ) || bytes_contain(b, lit_provide_exec().as_slice()) {
        return Some(Dialect::EmacsLisp);
    }
    if bytes_contain(b, lit_ns_exec().as_slice()) {
        return Some(Dialect::Clojure);
    }
    None
}

/// The dialect a `#!` first line names.
fn shebang_dialect(b: &[u8]) -> (r: Option<Dialect>)
    ensures
        r == spec_shebang_dialect(b@),
{
    // The first line, without its break.
    let mut e: usize = 0;
    while e < b.len() && b[e] != 10
        invariant
            e <= b.len(),
            line_end_from(b@, 0) == line_end_from(b@, e as int),
        decreases b.len() - e,
    {
        e = e + 1;
    }
    let len = if 0 < e && e < b.len() && b[e - 1] == 13 {
        e - 1
    } else {
        e
    };
    let ghost l = first_line(b@);
    assert(l =~= b@.take(len as int));
    if !(len >= 2 && b[0] == 35 && b[1] == 33) {
        assert(!starts_with_at(l, 0, lit_shebang())) by {
            if l.len() >= 2 {
                assert(l.subrange(0, 2)[0] == l[0]);
                assert(l.subrange(0, 2)[1] == l[1]);
            }
        }
        return None;
    }
    assert(starts_with_at(l, 0, lit_shebang())) by {
        assert(l.subrange(0, 2) =~= lit_shebang());
    }
    // Scan the words after `#!`, keeping the last known interpreter.
    let w = slice_of(b, 2, len);
    assert(w@ =~= l.skip(2));
    let mut acc: Option<Dialect> = None;
    let mut p: usize = 0;
    while p < w.len()
        invariant
            p <= w.len(),
            last_interpreter(w@, 0, None) == last_interpreter(w@, p as int, acc),
        decreases w.len() - p,
    {
        let ws = ws_width(w.as_slice(), p);
        if ws > 0 {
            p = p + ws;
        } else {
            let mut q: usize = p;
            while q < w.len() && ws_width(w.as_slice(), q) == 0
                invariant
                    p <= q <= w.len(),
                    run_end(w@, p as int) == run_end(w@, q as int),
                decreases w.len() - q,
            {
                q = q + 1;
            }
            proof {
                lemma_run_end(w@, p as int);
            }
            // The word's base name: what follows its last `/` or `\`.
            let word = slice_of(w.as_slice(), p, q);
            let mut s: usize = word.len();
            while s > 0 && word[s - 1] != 47 && word[s - 1] != 92
                invariant
                    s <= word.len(),
                    base_start(word@, word@.len() as int) == base_start(word@, s as int),
                decreases s,
            {
                s = s - 1;
            }
            let base = slice_of(word.as_slice(), s, word.len());
            assert(base@ =~= basename(word@));
            let found = interpreter_exec(base.as_slice());
            if found.is_some() {
                acc = found;
            }
            p = q;
        }
    }
    acc
}

/// The bytes `b[s..e]`, copied.
fn slice_of(b: &[u8], s: usize, e: usize) -> (v: Vec<u8>)
    requires
        s <= e <= b.len(),
    ensures
        v@ == b@.subrange(s as int, e as int),
{
    let mut v: Vec<u8> = Vec::new();
    let mut k: usize = s;
    while k < e
        invariant
            s <= k <= e,
            v@ == b@.subrange(s as int, k as int),
        decreases e - k,
    {
        v.push(b[k]);
        proof {
            assert(b@.subrange(s as int, k + 1) =~= b@.subrange(s as int, k as int).push(b@[k as int]));
        }
        k = k + 1;
    }
    v
}

/// A confidence's vote weight: `High` 3, `Medium` 2, `Low` 1.
pub open spec fn weight(c: Confidence) -> nat {
    match c {
        Confidence::High => 3,
        Confidence::Medium => 2,
        Confidence::Low => 1,
    }
}

/// The detection of one `(name, source)` file.
pub open spec fn file_detection(f: (&str, &str)) -> Detection {
    spec_detect(Some(f.0.spec_bytes()), f.1.spec_bytes())
}

/// The total vote of `files` for dialect `d`: each file detected as `d`
/// adds its confidence weight; undetected files abstain.
pub open spec fn score(files: Seq<(&str, &str)>, d: Dialect) -> nat
    decreases files.len(),
{
    if files.len() == 0 {
        0
    } else {
        score(files.drop_last(), d) + vote(files.last(), d)
    }
}

/// The vote of one file for dialect `d`: its confidence weight if it is
/// detected as `d`, else nothing.
pub open spec fn vote(f: (&str, &str), d: Dialect) -> nat {
    let v = file_detection(f);
    if v.dialect == Some(d) {
        weight(v.confidence)
    } else {
        0
    }
}

/// Whether `r` is the project dialect of `files`: `None` when no file
/// votes, else the dialect with the highest score, ties going to the one
/// first in [`Dialect::all`].
pub open spec fn project_choice(files: Seq<(&str, &str)>, r: Option<Dialect>) -> bool {
    match r {
        None => forall|d: Dialect| score(files, d) == 0,
        Some(w) => {
            &&& score(files, w) > 0
            &&& forall|d: Dialect| score(files, d) <= score(files, w)
            &&& forall|d: Dialect| score(files, d) == score(files, w) ==> rank(w) <= rank(d)
        },
    }
}

/// Taking one file out removes exactly its vote from every score.
proof fn lemma_score_remove(s: Seq<(&str, &str)>, j: int, d: Dialect)
    requires
        0 <= j < s.len(),
    ensures
        score(s, d) == score(s.remove(j), d) + vote(s[j], d),
    decreases s.len(),
{
    if j == s.len() - 1 {
        assert(s.remove(j) =~= s.drop_last());
    } else {
        lemma_score_remove(s.drop_last(), j, d);
        assert(s.remove(j).drop_last() =~= s.drop_last().remove(j));
        assert(s.remove(j).last() == s.last());
    }
}

/// Reordering the files leaves every dialect's score unchanged.
pub proof fn lemma_score_order_free(f1: Seq<(&str, &str)>, f2: Seq<(&str, &str)>, d: Dialect)
    requires
        f1.to_multiset() == f2.to_multiset(),
    ensures
        score(f1, d) == score(f2, d),
    decreases f1.len(),
{
    broadcast use vstd::seq_lib::group_to_multiset_ensures;

    if f1.len() == 0 {
        assert(f1.to_multiset().len() == f1.len());
        assert(f2.to_multiset().len() == f2.len());
    } else {
        let x = f1.last();
        assert(f1.drop_last().push(x) =~= f1);
        assert(f1.to_multiset().count(x) > 0);
        assert(f2.contains(x));
        let j = choose|j: int| 0 <= j < f2.len() && f2[j] == x;
        lemma_score_remove(f2, j, d);
        assert(f2.remove(j).to_multiset() =~= f1.drop_last().to_multiset());
        lemma_score_order_free(f1.drop_last(), f2.remove(j), d);
    }
}

/// The project dialect does not depend on the order of the files: any two
/// orderings of the same files have the same [`project_choice`].
pub proof fn lemma_project_choice_order_free(
    f1: Seq<(&str, &str)>,
    f2: Seq<(&str, &str)>,
    r1: Option<Dialect>,
    r2: Option<Dialect>,
)
    requires
        f1.to_multiset() == f2.to_multiset(),
        project_choice(f1, r1),
        project_choice(f2, r2),
    ensures
        r1 == r2,
{
    assert forall|d: Dialect| score(f1, d) == score(f2, d) by {
        lemma_score_order_free(f1, f2, d);
    }
    lemma_all_dialects_rank();
    match (r1, r2) {
        (Some(w1), Some(w2)) => {
            assert(score(f1, w1) == score(f1, w2));
            assert(rank(w1) == rank(w2));
            assert(spec_all_dialects()[rank(w1)] == w1);
        },
        (Some(w1), None) => {
            assert(score(f2, w1) == 0);
        },
        (None, Some(w2)) => {
            assert(score(f1, w2) == 0);
        },
        (None, None) => {},
    }
}

/// The position of a dialect in [`Dialect::all`], which breaks ties.
pub open spec fn rank(d: Dialect) -> int {
    match d {
        Dialect::Scheme => 0,
        Dialect::Clojure => 1,
        Dialect::CommonLisp => 2,
        Dialect::EmacsLisp => 3,
        Dialect::Racket => 4,
        Dialect::Janet => 5,
        Dialect::Hy => 6,
        Dialect::AutoLisp => 7,
        Dialect::Guile => 8,
        Dialect::Phel => 9,
        Dialect::Fennel => 10,
        Dialect::Lfe => 11,
        Dialect::Islisp => 12,
        Dialect::SchemeSuperset => 13,
        Dialect::Edn => 14,
        Dialect::Gauche => 15,
        Dialect::Mosh => 16,
        Dialect::Gambit => 17,
    }
}

/// Aggregate per-file [`detect`] results into one project dialect.
///
/// Each file votes for its detected dialect, weighted by confidence (`High`
/// 3, `Medium` 2, `Low` 1); undetected files abstain. The highest total
/// wins, ties broken by [`Dialect::all`] order — so the result does not
/// depend on the order of `files`. `None` if nothing was detected.
pub fn detect_project(files: &[(&str, &str)]) -> (r: Option<Dialect>)
    requires
        files.len() < u32::MAX,
    ensures
        project_choice(files@, r),
{
    // Detect every file once.
    let mut dets: Vec<Detection> = Vec::new();
    let mut i: usize = 0;
    while i < files.len()
        invariant
            i <= files.len(),
            dets.len() == i,
            forall|k: int| 0 <= k < i ==> dets@[k] == file_detection(#[trigger] files@[k]),
        decreases files.len() - i,
    {
        let (name, source) = files[i];
        dets.push(detect(Some(name), source));
        i = i + 1;
    }
    // Score every dialect in `Dialect::all` order; keep the first best.
    let all = Dialect::all();
    let mut best: Option<Dialect> = None;
    let mut best_score: u64 = 0;
    let mut j: usize = 0;
    while j < all.len()
        invariant
            all@ == spec_all_dialects(),
            j <= all.len(),
            dets.len() == files.len(),
            forall|k: int| 0 <= k < files.len() ==> dets@[k] == file_detection(#[trigger] files@[k]),
            best_score <= 3 * files.len(),
            match best {
                None => best_score == 0 && forall|k: int| 0 <= k < j ==> score(files@, #[trigger] all@[k]) == 0,
                Some(w) => {
                    &&& best_score == score(files@, w)
                    &&& best_score > 0
                    &&& forall|k: int| 0 <= k < j ==> score(files@, #[trigger] all@[k]) <= best_score
                    &&& rank(w) < j
                    &&& forall|k: int|
                        0 <= k < j && score(files@, #[trigger] all@[k]) == best_score ==> rank(w) <= k
                },
            },
        decreases all.len() - j,
    {
        let d = all[j];
        proof {
            lemma_all_dialects_rank();
            assert(rank(d) == j);
        }
        let s = score_of(&dets, d, Ghost(files@));
        if s > best_score {
            best = Some(d);
            best_score = s;
        }
        j = j + 1;
    }
    proof {
        lemma_all_dialects_rank();
    }
    best
}

/// The sum of the weights of the detections of `dets` for `d`.
fn score_of(dets: &Vec<Detection>, d: Dialect, Ghost(files): Ghost<Seq<(&str, &str)>>) -> (s: u64)
    requires
        dets.len() == files.len(),
        files.len() < u32::MAX,
        forall|k: int| 0 <= k < files.len() ==> dets@[k] == file_detection(#[trigger] files[k]),
    ensures
        s == score(files, d),
        s <= 3 * files.len(),
{
    let mut s: u64 = 0;
    let mut i: usize = 0;
    while i < dets.len()
        invariant
            i <= dets.len(),
            s == score(files.take(i as int), d),
            s <= 3 * i,
        decreases dets.len() - i,
    {
        proof {
            assert(files.take(i + 1).drop_last() =~= files.take(i as int));
            assert(files.take(i + 1).last() == files[i as int]);
        }
        let det = dets[i];
        if det.dialect == Some(d) {
            s = s + match det.confidence {
                Confidence::High => 3,
                Confidence::Medium => 2,
                Confidence::Low => 1,
            };
        }
        i = i + 1;
    }
    assert(files.take(files.len() as int) =~= files);
    s
}

/// Every dialect has a rank, its position in [`Dialect::all`].
proof fn lemma_all_dialects_rank()
    ensures
        forall|d: Dialect|
            0 <= #[trigger] rank(d) < spec_all_dialects().len() && spec_all_dialects()[rank(d)] == d,
{
    assert forall|d: Dialect|
        0 <= #[trigger] rank(d) < spec_all_dialects().len() && spec_all_dialects()[rank(d)] == d by {
        match d {
            _ => {},
        }
    }
}

} // verus!
