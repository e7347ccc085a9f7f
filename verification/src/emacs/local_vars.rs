//! Emacs file-local variables: the leading `-*- … -*-` header cookie and the
//! trailing `Local Variables:` … `End:` block.
//!
//! Emacs lets a file carry per-file settings two ways — a prop line at the
//! top (`;;; foo.el -*- mode: lisp; lexical-binding: t -*-`) and a `Local
//! Variables:` block at the bottom. This module reads both into raw
//! `name → value-text` bindings that a consumer (a formatter, a linter) then
//! interprets.
//!
//! A value is returned as its verbatim source text; nothing is evaluated. An
//! `eval: (…)` entry is surfaced as a binding named `eval` whose value is the
//! unparsed form text.
//!
//! All positions below count characters, not bytes.

#![verifier::loop_isolation(false)]

use vstd::prelude::*;
use vstd::string::*;

verus! {

broadcast use vstd::string::group_string_axioms;

// ---------------------------------------------------------------------------
// Text primitives, stated over character sequences.
// ---------------------------------------------------------------------------

/// Unicode `White_Space`, the set that `str::trim` strips.
pub open spec fn is_ws(ch: char) -> bool {
    let u = ch as u32;
    ||| u == 0x20 || (0x09 <= u && u <= 0x0D)
    ||| u == 0x85 || u == 0xA0 || u == 0x1680
    ||| (0x2000 <= u && u <= 0x200A)
    ||| u == 0x2028 || u == 0x2029 || u == 0x202F || u == 0x205F || u == 0x3000
}

/// `s` without its leading whitespace.
pub open spec fn trim_start(s: Seq<char>) -> Seq<char>
    decreases s.len(),
{
    if s.len() > 0 && is_ws(s[0]) {
        trim_start(s.drop_first())
    } else {
        s
    }
}

/// `s` without its trailing whitespace.
pub open spec fn trim_end(s: Seq<char>) -> Seq<char>
    decreases s.len(),
{
    if s.len() > 0 && is_ws(s.last()) {
        trim_end(s.drop_last())
    } else {
        s
    }
}

/// `s` without leading and trailing whitespace.
pub open spec fn trim(s: Seq<char>) -> Seq<char> {
    trim_end(trim_start(s))
}

/// Whether `s` begins with `p`.
pub open spec fn starts_with(s: Seq<char>, p: Seq<char>) -> bool {
    p.len() <= s.len() && s.subrange(0, p.len() as int) == p
}

/// The first position at or after `k` holding `ch`, or `s.len()`.
pub open spec fn char_from(s: Seq<char>, k: nat, ch: char) -> nat
    decreases s.len() - k,
{
    if k >= s.len() {
        s.len()
    } else if s[k as int] == ch {
        k
    } else {
        char_from(s, k + 1, ch)
    }
}

/// The first position at or after `k` where `pat` occurs in `s`.
pub open spec fn find_from(s: Seq<char>, pat: Seq<char>, k: nat) -> Option<nat>
    decreases s.len() + 1 - k,
{
    if k + pat.len() > s.len() {
        None
    } else if s.subrange(k as int, (k + pat.len()) as int) == pat {
        Some(k)
    } else {
        find_from(s, pat, k + 1)
    }
}

/// The last position below `n` where `pat` occurs in `s`.
pub open spec fn rfind_below(s: Seq<char>, pat: Seq<char>, n: nat) -> Option<nat>
    decreases n,
{
    if n == 0 {
        None
    } else if (n - 1) + pat.len() <= s.len() && s.subrange(n - 1, (n - 1) + pat.len()) == pat {
        Some((n - 1) as nat)
    } else {
        rfind_below(s, pat, (n - 1) as nat)
    }
}

/// The last position where `pat` occurs in `s`.
pub open spec fn rfind(s: Seq<char>, pat: Seq<char>) -> Option<nat> {
    rfind_below(s, pat, s.len() + 1)
}

/// The start of the line holding position `m`: just past the last `'\n'`
/// before `m`, or 0.
pub open spec fn line_start(s: Seq<char>, m: nat) -> nat
    decreases m,
{
    if m == 0 {
        0
    } else if s[m - 1] == '\n' {
        m
    } else {
        line_start(s, (m - 1) as nat)
    }
}

/// A line's text without the `'\r'` of a `"\r\n"` ending.
pub open spec fn strip_cr(t: Seq<char>) -> Seq<char> {
    if t.len() > 0 && t.last() == '\r' {
        t.drop_last()
    } else {
        t
    }
}

/// The lines of `s` from position `p` on, as `str::lines` gives them: split
/// at `'\n'`, a `'\r'` before it dropped, no empty line after a final `'\n'`.
pub open spec fn lines_from(s: Seq<char>, p: nat) -> Seq<Seq<char>>
    decreases s.len() - p,
{
    if p >= s.len() {
        Seq::empty()
    } else {
        let q = char_from(s, p, '\n');
        if q < s.len() {
            proof {
                lemma_char_from_bounds(s, p, '\n');
            }
            seq![strip_cr(s.subrange(p as int, q as int))] + lines_from(s, q + 1)
        } else {
            seq![s.subrange(p as int, s.len() as int)]
        }
    }
}

/// `char_from` lands in `[k, s.len()]`, on `ch` unless it reached the end,
/// past no other `ch`.
pub proof fn lemma_char_from_bounds(s: Seq<char>, k: nat, ch: char)
    ensures
        k <= s.len() ==> k <= char_from(s, k, ch),
        char_from(s, k, ch) <= s.len(),
        char_from(s, k, ch) < s.len() ==> s[char_from(s, k, ch) as int] == ch,
        forall|i: int| k <= i < char_from(s, k, ch) ==> s[i] != ch,
    decreases s.len() - k,
{
    if k < s.len() && s[k as int] != ch {
        lemma_char_from_bounds(s, k + 1, ch);
    }
}

// ---------------------------------------------------------------------------
// The bindings.
// ---------------------------------------------------------------------------

/// One `name: value` text as a binding: both sides trimmed, dropped when the
/// name is empty.
pub open spec fn binding(k: Seq<char>, v: Seq<char>) -> Seq<(Seq<char>, Seq<char>)> {
    if trim(k).len() > 0 {
        seq![(trim(k), trim(v))]
    } else {
        Seq::empty()
    }
}

/// The binding of a `name: value` piece split at its first `':'`; none if
/// it has no `':'`.
pub open spec fn piece_binding(t: Seq<char>) -> Seq<(Seq<char>, Seq<char>)> {
    let q = char_from(t, 0, ':');
    if q < t.len() {
        binding(t.subrange(0, q as int), t.subrange((q + 1) as int, t.len() as int))
    } else {
        Seq::empty()
    }
}

/// The bindings of the `';'`-separated pieces of `s` from position `p` on.
pub open spec fn pieces_from(s: Seq<char>, p: nat) -> Seq<(Seq<char>, Seq<char>)>
    decreases s.len() + 1 - p,
{
    if p > s.len() {
        Seq::empty()
    } else {
        let q = char_from(s, p, ';');
        proof {
            lemma_char_from_bounds(s, p, ';');
        }
        piece_binding(s.subrange(p as int, q as int)) + if q < s.len() {
            pieces_from(s, q + 1)
        } else {
            Seq::empty()
        }
    }
}

/// The text strictly between the first `open` and the first `close` after it.
pub open spec fn between(h: Seq<char>, open: Seq<char>, close: Seq<char>) -> Option<Seq<char>> {
    match find_from(h, open, 0) {
        Some(i) => {
            let rest = h.subrange((i + open.len()) as int, h.len() as int);
            match find_from(rest, close, 0) {
                Some(j) => Some(rest.subrange(0, j as int)),
                None => None,
            }
        },
        None => None,
    }
}

/// The prop line: the first line, or the second if the first is a shebang.
pub open spec fn header_line(s: Seq<char>) -> Seq<char> {
    let ls = lines_from(s, 0);
    let first = if ls.len() > 0 { ls[0] } else { Seq::empty() };
    if starts_with(first, "#!"@) {
        if ls.len() > 1 { ls[1] } else { Seq::empty() }
    } else {
        first
    }
}

/// The bindings of the `-*- … -*-` cookie: `var: val; …` pairs, or a bare
/// major-mode name read as a `mode` binding.
pub open spec fn header_bindings(s: Seq<char>) -> Seq<(Seq<char>, Seq<char>)> {
    match between(header_line(s), "-*-"@, "-*-"@) {
        Some(inner) => {
            if char_from(inner, 0, ':') < inner.len() {
                pieces_from(inner, 0)
            } else if trim(inner).len() > 0 {
                seq![("mode"@, trim(inner))]
            } else {
                Seq::empty()
            }
        },
        None => Seq::empty(),
    }
}

/// A block line with the block's comment prefix removed (or, lacking it,
/// its leading whitespace), then trimmed.
pub open spec fn block_body(line: Seq<char>, prefix: Seq<char>) -> Seq<char> {
    if starts_with(line, prefix) {
        trim(line.subrange(prefix.len() as int, line.len() as int))
    } else {
        trim(trim_start(line))
    }
}

/// The bindings of the block lines, up to the first one reading `End:`.
pub open spec fn block_bindings(lines: Seq<Seq<char>>, prefix: Seq<char>) -> Seq<(Seq<char>, Seq<char>)>
    decreases lines.len(),
{
    if lines.len() == 0 {
        Seq::empty()
    } else if starts_with(block_body(lines[0], prefix), "End:"@) {
        Seq::empty()
    } else {
        piece_binding(block_body(lines[0], prefix)) + block_bindings(lines.drop_first(), prefix)
    }
}

/// The bindings of the last `Local Variables:` block: the lines after the
/// marker's own line, sharing the text that precedes the marker on its line.
pub open spec fn footer_bindings(s: Seq<char>) -> Seq<(Seq<char>, Seq<char>)> {
    match rfind(s, "Local Variables:"@) {
        Some(m) => {
            let prefix = s.subrange(line_start(s, m) as int, m as int);
            block_bindings(lines_from(s, m).drop_first(), prefix)
        },
        None => Seq::empty(),
    }
}

/// Every file-local binding of `s`, in application order.
pub open spec fn spec_file_locals(s: Seq<char>) -> Seq<(Seq<char>, Seq<char>)> {
    header_bindings(s) + footer_bindings(s)
}

/// The effective (last-wins) value bound to `name`.
pub open spec fn last_binding(vars: Seq<(Seq<char>, Seq<char>)>, name: Seq<char>) -> Option<Seq<char>>
    decreases vars.len(),
{
    if vars.len() == 0 {
        None
    } else if vars.last().0 == name {
        Some(vars.last().1)
    } else {
        last_binding(vars.drop_last(), name)
    }
}

/// The last binding of `name` in `a + b` is `b`'s when `b` binds it, else
/// `a`'s.
pub proof fn lemma_last_binding_concat(
    a: Seq<(Seq<char>, Seq<char>)>,
    b: Seq<(Seq<char>, Seq<char>)>,
    name: Seq<char>,
)
    ensures
        last_binding(a + b, name) == match last_binding(b, name) {
            Some(v) => Some(v),
            None => last_binding(a, name),
        },
    decreases b.len(),
{
    if b.len() == 0 {
        assert(a + b =~= a);
    } else {
        lemma_last_binding_concat(a, b.drop_last(), name);
        assert((a + b).drop_last() =~= a + b.drop_last());
        assert((a + b).last() == b.last());
    }
}

/// A binding in the `Local Variables:` block overrides the header
/// cookie's binding of the same name: the effective value is the block's.
pub proof fn lemma_footer_overrides_header(s: Seq<char>, name: Seq<char>)
    requires
        last_binding(footer_bindings(s), name) is Some,
    ensures
        last_binding(spec_file_locals(s), name) == last_binding(footer_bindings(s), name),
{
    lemma_last_binding_concat(header_bindings(s), footer_bindings(s), name);
}

// ---------------------------------------------------------------------------
// Executable scanning over the source's characters.
// ---------------------------------------------------------------------------

/// The characters of `s`.
pub(crate) fn chars_of(s: &str) -> (v: Vec<char>)
    ensures
        v@ == s@,
{
    let mut v: Vec<char> = Vec::new();
    for c in it: s.chars()
        invariant
            v@ == it.seq().take(it.index() as int),
    {
        v.push(c);
    }
    v
}


/// Whether `ch` is Unicode white space.
fn is_ws_char(ch: char) -> (r: bool)
    ensures
        r == is_ws(ch),
{
    let u = ch as u32;
    u == 0x20 || (0x09 <= u && u <= 0x0D) || u == 0x85 || u == 0xA0 || u == 0x1680 || (0x2000 <= u
        && u <= 0x200A) || u == 0x2028 || u == 0x2029 || u == 0x202F || u == 0x205F || u == 0x3000
}

/// The first position at or after `from` in `c[lo..hi]` holding `ch`, or
/// `hi`.
fn scan_char(c: &Vec<char>, lo: usize, hi: usize, from: usize, ch: char) -> (q: usize)
    requires
        lo <= from <= hi <= c.len(),
    ensures
        q == lo + char_from(c@.subrange(lo as int, hi as int), (from - lo) as nat, ch),
        from <= q <= hi,
{
    let ghost w = c@.subrange(lo as int, hi as int);
    let mut j = from;
    while j < hi && c[j] != ch
        invariant
            lo <= from <= j <= hi <= c.len(),
            char_from(w, (from - lo) as nat, ch) == char_from(w, (j - lo) as nat, ch),
        decreases hi - j,
    {
        j = j + 1;
    }
    j
}

/// Whether `pat` occurs in `c` at position `k`.
fn match_at(c: &Vec<char>, k: usize, pat: &Vec<char>) -> (r: bool)
    requires
        k + pat.len() <= c.len(),
    ensures
        r == (c@.subrange(k as int, k + pat.len()) == pat@),
{
    let mut i: usize = 0;
    while i < pat.len()
        invariant
            i <= pat.len(),
            k + pat.len() <= c.len(),
            forall|t: int| 0 <= t < i ==> c@[k + t] == pat@[t],
        decreases pat.len() - i,
    {
        if c[k + i] != pat[i] {
            assert(c@.subrange(k as int, k + pat.len())[i as int] != pat@[i as int]);
            return false;
        }
        i = i + 1;
    }
    assert(c@.subrange(k as int, k + pat.len()) =~= pat@);
    true
}

/// The first occurrence of `pat` in `c[lo..hi]`, as a position in `c`.
fn find_in(c: &Vec<char>, lo: usize, hi: usize, pat: &Vec<char>) -> (r: Option<usize>)
    requires
        lo <= hi <= c.len(),
    ensures
        match r {
            Some(i) => lo <= i && i + pat.len() <= hi && find_from(c@.subrange(lo as int, hi as int), pat@, 0)
                == Some((i - lo) as nat),
            None => find_from(c@.subrange(lo as int, hi as int), pat@, 0) is None,
        },
{
    let ghost w = c@.subrange(lo as int, hi as int);
    let mut k = lo;
    while k <= hi && pat.len() <= hi - k
        invariant
            lo <= k,
            lo <= hi <= c.len(),
            find_from(w, pat@, 0) == find_from(w, pat@, (k - lo) as nat),
        decreases hi + 1 - k,
    {
        if match_at(c, k, pat) {
            assert(w.subrange(k - lo, k - lo + pat.len()) =~= c@.subrange(k as int, k + pat.len()));
            return Some(k);
        }
        assert(w.subrange(k - lo, k - lo + pat.len()) =~= c@.subrange(k as int, k + pat.len()));
        assert(pat.len() > 0) by {
            if pat.len() == 0 {
                assert(c@.subrange(k as int, k as int) =~= pat@);
            }
        }
        k = k + 1;
    }
    None
}

/// The last occurrence of a non-empty `pat` in `c`.
fn rfind_in(c: &Vec<char>, pat: &Vec<char>) -> (r: Option<usize>)
    requires
        pat.len() > 0,
    ensures
        match r {
            Some(i) => i + pat.len() <= c.len() && rfind(c@, pat@) == Some(i as nat),
            None => rfind(c@, pat@) is None,
        },
{
    let mut n = c.len();
    assert(rfind_below(c@, pat@, c@.len() + 1) == rfind_below(c@, pat@, c@.len()));
    while n > 0
        invariant
            n <= c.len(),
            pat.len() > 0,
            rfind(c@, pat@) == rfind_below(c@, pat@, n as nat),
        decreases n,
    {
        let k = n - 1;
        if pat.len() <= c.len() - k {
            if match_at(c, k, pat) {
                return Some(k);
            }
        }
        n = k;
    }
    None
}

/// The start of `c[lo..hi]` past its leading whitespace.
fn trim_start_at(c: &Vec<char>, lo: usize, hi: usize) -> (a: usize)
    requires
        lo <= hi <= c.len(),
    ensures
        lo <= a <= hi,
        c@.subrange(a as int, hi as int) == trim_start(c@.subrange(lo as int, hi as int)),
{
    let mut a = lo;
    while a < hi && is_ws_char(c[a])
        invariant
            lo <= a <= hi <= c.len(),
            trim_start(c@.subrange(lo as int, hi as int)) == trim_start(c@.subrange(a as int, hi as int)),
        decreases hi - a,
    {
        assert(c@.subrange(a as int, hi as int).drop_first() =~= c@.subrange(a + 1, hi as int));
        a = a + 1;
    }
    a
}

/// The end of `c[lo..hi]` before its trailing whitespace.
fn trim_end_at(c: &Vec<char>, lo: usize, hi: usize) -> (b: usize)
    requires
        lo <= hi <= c.len(),
    ensures
        lo <= b <= hi,
        c@.subrange(lo as int, b as int) == trim_end(c@.subrange(lo as int, hi as int)),
{
    let mut b = hi;
    while b > lo && is_ws_char(c[b - 1])
        invariant
            lo <= b <= hi <= c.len(),
            trim_end(c@.subrange(lo as int, hi as int)) == trim_end(c@.subrange(lo as int, b as int)),
        decreases b - lo,
    {
        assert(c@.subrange(lo as int, b as int).drop_last() =~= c@.subrange(lo as int, b - 1));
        b = b - 1;
    }
    b
}

/// The window of `c[lo..hi]` trimmed on both sides.
pub(crate) fn trim_at(c: &Vec<char>, lo: usize, hi: usize) -> (r: (usize, usize))
    requires
        lo <= hi <= c.len(),
    ensures
        lo <= r.0 <= r.1 <= hi,
        c@.subrange(r.0 as int, r.1 as int) == trim(c@.subrange(lo as int, hi as int)),
{
    let a = trim_start_at(c, lo, hi);
    let b = trim_end_at(c, a, hi);
    (a, b)
}

/// The text of `source` between character positions `a` and `b`.
pub(crate) fn text(source: &str, a: usize, b: usize) -> (t: String)
    requires
        a <= b <= source@.len(),
    ensures
        t@ == source@.subrange(a as int, b as int),
{
    source.substring_char(a, b).to_owned()
}

/// The bindings held by a list of `(name, value)` strings.
pub open spec fn pairs_view(v: Seq<(String, String)>) -> Seq<(Seq<char>, Seq<char>)> {
    v.map_values(|p: (String, String)| (p.0@, p.1@))
}

/// Push the binding of the key text `c[k0..k1]` and value text `c[v0..v1]`.
fn push_binding(source: &str, c: &Vec<char>, out: &mut Vec<(String, String)>, k0: usize, k1: usize, v0: usize, v1: usize)
    requires
        c@ == source@,
        k0 <= k1 <= c.len(),
        v0 <= v1 <= c.len(),
    ensures
        pairs_view(final(out)@) == pairs_view(old(out)@) + binding(
            c@.subrange(k0 as int, k1 as int),
            c@.subrange(v0 as int, v1 as int),
        ),
{
    let (ka, kb) = trim_at(c, k0, k1);
    if ka < kb {
        let (va, vb) = trim_at(c, v0, v1);
        let key = text(source, ka, kb);
        let val = text(source, va, vb);
        let ghost before = out@;
        out.push((key, val));
        assert(pairs_view(out@) =~= pairs_view(before) + binding(
            c@.subrange(k0 as int, k1 as int),
            c@.subrange(v0 as int, v1 as int),
        ));
    } else {
        assert(pairs_view(out@) =~= pairs_view(old(out)@) + binding(
            c@.subrange(k0 as int, k1 as int),
            c@.subrange(v0 as int, v1 as int),
        ));
    }
}

/// Push the binding of the `name: value` piece `c[lo..hi]`, if it has one.
fn push_piece(source: &str, c: &Vec<char>, out: &mut Vec<(String, String)>, lo: usize, hi: usize)
    requires
        c@ == source@,
        lo <= hi <= c.len(),
    ensures
        pairs_view(final(out)@) == pairs_view(old(out)@) + piece_binding(c@.subrange(lo as int, hi as int)),
{
    let ghost w = c@.subrange(lo as int, hi as int);
    let q = scan_char(c, lo, hi, lo, ':');
    if q < hi {
        assert(w.subrange(0, q - lo) =~= c@.subrange(lo as int, q as int));
        assert(w.subrange(q - lo + 1, w.len() as int) =~= c@.subrange(q + 1, hi as int));
        push_binding(source, c, out, lo, q, q + 1, hi);
    } else {
        assert(pairs_view(out@) =~= pairs_view(old(out)@) + piece_binding(w));
    }
}


/// The line starting at `p`: its end without a `"\r\n"` ending, and the
/// position of its `'\n'` (or `c.len()` for a last line without one).
fn next_line(c: &Vec<char>, p: usize) -> (r: (usize, usize))
    requires
        p < c.len(),
    ensures
        p <= r.0 <= r.1 <= c.len(),
        r.1 < c.len() ==> c@[r.1 as int] == '\n',
        lines_from(c@, p as nat) == seq![c@.subrange(p as int, r.0 as int)] + if r.1 < c.len() {
            lines_from(c@, (r.1 + 1) as nat)
        } else {
            Seq::<Seq<char>>::empty()
        },
{
    let n = c.len();
    let q = scan_char(c, 0, n, p, '\n');
    assert(c@.subrange(0, n as int) =~= c@);
    proof {
        lemma_char_from_bounds(c@, p as nat, '\n');
    }
    if q < n && q > p && c[q - 1] == '\r' {
        assert(c@.subrange(p as int, q as int).drop_last() =~= c@.subrange(p as int, q - 1));
        (q - 1, q)
    } else {
        (q, q)
    }
}

/// The window of the prop line: the first line, or the second if the first
/// is a shebang.
fn header_window(c: &Vec<char>) -> (r: (usize, usize))
    ensures
        r.0 <= r.1 <= c.len(),
        c@.subrange(r.0 as int, r.1 as int) == header_line(c@),
{
    let n = c.len();
    if n == 0 {
        assert(c@.subrange(0, 0) =~= Seq::<char>::empty());
        return (0, 0);
    }
    let (e0, q0) = next_line(c, 0);
    let ghost ls = lines_from(c@, 0);
    let ghost first = c@.subrange(0, e0 as int);
    assert(ls[0] == first);
    let bang = chars_of("#!");
    let shebang = bang.len() <= e0 && match_at(c, 0, &bang);
    proof {
        if bang.len() <= e0 {
            assert(first.subrange(0, bang.len() as int) =~= c@.subrange(0, bang.len() as int));
        }
    }
    if shebang {
        if q0 < n && q0 + 1 < n {
            let (e1, _q1) = next_line(c, q0 + 1);
            assert(ls[1] == c@.subrange(q0 + 1, e1 as int));
            (q0 + 1, e1)
        } else {
            assert(c@.subrange(0, 0) =~= Seq::<char>::empty());
            (0, 0)
        }
    } else {
        (0, e0)
    }
}

/// Read the `-*- … -*-` cookie of the prop line.
fn read_header(source: &str, c: &Vec<char>, out: &mut Vec<(String, String)>)
    requires
        c@ == source@,
    ensures
        pairs_view(final(out)@) == pairs_view(old(out)@) + header_bindings(c@),
{
    let (h0, h1) = header_window(c);
    let ghost h = c@.subrange(h0 as int, h1 as int);
    let open = chars_of("-*-");
    let i = match find_in(c, h0, h1, &open) {
        Some(i) => i,
        None => {
            assert(pairs_view(out@) =~= pairs_view(old(out)@) + header_bindings(c@));
            return;
        },
    };
    let start = i + open.len();
    let ghost rest = h.subrange((i - h0) + open.len(), h.len() as int);
    assert(rest =~= c@.subrange(start as int, h1 as int));
    let j = match find_in(c, start, h1, &open) {
        Some(j) => j,
        None => {
            assert(pairs_view(out@) =~= pairs_view(old(out)@) + header_bindings(c@));
            return;
        },
    };
    let ghost inner = c@.subrange(start as int, j as int);
    assert(rest.subrange(0, j - start) =~= inner);
    assert(between(h, "-*-"@, "-*-"@) == Some(inner));
    let q = scan_char(c, start, j, start, ':');
    if q < j {
        let ghost goal = pairs_view(old(out)@) + pieces_from(inner, 0);
        let mut p = start;
        loop
            invariant
                start <= p <= j <= c.len(),
                c@ == source@,
                inner == c@.subrange(start as int, j as int),
                pairs_view(out@) + pieces_from(inner, (p - start) as nat) == goal,
            decreases j - p,
        {
            let q = scan_char(c, start, j, p, ';');
            proof {
                lemma_char_from_bounds(inner, (p - start) as nat, ';');
                assert(inner.subrange(p - start, q - start) =~= c@.subrange(p as int, q as int));
            }
            let ghost before = pairs_view(out@);
            push_piece(source, c, out, p, q);
            if q < j {
                assert(pairs_view(out@) + pieces_from(inner, (q + 1 - start) as nat) =~= before + pieces_from(
                    inner,
                    (p - start) as nat,
                ));
                p = q + 1;
            } else {
                assert(pairs_view(out@) =~= before + pieces_from(inner, (p - start) as nat));
                break;
            }
        }
    } else {
        let (a, b) = trim_at(c, start, j);
        if a < b {
            let key = "mode".to_owned();
            let val = text(source, a, b);
            let ghost before = out@;
            out.push((key, val));
            assert(pairs_view(out@) =~= pairs_view(before) + header_bindings(c@));
        } else {
            assert(pairs_view(out@) =~= pairs_view(old(out)@) + header_bindings(c@));
        }
    }
}

/// The start of the line holding position `m`.
fn line_start_of(c: &Vec<char>, m: usize) -> (ls: usize)
    requires
        m <= c.len(),
    ensures
        ls == line_start(c@, m as nat),
        ls <= m,
{
    let mut i = m;
    while i > 0 && c[i - 1] != '\n'
        invariant
            i <= m <= c.len(),
            line_start(c@, m as nat) == line_start(c@, i as nat),
        decreases i,
    {
        i = i - 1;
    }
    i
}

/// Whether `c[a..a+len]` and `c[b..b+len]` hold the same characters.
fn windows_equal(c: &Vec<char>, a: usize, b: usize, len: usize) -> (r: bool)
    requires
        a + len <= c.len(),
        b + len <= c.len(),
    ensures
        r == (c@.subrange(a as int, a + len) == c@.subrange(b as int, b + len)),
{
    let mut i: usize = 0;
    while i < len
        invariant
            i <= len,
            a + len <= c.len(),
            b + len <= c.len(),
            c@.subrange(a as int, a + i) == c@.subrange(b as int, b + i),
        decreases len - i,
    {
        if c[a + i] != c[b + i] {
            assert(c@.subrange(a as int, a + len)[i as int] != c@.subrange(b as int, b + len)[i as int]);
            return false;
        }
        assert(c@.subrange(a as int, a + i + 1) =~= c@.subrange(a as int, a + i).push(c@[a + i]));
        assert(c@.subrange(b as int, b + i + 1) =~= c@.subrange(b as int, b + i).push(c@[b + i]));
        i = i + 1;
    }
    assert(c@.subrange(a as int, a + len) =~= c@.subrange(b as int, b + len));
    true
}

/// The window of [`block_body`] for the line `c[lo..hi]` and the prefix
/// `c[plo..phi]`.
fn block_body_at(c: &Vec<char>, lo: usize, hi: usize, plo: usize, phi: usize) -> (r: (usize, usize))
    requires
        lo <= hi <= c.len(),
        plo <= phi <= c.len(),
    ensures
        r.0 <= r.1 <= c.len(),
        c@.subrange(r.0 as int, r.1 as int) == block_body(
            c@.subrange(lo as int, hi as int),
            c@.subrange(plo as int, phi as int),
        ),
{
    let ghost line = c@.subrange(lo as int, hi as int);
    let plen = phi - plo;
    if plen <= hi - lo && windows_equal(c, lo, plo, plen) {
        assert(line.subrange(0, plen as int) =~= c@.subrange(lo as int, lo + plen));
        assert(line.subrange(plen as int, line.len() as int) =~= c@.subrange(lo + plen, hi as int));
        trim_at(c, lo + plen, hi)
    } else {
        proof {
            if plen <= hi - lo {
                assert(line.subrange(0, plen as int) =~= c@.subrange(lo as int, lo + plen));
            }
        }
        let a = trim_start_at(c, lo, hi);
        trim_at(c, a, hi)
    }
}

/// Read the last `Local Variables:` … `End:` block.
fn read_footer(source: &str, c: &Vec<char>, out: &mut Vec<(String, String)>)
    requires
        c@ == source@,
    ensures
        pairs_view(final(out)@) == pairs_view(old(out)@) + footer_bindings(c@),
{
    let n = c.len();
    let marker = chars_of("Local Variables:");
    proof {
        reveal_strlit("Local Variables:");
    }
    let m = match rfind_in(c, &marker) {
        Some(m) => m,
        None => {
            assert(pairs_view(out@) =~= pairs_view(old(out)@) + footer_bindings(c@));
            return;
        },
    };
    let ls = line_start_of(c, m);
    let ghost prefix = c@.subrange(ls as int, m as int);
    let (_e, q) = next_line(c, m);
    let ghost goal = pairs_view(old(out)@) + footer_bindings(c@);
    if q >= n {
        assert(lines_from(c@, m as nat).drop_first() =~= Seq::<Seq<char>>::empty());
        assert(pairs_view(out@) =~= goal);
        return;
    }
    assert(lines_from(c@, m as nat).drop_first() =~= lines_from(c@, (q + 1) as nat));
    let end_pat = chars_of("End:");
    let mut p = q + 1;
    loop
        invariant
            p <= n == c.len(),
            ls <= m <= n,
            c@ == source@,
            prefix == c@.subrange(ls as int, m as int),
            pairs_view(out@) + block_bindings(lines_from(c@, p as nat), prefix) == goal,
        decreases n - p,
    {
        if p >= n {
            assert(pairs_view(out@) =~= goal);
            break;
        }
        let (e, q) = next_line(c, p);
        let ghost line = c@.subrange(p as int, e as int);
        let ghost rest = if q < n {
            lines_from(c@, (q + 1) as nat)
        } else {
            Seq::<Seq<char>>::empty()
        };
        assert((seq![line] + rest)[0] == line);
        assert((seq![line] + rest).drop_first() =~= rest);
        let (b0, b1) = block_body_at(c, p, e, ls, m);
        let ghost body = c@.subrange(b0 as int, b1 as int);
        let ends = end_pat.len() <= b1 - b0 && match_at(c, b0, &end_pat);
        proof {
            if end_pat.len() <= b1 - b0 {
                assert(body.subrange(0, end_pat.len() as int) =~= c@.subrange(b0 as int, b0 + end_pat.len()));
            }
        }
        if ends {
            assert(pairs_view(out@) =~= goal);
            break;
        }
        let ghost before = pairs_view(out@);
        push_piece(source, c, out, b0, b1);
        if q < n {
            assert(pairs_view(out@) + block_bindings(lines_from(c@, (q + 1) as nat), prefix) =~= before
                + block_bindings(lines_from(c@, p as nat), prefix));
            p = q + 1;
        } else {
            assert(block_bindings(Seq::<Seq<char>>::empty(), prefix) =~= Seq::empty());
            assert(pairs_view(out@) + block_bindings(lines_from(c@, n as nat), prefix) =~= before
                + block_bindings(lines_from(c@, p as nat), prefix));
            p = n;
        }
    }
}


// ---------------------------------------------------------------------------
// The public surface.
// ---------------------------------------------------------------------------

/// The file-local variables read from a source buffer — raw
/// `name → value-text` bindings in application order (the header cookie
/// first, then the `Local Variables:` block), so a later binding for the
/// same name overrides an earlier one, as in Emacs.
#[derive(Debug, Clone, Default, PartialEq, Eq)]
pub struct FileLocals {
    vars: Vec<(String, String)>,
}

impl View for FileLocals {
    type V = Seq<(Seq<char>, Seq<char>)>;

    closed spec fn view(&self) -> Seq<(Seq<char>, Seq<char>)> {
        pairs_view(self.vars@)
    }
}

impl FileLocals {
    /// Every binding, in application order. Duplicate names are kept (the
    /// last one is the effective value — see [`FileLocals::get`]); an `eval`
    /// entry appears here verbatim and is never executed.
    pub fn iter(&self) -> (v: Vec<(&str, &str)>)
        ensures
            v@.len() == self@.len(),
            forall|i: int| 0 <= i < v@.len() ==> ((#[trigger] v@[i]).0@, v@[i].1@) == self@[i],
    {
        let mut v: Vec<(&str, &str)> = Vec::new();
        let mut i: usize = 0;
        while i < self.vars.len()
            invariant
                i <= self.vars.len(),
                v@.len() == i,
                forall|k: int| 0 <= k < i ==> ((#[trigger] v@[k]).0@, v@[k].1@) == self@[k],
            decreases self.vars.len() - i,
        {
            v.push((self.vars[i].0.as_str(), self.vars[i].1.as_str()));
            i = i + 1;
        }
        v
    }

    /// The effective (last-wins) raw value text for `name`, if bound.
    pub fn get(&self, name: &str) -> (r: Option<&str>)
        ensures
            match r {
                Some(v) => last_binding(self@, name@) == Some(v@),
                None => last_binding(self@, name@) is None,
            },
    {
        let key = name.to_owned();
        let mut i = self.vars.len();
        assert(self@.take(i as int) =~= self@);
        while i > 0
            invariant
                i <= self.vars.len(),
                key@ == name@,
                last_binding(self@, name@) == last_binding(self@.take(i as int), name@),
            decreases i,
        {
            assert(self@.take(i as int).drop_last() =~= self@.take(i - 1));
            assert(self@.take(i as int).last() == self@[i - 1]);
            if self.vars[i - 1].0 == key {
                return Some(self.vars[i - 1].1.as_str());
            }
            i = i - 1;
        }
        None
    }

    /// Whether any file-local variable was found.
    pub fn is_empty(&self) -> (b: bool)
        ensures
            b == (self@.len() == 0),
    {
        self.vars.len() == 0
    }

    /// The number of bindings (including duplicates).
    pub fn len(&self) -> (n: usize)
        ensures
            n == self@.len(),
    {
        self.vars.len()
    }
}

/// Read all file-local variables from `source`: the `-*- … -*-` header
/// cookie followed by the `Local Variables:` … `End:` block.
pub fn file_locals(source: &str) -> (fl: FileLocals)
    ensures
        fl@ == spec_file_locals(source@),
{
    let c = chars_of(source);
    let mut vars: Vec<(String, String)> = Vec::new();
    assert(pairs_view(vars@) =~= Seq::empty());
    read_header(source, &c, &mut vars);
    read_footer(source, &c, &mut vars);
    FileLocals { vars }
}

} // verus!
