//! A simple evaluator for Emacs `.dir-locals.el` — directory-local
//! variables.
//!
//! `.dir-locals.el` is an elisp alist keyed by major mode:
//! `((MODE . ((VAR . VALUE) …)) …)`, where `nil` means *all modes*, plus an
//! optional per-subdirectory nesting `(("subdir" . ((MODE . VARS) …)) …)`.
//! This module reads it with the Emacs Lisp reader into raw
//! `name → value-text` bindings a consumer then interprets.
//!
//! "Evaluator" means it resolves the *structure* (which mode / subdir a
//! binding is under); it runs no elisp. Each value is returned as its
//! verbatim source text, so an `(eval . (…))` entry is surfaced as a binding
//! named `eval` whose value is the unparsed form.

#![verifier::loop_isolation(false)]

use vstd::prelude::*;
use vstd::string::*;
use vstd::utf8::decode_utf8;

use crate::datum::{Datum, DatumKind};
use crate::emacs::local_vars::{chars_of, pairs_view, text, trim, trim_at};
use crate::options::{bytes_equal, Options};
use crate::reader::{data_wf, parse, reveal_data_wf};
use crate::reading::{read_top, stream_of};
use crate::shape::shapes_of;

verus! {

/// The text of an optional string.
pub open spec fn opt_view(s: Option<String>) -> Option<Seq<char>> {
    match s {
        Some(t) => Some(t@),
        None => None,
    }
}

/// What a [`DirLocalEntry`] holds, as plain text.
pub struct EntryView {
    pub subdir: Option<Seq<char>>,
    pub mode: Option<Seq<char>>,
    pub vars: Seq<(Seq<char>, Seq<char>)>,
}

/// One resolved group of directory-local bindings: the variables under a
/// particular major mode (and optionally a particular subdirectory).
#[derive(Debug, Clone, PartialEq, Eq)]
pub struct DirLocalEntry {
    /// The subdirectory this group is scoped to (`Some("subdir")`), or
    /// `None` for a top-level entry.
    pub subdir: Option<String>,
    /// The major mode this group applies to, or `None` for the `nil` =
    /// all-modes entry.
    pub mode: Option<String>,
    /// The `name → value-text` bindings, in source order. Values are
    /// verbatim (an `eval` entry's value is the unparsed form text).
    pub vars: Vec<(String, String)>,
}

impl View for DirLocalEntry {
    type V = EntryView;

    open spec fn view(&self) -> EntryView {
        EntryView { subdir: opt_view(self.subdir), mode: opt_view(self.mode), vars: pairs_view(self.vars@) }
    }
}

// ---------------------------------------------------------------------------
// What the file means, stated over the forms the reader produced.
// ---------------------------------------------------------------------------

/// The source text of a datum, trimmed.
pub open spec fn datum_text(d: Datum, b: Seq<u8>) -> Seq<char> {
    trim(decode_utf8(b.subrange(d.span.start as int, d.span.end as int)))
}

/// `s` without leading `'"'` characters.
pub open spec fn strip_lead_quotes(s: Seq<char>) -> Seq<char>
    decreases s.len(),
{
    if s.len() > 0 && s[0] == '"' {
        strip_lead_quotes(s.drop_first())
    } else {
        s
    }
}

/// `s` without trailing `'"'` characters.
pub open spec fn strip_trail_quotes(s: Seq<char>) -> Seq<char>
    decreases s.len(),
{
    if s.len() > 0 && s.last() == '"' {
        strip_trail_quotes(s.drop_last())
    } else {
        s
    }
}

/// A string literal's text without its surrounding quote characters.
pub open spec fn unquoted(s: Seq<char>) -> Seq<char> {
    strip_trail_quotes(strip_lead_quotes(s))
}

/// The elements after the car of a `(CAR . REST)` list: the tail list's
/// items when dotted (`(k . (a b))`), else the items after the first
/// (`(k a b)`).
pub open spec fn rest_of<'t>(items: Seq<Datum<'t>>, tail: Option<Box<Datum<'t>>>) -> Seq<Datum<'t>> {
    match tail {
        Some(t) => match t.kind {
            DatumKind::List { items: inner, .. } => inner@,
            _ => Seq::empty(),
        },
        None => items.skip(1),
    }
}

/// A `(KEY . VALUE)` / `(KEY VALUE)` pair as verbatim `(name, value-text)`.
pub open spec fn pair_of(d: Datum, b: Seq<u8>) -> Seq<(Seq<char>, Seq<char>)> {
    match d.kind {
        DatumKind::List { items, tail, .. } => {
            if items.len() == 0 {
                Seq::empty()
            } else {
                match tail {
                    Some(t) => seq![(datum_text(items@[0], b), datum_text(*t, b))],
                    None => if items.len() == 2 {
                        seq![(datum_text(items@[0], b), datum_text(items@[1], b))]
                    } else {
                        Seq::empty()
                    },
                }
            }
        },
        _ => Seq::empty(),
    }
}

/// The pairs among `rest`, in order.
pub open spec fn pairs_of(rest: Seq<Datum>, b: Seq<u8>) -> Seq<(Seq<char>, Seq<char>)>
    decreases rest.len(),
{
    if rest.len() == 0 {
        Seq::empty()
    } else {
        pairs_of(rest.drop_last(), b) + pair_of(rest.last(), b)
    }
}

/// The mode a symbol names: `nil` is every mode.
pub open spec fn mode_of(name: &str) -> Option<Seq<char>> {
    if name.spec_bytes() == seq![110u8, 105, 108] {
        None
    } else {
        Some(name@)
    }
}

/// The mode group `(MODE . VARS)` in `subdir`, if `d` is one.
pub open spec fn group_of(d: Datum, subdir: Option<Seq<char>>, b: Seq<u8>) -> Seq<EntryView> {
    match d.kind {
        DatumKind::List { items, tail, .. } => {
            if items.len() == 0 {
                Seq::empty()
            } else {
                match items@[0].kind {
                    DatumKind::Symbol(name) => seq![
                        EntryView {
                            subdir,
                            mode: mode_of(name),
                            vars: pairs_of(rest_of(items@, tail), b),
                        },
                    ],
                    _ => Seq::empty(),
                }
            }
        },
        _ => Seq::empty(),
    }
}

/// The mode groups among `rest`, all in subdirectory `dir`.
pub open spec fn groups_in(rest: Seq<Datum>, dir: Seq<char>, b: Seq<u8>) -> Seq<EntryView>
    decreases rest.len(),
{
    if rest.len() == 0 {
        Seq::empty()
    } else {
        groups_in(rest.drop_last(), dir, b) + group_of(rest.last(), Some(dir), b)
    }
}

/// The groups of one top-level element: a string key opens a subdirectory
/// scope whose value is itself a mode alist; a symbol key is a mode group.
pub open spec fn top_groups(d: Datum, b: Seq<u8>) -> Seq<EntryView> {
    match d.kind {
        DatumKind::List { items, tail, .. } => {
            if items.len() == 0 {
                Seq::empty()
            } else {
                match items@[0].kind {
                    DatumKind::Str(s) => groups_in(rest_of(items@, tail), unquoted(s@), b),
                    _ => group_of(d, None, b),
                }
            }
        },
        _ => Seq::empty(),
    }
}

/// The groups of the top-level elements `s`, in order.
pub open spec fn all_groups(s: Seq<Datum>, b: Seq<u8>) -> Seq<EntryView>
    decreases s.len(),
{
    if s.len() == 0 {
        Seq::empty()
    } else {
        all_groups(s.drop_last(), b) + top_groups(s.last(), b)
    }
}

/// The groups of a `.dir-locals.el` whose forms are `data`: those of its
/// first form when that is a list, none otherwise.
pub open spec fn spec_dir_locals(data: Seq<Datum>, b: Seq<u8>) -> Seq<EntryView> {
    if data.len() == 0 {
        Seq::empty()
    } else {
        match data[0].kind {
            DatumKind::List { items, .. } => all_groups(items@, b),
            _ => Seq::empty(),
        }
    }
}

/// The bindings of the top-level groups of `entries` for `mode`, in order.
pub open spec fn mode_vars(entries: Seq<EntryView>, mode: Option<Seq<char>>) -> Seq<(Seq<char>, Seq<char>)>
    decreases entries.len(),
{
    if entries.len() == 0 {
        Seq::empty()
    } else {
        mode_vars(entries.drop_last(), mode) + if entries.last().subdir is None && entries.last().mode
            == mode {
            entries.last().vars
        } else {
            Seq::empty()
        }
    }
}


// ---------------------------------------------------------------------------
// Reading.
// ---------------------------------------------------------------------------

/// The trimmed source text of a datum.
fn datum_text_of(d: &Datum, src: &str) -> (t: String)
    requires
        d.wf(src.spec_bytes()),
    ensures
        t@ == datum_text(*d, src.spec_bytes()),
{
    let s = d.span.text(src);
    proof {
        vstd::utf8::encode_utf8_decode_utf8(s@);
    }
    let c = chars_of(s);
    let (a, z) = trim_at(&c, 0, c.len());
    assert(c@.subrange(0, c.len() as int) =~= c@);
    text(s, a, z)
}

/// A string literal's text without its surrounding quote characters.
fn unquoted_text(s: &str) -> (t: String)
    ensures
        t@ == unquoted(s@),
{
    let c = chars_of(s);
    let n = c.len();
    let mut a: usize = 0;
    assert(c@.subrange(0, n as int) =~= c@);
    while a < n && c[a] == '"'
        invariant
            a <= n == c.len(),
            strip_lead_quotes(c@) == strip_lead_quotes(c@.subrange(a as int, n as int)),
        decreases n - a,
    {
        assert(c@.subrange(a as int, n as int).drop_first() =~= c@.subrange(a + 1, n as int));
        a = a + 1;
    }
    let mut z = n;
    while z > a && c[z - 1] == '"'
        invariant
            a <= z <= n == c.len(),
            strip_trail_quotes(c@.subrange(a as int, n as int)) == strip_trail_quotes(
                c@.subrange(a as int, z as int),
            ),
        decreases z - a,
    {
        assert(c@.subrange(a as int, z as int).drop_last() =~= c@.subrange(a as int, z - 1));
        z = z - 1;
    }
    text(s, a, z)
}

/// The elements after the car of a list with items `items` and dotted tail
/// `tail`, as the part of a slice from an index on.
fn rest_slice<'a, 't>(items: &'a Vec<Datum<'t>>, tail: &'a Option<Box<Datum<'t>>>, Ghost(b): Ghost<Seq<u8>>) -> (r: (
    &'a [Datum<'t>],
    usize,
))
    requires
        items.len() > 0,
        forall|i: int| 0 <= i < items.len() ==> (#[trigger] items@[i]).wf(b),
        match tail {
            Some(t) => t.wf(b),
            None => true,
        },
    ensures
        r.1 <= r.0.len(),
        r.0@.skip(r.1 as int) == rest_of(items@, *tail),
        forall|i: int| 0 <= i < r.0.len() ==> (#[trigger] r.0@[i]).wf(b),
{
    match tail {
        Some(t) => match &t.kind {
            DatumKind::List { items: inner, .. } => {
                assert(inner@.skip(0) =~= inner@);
                (inner.as_slice(), 0)
            },
            _ => {
                assert(items@.skip(items.len() as int) =~= Seq::<Datum>::empty());
                (items.as_slice(), items.len())
            },
        },
        None => (items.as_slice(), 1),
    }
}

/// A `(KEY . VALUE)` / `(KEY VALUE)` pair as verbatim `(name, value-text)`.
fn pair(d: &Datum, src: &str) -> (r: Option<(String, String)>)
    requires
        d.wf(src.spec_bytes()),
    ensures
        match r {
            Some(p) => pair_of(*d, src.spec_bytes()) == seq![(p.0@, p.1@)],
            None => pair_of(*d, src.spec_bytes()) == Seq::<(Seq<char>, Seq<char>)>::empty(),
        },
{
    match &d.kind {
        DatumKind::List { items, tail, .. } => {
            if items.len() == 0 {
                return None;
            }
            let key = datum_text_of(&items[0], src);
            match tail {
                Some(t) => Some((key, datum_text_of(&**t, src))),
                None => {
                    if items.len() == 2 {
                        Some((key, datum_text_of(&items[1], src)))
                    } else {
                        None
                    }
                },
            }
        },
        _ => None,
    }
}

/// The pairs among `rest[from..]`, in order.
fn collect_pairs(rest: &[Datum], from: usize, src: &str) -> (v: Vec<(String, String)>)
    requires
        from <= rest.len(),
        forall|i: int| 0 <= i < rest.len() ==> (#[trigger] rest@[i]).wf(src.spec_bytes()),
    ensures
        pairs_view(v@) == pairs_of(rest@.skip(from as int), src.spec_bytes()),
{
    let ghost b = src.spec_bytes();
    let mut v: Vec<(String, String)> = Vec::new();
    let mut i = from;
    assert(pairs_view(v@) =~= pairs_of(rest@.subrange(from as int, from as int), b));
    while i < rest.len()
        invariant
            from <= i <= rest.len(),
            pairs_view(v@) == pairs_of(rest@.subrange(from as int, i as int), b),
        decreases rest.len() - i,
    {
        assert(rest@.subrange(from as int, i + 1).drop_last() =~= rest@.subrange(from as int, i as int));
        let ghost before = v@;
        match pair(&rest[i], src) {
            Some(p) => {
                v.push(p);
                assert(pairs_view(v@) =~= pairs_view(before) + pair_of(rest@[i as int], b));
            },
            None => {
                assert(pairs_view(v@) =~= pairs_view(before) + pair_of(rest@[i as int], b));
            },
        }
        i = i + 1;
    }
    assert(rest@.subrange(from as int, rest.len() as int) =~= rest@.skip(from as int));
    v
}

/// The mode a symbol names: `nil` is every mode.
fn mode_named(name: &str) -> (m: Option<String>)
    ensures
        opt_view(m) == mode_of(name),
{
    let nil: [u8; 3] = [110, 105, 108];
    assert(nil@ =~= seq![110u8, 105, 108]);
    if bytes_equal(name.as_bytes(), nil.as_slice()) {
        None
    } else {
        Some(name.to_owned())
    }
}

/// The mode group `d` in `subdir`, if it is one.
fn group(d: &Datum, subdir: Option<String>, src: &str) -> (r: Option<DirLocalEntry>)
    requires
        d.wf(src.spec_bytes()),
    ensures
        match r {
            Some(e) => group_of(*d, opt_view(subdir), src.spec_bytes()) == seq![e@],
            None => group_of(*d, opt_view(subdir), src.spec_bytes()) == Seq::<EntryView>::empty(),
        },
{
    let ghost b = src.spec_bytes();
    match &d.kind {
        DatumKind::List { items, tail, .. } => {
            if items.len() == 0 {
                return None;
            }
            match items[0].kind {
                DatumKind::Symbol(name) => {
                    let mode = mode_named(name);
                    let (rest, from) = rest_slice(items, tail, Ghost(b));
                    let vars = collect_pairs(rest, from, src);
                    let e = DirLocalEntry { subdir, mode, vars };
                    Some(e)
                },
                _ => None,
            }
        },
        _ => None,
    }
}

/// The views of a list of entries.
pub open spec fn entries_view(v: Seq<DirLocalEntry>) -> Seq<EntryView> {
    v.map_values(|e: DirLocalEntry| e@)
}

/// Push the mode groups among `rest[from..]`, all in subdirectory `dir`.
fn push_groups(rest: &[Datum], from: usize, dir: &String, src: &str, out: &mut Vec<DirLocalEntry>)
    requires
        from <= rest.len(),
        forall|i: int| 0 <= i < rest.len() ==> (#[trigger] rest@[i]).wf(src.spec_bytes()),
    ensures
        entries_view(final(out)@) == entries_view(old(out)@) + groups_in(
            rest@.skip(from as int),
            dir@,
            src.spec_bytes(),
        ),
{
    let ghost b = src.spec_bytes();
    let ghost base = entries_view(out@);
    let mut i = from;
    assert(entries_view(out@) =~= base + groups_in(rest@.subrange(from as int, from as int), dir@, b));
    while i < rest.len()
        invariant
            from <= i <= rest.len(),
            entries_view(out@) == base + groups_in(rest@.subrange(from as int, i as int), dir@, b),
        decreases rest.len() - i,
    {
        assert(rest@.subrange(from as int, i + 1).drop_last() =~= rest@.subrange(from as int, i as int));
        let ghost before = entries_view(out@);
        match group(&rest[i], Some(dir.clone()), src) {
            Some(e) => {
                out.push(e);
                assert(entries_view(out@) =~= before + group_of(rest@[i as int], Some(dir@), b));
            },
            None => {
                assert(entries_view(out@) =~= before + group_of(rest@[i as int], Some(dir@), b));
            },
        }
        i = i + 1;
    }
    assert(rest@.subrange(from as int, rest.len() as int) =~= rest@.skip(from as int));
}

/// Push the groups of one top-level element.
fn push_top(d: &Datum, src: &str, out: &mut Vec<DirLocalEntry>)
    requires
        d.wf(src.spec_bytes()),
    ensures
        entries_view(final(out)@) == entries_view(old(out)@) + top_groups(*d, src.spec_bytes()),
{
    let ghost b = src.spec_bytes();
    if let DatumKind::List { items, tail, .. } = &d.kind {
        if items.len() == 0 {
            assert(entries_view(out@) =~= entries_view(old(out)@) + top_groups(*d, b));
            return;
        }
        if let DatumKind::Str(s) = items[0].kind {
            let dir = unquoted_text(s);
            let (rest, from) = rest_slice(items, tail, Ghost(b));
            push_groups(rest, from, &dir, src, out);
            return;
        }
    }
    let ghost before = entries_view(out@);
    match group(d, None, src) {
        Some(e) => {
            out.push(e);
            assert(entries_view(out@) =~= before + top_groups(*d, b));
        },
        None => {
            assert(entries_view(out@) =~= before + top_groups(*d, b));
        },
    }
}

/// A parsed `.dir-locals.el`.
#[derive(Debug, Clone, Default, PartialEq, Eq)]
pub struct DirLocals {
    entries: Vec<DirLocalEntry>,
}

impl View for DirLocals {
    type V = Seq<EntryView>;

    closed spec fn view(&self) -> Seq<EntryView> {
        entries_view(self.entries@)
    }
}

/// The text pairs held by a list of borrowed `(name, value)` pairs.
pub open spec fn strs_view(v: Seq<(&str, &str)>) -> Seq<(Seq<char>, Seq<char>)> {
    v.map_values(|p: (&str, &str)| (p.0@, p.1@))
}

/// Append the bindings `vars`, borrowed.
fn extend_vars<'a>(out: &mut Vec<(&'a str, &'a str)>, vars: &'a Vec<(String, String)>)
    ensures
        strs_view(final(out)@) == strs_view(old(out)@) + pairs_view(vars@),
{
    let ghost base = strs_view(out@);
    let mut i: usize = 0;
    assert(pairs_view(vars@.take(0)) =~= Seq::empty());
    while i < vars.len()
        invariant
            i <= vars.len(),
            strs_view(out@) == base + pairs_view(vars@.take(i as int)),
        decreases vars.len() - i,
    {
        let ghost before = out@;
        let k = vars[i].0.as_str();
        let v = vars[i].1.as_str();
        out.push((k, v));
        assert(strs_view(out@) =~= strs_view(before).push((k@, v@)));
        assert(pairs_view(vars@.take(i + 1)) =~= pairs_view(vars@.take(i as int)).push(
            (vars@[i as int].0@, vars@[i as int].1@),
        ));
        assert(strs_view(out@) =~= base + pairs_view(vars@.take(i + 1)));
        i = i + 1;
    }
    assert(vars@.take(vars.len() as int) =~= vars@);
}

impl DirLocals {
    /// The groups of a `.dir-locals.el` whose forms, as the Emacs Lisp
    /// reader read them from `content`, are `data`. Malformed or non-alist
    /// input yields no groups.
    pub fn from_forms(data: &[Datum], content: &str) -> (dl: DirLocals)
        requires
            data_wf(data@, content.spec_bytes()),
        ensures
            dl@ == spec_dir_locals(data@, content.spec_bytes()),
    {
        let ghost b = content.spec_bytes();
        proof {
            reveal_data_wf(data@, b);
        }
        let mut entries: Vec<DirLocalEntry> = Vec::new();
        assert(entries_view(entries@) =~= Seq::empty());
        if data.len() > 0 {
            if let DatumKind::List { items, .. } = &data[0].kind {
                let mut i: usize = 0;
                assert(items@.take(0) =~= Seq::<Datum>::empty());
                while i < items.len()
                    invariant
                        i <= items.len(),
                        forall|k: int| 0 <= k < items.len() ==> (#[trigger] items@[k]).wf(b),
                        entries_view(entries@) == all_groups(items@.take(i as int), b),
                    decreases items.len() - i,
                {
                    assert(items@.take(i + 1).drop_last() =~= items@.take(i as int));
                    push_top(&items[i], content, &mut entries);
                    i = i + 1;
                }
                assert(items@.take(items.len() as int) =~= items@);
            }
        }
        DirLocals { entries }
    }

    /// Parse `.dir-locals.el` content with the Emacs Lisp reader. Malformed
    /// or non-alist input yields an empty result rather than an error.
    pub fn parse(content: &str) -> (dl: DirLocals)
        requires
            content.spec_bytes().len() < u32::MAX,
        ensures
            exists|data: Seq<Datum>|
                {
                    &&& data_wf(data, content.spec_bytes())
                    &&& shapes_of(data) == read_top(
                        stream_of(content.spec_bytes(), Options::spec_emacs_lisp()),
                        0,
                    ).data
                    &&& dl@ == spec_dir_locals(data, content.spec_bytes())
                },
    {
        let parsed = parse(content, &Options::emacs_lisp());
        DirLocals::from_forms(parsed.data.as_slice(), content)
    }

    /// Every resolved group, including subdirectory-scoped ones, in source
    /// order.
    pub fn entries(&self) -> (r: &[DirLocalEntry])
        ensures
            entries_view(r@) == self@,
    {
        self.entries.as_slice()
    }

    /// The top-level (non-subdirectory) variables that apply to `mode`, in
    /// application order: the `nil` = all-modes bindings first, then
    /// `mode`'s own (so a mode-specific binding overrides an all-modes one
    /// when applied last-wins).
    pub fn for_mode(&self, mode: &str) -> (v: Vec<(&str, &str)>)
        ensures
            strs_view(v@) == mode_vars(self@, None) + mode_vars(self@, Some(mode@)),
    {
        let key = mode.to_owned();
        let mut out: Vec<(&str, &str)> = Vec::new();
        let mut i: usize = 0;
        assert(self@.take(0) =~= Seq::<EntryView>::empty());
        assert(strs_view(out@) =~= Seq::empty());
        while i < self.entries.len()
            invariant
                i <= self.entries.len(),
                strs_view(out@) == mode_vars(self@.take(i as int), None),
            decreases self.entries.len() - i,
        {
            assert(self@.take(i + 1).drop_last() =~= self@.take(i as int));
            let e = &self.entries[i];
            if e.subdir.is_none() && e.mode.is_none() {
                extend_vars(&mut out, &e.vars);
            }
            i = i + 1;
        }
        assert(self@.take(self.entries.len() as int) =~= self@);
        let ghost first = strs_view(out@);
        let mut i: usize = 0;
        while i < self.entries.len()
            invariant
                i <= self.entries.len(),
                key@ == mode@,
                strs_view(out@) == first + mode_vars(self@.take(i as int), Some(mode@)),
            decreases self.entries.len() - i,
        {
            assert(self@.take(i + 1).drop_last() =~= self@.take(i as int));
            let e = &self.entries[i];
            let wanted = match &e.mode {
                Some(m) => e.subdir.is_none() && *m == key,
                None => false,
            };
            if wanted {
                extend_vars(&mut out, &e.vars);
            }
            assert(strs_view(out@) =~= first + mode_vars(self@.take(i + 1), Some(mode@)));
            i = i + 1;
        }
        assert(self@.take(self.entries.len() as int) =~= self@);
        out
    }
}

} // verus!
