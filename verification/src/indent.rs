//! Indent specs: a first-class `symbol → IndentSpec` table.
//!
//! Per-symbol indentation metadata — Emacs's `(declare (indent …))` and
//! `lisp-indent-function` — held independently of the definition-form
//! registry. Control and binding macros like `when`, `dolist` and
//! `with-slots` carry indent specs too, and none of them is a definition.
//!
//! The table is owned (no borrow of the harvested source): its purpose is
//! to be merged across many files and outlive them all. Harvesting is Emacs
//! Lisp specific; the library reads declared metadata and never runs an
//! indent function.

#![verifier::loop_isolation(false)]

use vstd::prelude::*;
use vstd::string::*;

use crate::datum::{Datum, DatumKind, Delim, Prefix};
use crate::options::Options;
use crate::reader::{data_wf, parse};
use crate::reading::{read_top, stream_of};
use crate::shape::shapes_of;
use crate::options::bytes_equal;
use crate::source::{at_boundary, bytes_start_with, starts_with_at};

verus! {

/// A per-symbol indentation spec.
///
/// The known elisp grammar is captured by type; anything unexpected falls
/// back to [`IndentSpec::Raw`]. `Function` holds a function name only — it
/// is neither resolved nor run.
#[derive(Debug, Clone, PartialEq, Eq, Hash)]
#[non_exhaustive]
pub enum IndentSpec {
    /// An integer indent (`(declare (indent 2))`).
    Number(u32),
    /// The special `defun` indentation (`(declare (indent defun))`).
    Defun,
    /// A custom indent-function name — not resolved or run.
    Function(String),
    /// Any other spec, kept as its verbatim source text.
    Raw(String),
}

/// A first-class `symbol → IndentSpec` table, independent of the definition
/// registry. Owned: merge tables from many files and keep one.
#[derive(Debug, Clone)]
pub struct IndentTable {
    entries: Vec<(String, IndentSpec)>,
}

/// The spec of key `k` among `entries` (the last entry with that key).
pub open spec fn lookup(entries: Seq<(String, IndentSpec)>, k: Seq<char>) -> Option<IndentSpec>
    decreases entries.len(),
{
    if entries.len() == 0 {
        None
    } else if entries.last().0@ == k {
        Some(entries.last().1)
    } else {
        lookup(entries.drop_last(), k)
    }
}

/// No key occurs twice.
pub open spec fn keys_unique(entries: Seq<(String, IndentSpec)>) -> bool {
    forall|i: int, j: int|
        0 <= i < j < entries.len() ==> (#[trigger] entries[i]).0@ != (#[trigger] entries[j]).0@
}

/// With unique keys, the spec of an entry's key is that entry's spec.
proof fn lemma_lookup_at(entries: Seq<(String, IndentSpec)>, i: int)
    requires
        keys_unique(entries),
        0 <= i < entries.len(),
    ensures
        lookup(entries, entries[i].0@) == Some(entries[i].1),
    decreases entries.len(),
{
    if i < entries.len() - 1 {
        assert(entries[i].0@ != entries[entries.len() - 1].0@);
        let s = entries.drop_last();
        assert(s[i] == entries[i]);
        assert forall|a: int, b: int| 0 <= a < b < s.len() implies (#[trigger] s[a]).0@ != (
        #[trigger] s[b]).0@ by {
            assert(s[a] == entries[a] && s[b] == entries[b]);
        }
        lemma_lookup_at(s, i);
    }
}

/// A key no entry has is absent.
proof fn lemma_lookup_none(entries: Seq<(String, IndentSpec)>, k: Seq<char>)
    requires
        forall|i: int| 0 <= i < entries.len() ==> (#[trigger] entries[i]).0@ != k,
    ensures
        lookup(entries, k) is None,
    decreases entries.len(),
{
    if entries.len() > 0 {
        let s = entries.drop_last();
        assert forall|i: int| 0 <= i < s.len() implies (#[trigger] s[i]).0@ != k by {
            assert(s[i] == entries[i]);
        }
        lemma_lookup_none(s, k);
    }
}

/// A present key belongs to some entry.
proof fn lemma_lookup_some(entries: Seq<(String, IndentSpec)>, k: Seq<char>)
    requires
        lookup(entries, k) is Some,
    ensures
        exists|i: int| 0 <= i < entries.len() && (#[trigger] entries[i]).0@ == k,
    decreases entries.len(),
{
    if entries.last().0@ != k {
        let s = entries.drop_last();
        lemma_lookup_some(s, k);
        let i = choose|i: int| 0 <= i < s.len() && (#[trigger] s[i]).0@ == k;
        assert(entries[i] == s[i]);
    } else {
        assert(entries[entries.len() - 1].0@ == k);
    }
}

/// With unique keys, the map has one key per entry.
proof fn lemma_entries_dom(entries: Seq<(String, IndentSpec)>)
    requires
        keys_unique(entries),
    ensures
        entries_map(entries).dom().finite(),
        entries_map(entries).dom().len() == entries.len(),
    decreases entries.len(),
{
    if entries.len() == 0 {
        assert(entries_map(entries).dom() =~= Set::<Seq<char>>::empty());
    } else {
        let s = entries.drop_last();
        let h = entries.last().0@;
        assert forall|a: int, b: int| 0 <= a < b < s.len() implies (#[trigger] s[a]).0@ != (
        #[trigger] s[b]).0@ by {
            assert(s[a] == entries[a] && s[b] == entries[b]);
        }
        lemma_entries_dom(s);
        assert forall|i: int| 0 <= i < s.len() implies (#[trigger] s[i]).0@ != h by {
            assert(s[i] == entries[i]);
            assert(entries[i].0@ != entries[entries.len() - 1].0@);
        }
        lemma_lookup_none(s, h);
        assert(entries_map(entries).dom() =~= entries_map(s).dom().insert(h));
    }
}

/// Entries as a map from symbol names to specs.
pub open spec fn entries_map(entries: Seq<(String, IndentSpec)>) -> Map<Seq<char>, IndentSpec> {
    Map::new(|k: Seq<char>| lookup(entries, k) is Some, |k: Seq<char>| lookup(entries, k).unwrap())
}

impl View for IndentTable {
    type V = Map<Seq<char>, IndentSpec>;

    /// The table as a map from symbol names to specs.
    closed spec fn view(&self) -> Map<Seq<char>, IndentSpec> {
        entries_map(self.entries@)
    }
}

impl IndentTable {
    /// The table's invariant: no symbol has two entries.
    pub closed spec fn wf(&self) -> bool {
        keys_unique(self.entries@)
    }

    /// The number of entries.
    pub closed spec fn size(&self) -> nat {
        self.entries@.len()
    }

    /// The view, key by key.
    proof fn lemma_view(&self, k: Seq<char>)
        ensures
            self@.contains_key(k) == (lookup(self.entries@, k) is Some),
            self@.contains_key(k) ==> self@[k] == lookup(self.entries@, k).unwrap(),
    {
    }

    /// A table's size is its number of symbols.
    pub proof fn lemma_size(&self)
        requires
            self.wf(),
        ensures
            self@.dom().finite(),
            self.size() == self@.dom().len(),
    {
        lemma_entries_dom(self.entries@);
    }

    /// The index of `symbol`'s entry, if any.
    fn find(&self, symbol: &String) -> (r: Option<usize>)
        requires
            self.wf(),
        ensures
            match r {
                Some(i) => i < self.entries.len() && self.entries@[i as int].0@ == symbol@,
                None => forall|i: int|
                    0 <= i < self.entries.len() ==> (#[trigger] self.entries@[i]).0@ != symbol@,
            },
    {
        let mut i: usize = 0;
        while i < self.entries.len()
            invariant
                i <= self.entries.len(),
                forall|k: int| 0 <= k < i ==> (#[trigger] self.entries@[k]).0@ != symbol@,
            decreases self.entries.len() - i,
        {
            if self.entries[i].0 == *symbol {
                return Some(i);
            }
            i = i + 1;
        }
        None
    }

    /// An empty table.
    pub fn new() -> (t: Self)
        ensures
            t.wf(),
            t@ == Map::<Seq<char>, IndentSpec>::empty(),
            t.size() == 0,
    {
        let t = IndentTable { entries: Vec::new() };
        assert(t@ =~= Map::<Seq<char>, IndentSpec>::empty());
        t
    }

    /// Insert a spec, overwriting any existing entry for `symbol`.
    pub fn insert(&mut self, symbol: &str, spec: IndentSpec)
        requires
            old(self).wf(),
        ensures
            final(self).wf(),
            final(self)@ == old(self)@.insert(symbol@, spec),
            final(self).size() == old(self).size() + if old(self)@.contains_key(symbol@) {
                0int
            } else {
                1int
            },
    {
        let key = symbol.to_owned();
        self.insert_owned(key, spec);
    }

    fn insert_owned(&mut self, key: String, spec: IndentSpec)
        requires
            old(self).wf(),
        ensures
            final(self).wf(),
            final(self)@ == old(self)@.insert(key@, spec),
            final(self).size() == old(self).size() + if old(self)@.contains_key(key@) {
                0int
            } else {
                1int
            },
    {
        let ghost old_entries = self.entries@;
        proof {
            self.lemma_view(key@);
        }
        match self.find(&key) {
            Some(i) => {
                proof {
                    lemma_lookup_at(old_entries, i as int);
                }
                self.entries.set(i, (key, spec));
                proof {
                    let e = self.entries@;
                    assert forall|a: int, b: int| 0 <= a < b < e.len() implies (#[trigger] e[a]).0@
                        != (#[trigger] e[b]).0@ by {
                        assert(old_entries[a].0@ != old_entries[b].0@);
                    }
                    assert forall|k: Seq<char>| #[trigger] lookup(e, k) == if k == key@ {
                        Some(spec)
                    } else {
                        lookup(old_entries, k)
                    } by {
                        if k == key@ {
                            lemma_lookup_at(e, i as int);
                        } else if lookup(old_entries, k) is Some {
                            lemma_lookup_some(old_entries, k);
                            let j = choose|j: int|
                                0 <= j < old_entries.len() && (#[trigger] old_entries[j]).0@ == k;
                            lemma_lookup_at(old_entries, j);
                            lemma_lookup_at(e, j);
                        } else {
                            assert forall|j: int| 0 <= j < e.len() implies (#[trigger] e[j]).0@ != k by {
                                if j != i && e[j].0@ == k {
                                    lemma_lookup_at(old_entries, j);
                                }
                            }
                            lemma_lookup_none(e, k);
                        }
                    }
                    assert(self@ =~= old(self)@.insert(key@, spec));
                }
            },
            None => {
                proof {
                    lemma_lookup_none(old_entries, key@);
                }
                self.entries.push((key, spec));
                proof {
                    let e = self.entries@;
                    assert(e.drop_last() =~= old_entries);
                    assert forall|a: int, b: int| 0 <= a < b < e.len() implies (#[trigger] e[a]).0@
                        != (#[trigger] e[b]).0@ by {
                        assert(e[a] == old_entries[a]);
                        if b < old_entries.len() {
                            assert(e[b] == old_entries[b]);
                        }
                    }
                    assert(self@ =~= old(self)@.insert(key@, spec));
                }
            },
        }
    }

    /// The indent spec for `symbol`, if any.
    pub fn get(&self, symbol: &str) -> (r: Option<&IndentSpec>)
        requires
            self.wf(),
        ensures
            match r {
                Some(s) => self@.contains_key(symbol@) && *s == self@[symbol@],
                None => !self@.contains_key(symbol@),
            },
    {
        let key = symbol.to_owned();
        proof {
            self.lemma_view(symbol@);
        }
        match self.find(&key) {
            Some(i) => {
                proof {
                    lemma_lookup_at(self.entries@, i as int);
                }
                Some(&self.entries[i].1)
            },
            None => {
                proof {
                    lemma_lookup_none(self.entries@, symbol@);
                }
                None
            },
        }
    }

    /// Remove and return the spec for `symbol`, if any.
    pub fn remove(&mut self, symbol: &str) -> (r: Option<IndentSpec>)
        requires
            old(self).wf(),
        ensures
            final(self).wf(),
            final(self)@ == old(self)@.remove(symbol@),
            match r {
                Some(s) => old(self)@.contains_key(symbol@) && s == old(self)@[symbol@]
                    && final(self).size() == old(self).size() - 1,
                None => !old(self)@.contains_key(symbol@) && final(self).size() == old(self).size(),
            },
    {
        let key = symbol.to_owned();
        let ghost old_entries = self.entries@;
        proof {
            self.lemma_view(symbol@);
        }
        match self.find(&key) {
            Some(i) => {
                proof {
                    lemma_lookup_at(old_entries, i as int);
                }
                let (_k, spec) = self.entries.remove(i);
                proof {
                    let e = self.entries@;
                    assert(e =~= old_entries.remove(i as int));
                    assert forall|a: int, b: int| 0 <= a < b < e.len() implies (#[trigger] e[a]).0@
                        != (#[trigger] e[b]).0@ by {
                        let oa = if a < i { a } else { a + 1 };
                        let ob = if b < i { b } else { b + 1 };
                        assert(e[a] == old_entries[oa] && e[b] == old_entries[ob]);
                    }
                    assert forall|k: Seq<char>| #[trigger] lookup(e, k) == if k == symbol@ {
                        None
                    } else {
                        lookup(old_entries, k)
                    } by {
                        if k == symbol@ {
                            assert forall|j: int| 0 <= j < e.len() implies (#[trigger] e[j]).0@ != k by {
                                let oj = if j < i { j } else { j + 1 };
                                assert(e[j] == old_entries[oj]);
                            }
                            lemma_lookup_none(e, k);
                        } else if lookup(old_entries, k) is Some {
                            lemma_lookup_some(old_entries, k);
                            let j = choose|j: int|
                                0 <= j < old_entries.len() && (#[trigger] old_entries[j]).0@ == k;
                            lemma_lookup_at(old_entries, j);
                            let nj = if j < i { j } else { j - 1 };
                            assert(e[nj] == old_entries[j]);
                            lemma_lookup_at(e, nj);
                        } else {
                            assert forall|j: int| 0 <= j < e.len() implies (#[trigger] e[j]).0@ != k by {
                                let oj = if j < i { j } else { j + 1 };
                                assert(e[j] == old_entries[oj]);
                                if e[j].0@ == k {
                                    lemma_lookup_at(old_entries, oj);
                                }
                            }
                            lemma_lookup_none(e, k);
                        }
                    }
                    assert(self@ =~= old(self)@.remove(symbol@));
                }
                Some(spec)
            },
            None => {
                proof {
                    lemma_lookup_none(old_entries, symbol@);
                    assert(self@ =~= old(self)@.remove(symbol@));
                }
                None
            },
        }
    }

    /// Merge `other` into `self`; on a symbol collision, `other`'s spec wins.
    pub fn merge(&mut self, other: IndentTable)
        requires
            old(self).wf(),
            other.wf(),
        ensures
            final(self).wf(),
            final(self)@ == old(self)@.union_prefer_right(other@),
            final(self).size() == old(self)@.dom().union(other@.dom()).len(),
    {
        let rest = other.entries;
        let ghost all = rest@;
        let mut i: usize = 0;
        while i < rest.len()
            invariant
                self.wf(),
                i <= rest.len(),
                rest@ == all,
                self@ == old(self)@.union_prefer_right(entries_map(all.take(i as int))),
            decreases rest.len() - i,
        {
            let k = rest[i].0.clone();
            let v = rest[i].1.clone_spec();
            proof {
                let t = all.take(i + 1);
                assert(t.drop_last() =~= all.take(i as int));
                assert(t.last() == all[i as int]);
                assert(entries_map(t) =~= entries_map(all.take(i as int)).insert(k@, v));
            }
            self.insert_owned(k, v);
            proof {
                assert(self@ =~= old(self)@.union_prefer_right(entries_map(all.take(i + 1))));
            }
            i = i + 1;
        }
        proof {
            assert(all.take(rest.len() as int) =~= all);
            self.lemma_size();
            assert(self@.dom() =~= old(self)@.dom().union(other@.dom()));
        }
    }

    /// Insert each of `entries` in order; a later spec for a symbol replaces
    /// an earlier one.
    pub fn extend(&mut self, entries: Vec<(String, IndentSpec)>)
        requires
            old(self).wf(),
        ensures
            final(self).wf(),
            final(self)@ == old(self)@.union_prefer_right(entries_map(entries@)),
    {
        let rest = entries;
        let ghost all = rest@;
        let mut i: usize = 0;
        while i < rest.len()
            invariant
                self.wf(),
                i <= rest.len(),
                rest@ == all,
                self@ == old(self)@.union_prefer_right(entries_map(all.take(i as int))),
            decreases rest.len() - i,
        {
            let k = rest[i].0.clone();
            let v = rest[i].1.clone_spec();
            proof {
                let t = all.take(i + 1);
                assert(t.drop_last() =~= all.take(i as int));
                assert(t.last() == all[i as int]);
                assert(entries_map(t) =~= entries_map(all.take(i as int)).insert(k@, v));
            }
            self.insert_owned(k, v);
            proof {
                assert(self@ =~= old(self)@.union_prefer_right(entries_map(all.take(i + 1))));
            }
            i = i + 1;
        }
        proof {
            assert(all.take(rest.len() as int) =~= all);
        }
    }

    /// The number of entries.
    pub fn len(&self) -> (n: usize)
        ensures
            n == self.size(),
            self.wf() ==> n == self@.dom().len(),
    {
        proof {
            if self.wf() {
                self.lemma_size();
            }
        }
        self.entries.len()
    }

    /// Whether the table is empty.
    pub fn is_empty(&self) -> (b: bool)
        requires
            self.wf(),
        ensures
            b == (self@ == Map::<Seq<char>, IndentSpec>::empty()),
            b == (self.size() == 0),
    {
        proof {
            if self.entries.len() > 0 {
                lemma_lookup_at(self.entries@, 0);
                self.lemma_view(self.entries@[0].0@);
                assert(self@.contains_key(self.entries@[0].0@));
            } else {
                assert(self@ =~= Map::<Seq<char>, IndentSpec>::empty());
            }
        }
        self.entries.len() == 0
    }

    /// Every `(symbol, spec)` entry, each symbol once.
    pub fn iter(&self) -> (v: Vec<(&str, &IndentSpec)>)
        requires
            self.wf(),
        ensures
            v.len() == self.size(),
            forall|i: int|
                0 <= i < v.len() ==> self@.contains_key((#[trigger] v@[i]).0@) && *v@[i].1
                    == self@[v@[i].0@],
            forall|i: int, j: int|
                0 <= i < j < v.len() ==> (#[trigger] v@[i]).0@ != (#[trigger] v@[j]).0@,
            forall|k: Seq<char>|
                #[trigger] self@.contains_key(k) ==> exists|i: int| 0 <= i < v.len() && (#[trigger] v@[i]).0@ == k,
    {
        let mut v: Vec<(&str, &IndentSpec)> = Vec::new();
        let mut i: usize = 0;
        while i < self.entries.len()
            invariant
                i <= self.entries.len(),
                v.len() == i,
                forall|k: int|
                    0 <= k < i ==> (#[trigger] v@[k]).0@ == self.entries@[k].0@ && *v@[k].1
                        == self.entries@[k].1,
            decreases self.entries.len() - i,
        {
            let e = &self.entries[i];
            v.push((e.0.as_str(), &e.1));
            i = i + 1;
        }
        proof {
            assert forall|i: int| 0 <= i < v.len() implies self@.contains_key((#[trigger] v@[i]).0@)
                && *v@[i].1 == self@[v@[i].0@] by {
                lemma_lookup_at(self.entries@, i);
                self.lemma_view(v@[i].0@);
            }
            assert forall|i: int, j: int| 0 <= i < j < v.len() implies (#[trigger] v@[i]).0@ != (
            #[trigger] v@[j]).0@ by {
                assert(self.entries@[i].0@ != self.entries@[j].0@);
            }
            assert forall|k: Seq<char>| #[trigger] self@.contains_key(k) implies exists|i: int|
                0 <= i < v.len() && (#[trigger] v@[i]).0@ == k by {
                self.lemma_view(k);
                lemma_lookup_some(self.entries@, k);
                let i = choose|i: int| 0 <= i < self.entries@.len() && (#[trigger] self.entries@[i]).0@ == k;
                assert(v@[i].0@ == k);
            }
        }
        v
    }
}

impl IndentSpec {
    fn clone_spec(&self) -> (r: IndentSpec)
        ensures
            r == *self,
    {
        match self {
            IndentSpec::Number(n) => IndentSpec::Number(*n),
            IndentSpec::Defun => IndentSpec::Defun,
            IndentSpec::Function(s) => IndentSpec::Function(s.clone()),
            IndentSpec::Raw(s) => IndentSpec::Raw(s.clone()),
        }
    }
}


/// The value of a run of decimal digits.
pub open spec fn digits_value(s: Seq<u8>) -> nat
    decreases s.len(),
{
    if s.len() == 0 {
        0
    } else {
        digits_value(s.drop_last()) * 10 + (s.last() - 48) as nat
    }
}

/// A run of one or more ASCII digits whose value fits in a `u32`, read.
pub open spec fn parse_digits(d: Seq<u8>) -> Option<u32> {
    if d.len() > 0 && (forall|i: int| 0 <= i < d.len() ==> 48 <= #[trigger] d[i] <= 57)
        && digits_value(d) <= u32::MAX {
        Some(digits_value(d) as u32)
    } else {
        None
    }
}

/// How `u32`'s `FromStr` reads a string: an optional `+`, then one or more
/// ASCII digits whose value fits in a `u32`.
pub open spec fn spec_parse_u32(s: Seq<u8>) -> Option<u32> {
    if s.len() > 0 && s[0] == 43u8 {
        parse_digits(s.skip(1))
    } else {
        parse_digits(s)
    }
}

/// A prefix of a digit run is worth no more than the whole run.
pub proof fn lemma_digits_value_mono(s: Seq<u8>, i: int)
    requires
        0 <= i <= s.len(),
        forall|k: int| 0 <= k < s.len() ==> 48 <= #[trigger] s[k] <= 57,
    ensures
        digits_value(s.take(i)) <= digits_value(s),
    decreases s.len() - i,
{
    if i < s.len() {
        lemma_digits_value_mono(s, i + 1);
        assert(s.take(i + 1).drop_last() =~= s.take(i));
    } else {
        assert(s.take(i) =~= s);
    }
}

/// Read a `u32` the way its `FromStr` does.
fn parse_u32(s: &str) -> (r: Option<u32>)
    ensures
        r == spec_parse_u32(s.spec_bytes()),
{
    let b = s.as_bytes();
    let start: usize = if b.len() > 0 && b[0] == 43 {
        1
    } else {
        0
    };
    let ghost d = b@.skip(start as int);
    assert(b@.skip(0) =~= b@);
    assert(spec_parse_u32(b@) == parse_digits(d));
    if start >= b.len() {
        return None;
    }
    let mut v: u32 = 0;
    let mut i: usize = start;
    while i < b.len()
        invariant
            start <= i <= b.len(),
            d == b@.skip(start as int),
            forall|k: int| 0 <= k < i - start ==> 48 <= #[trigger] d[k] <= 57,
            v == digits_value(d.take(i - start)),
        decreases b.len() - i,
    {
        let c = b[i];
        if c < 48 || c > 57 {
            assert(!(48 <= d[i - start] <= 57));
            return None;
        }
        proof {
            assert(d.take(i - start + 1).drop_last() =~= d.take(i - start));
        }
        let m = v.checked_mul(10);
        let next = match m {
            Some(m) => m.checked_add((c - 48) as u32),
            None => None,
        };
        match next {
            Some(n) => {
                v = n;
            },
            None => {
                // The value only grows: it cannot fit once a prefix does not.
                proof {
                    assert(digits_value(d.take(i - start + 1)) == v * 10 + (c - 48));
                    assert(digits_value(d.take(i - start + 1)) > u32::MAX);
                    let rest_ok = forall|k: int| 0 <= k < d.len() ==> 48 <= #[trigger] d[k] <= 57;
                    if rest_ok {
                        lemma_digits_value_mono(d, i - start + 1);
                    }
                }
                return None;
            },
        }
        i = i + 1;
    }
    assert(d.take(b.len() - start) =~= d);
    Some(v)
}

/// `spec` classifies as `r` over source bytes `b`: a number that `u32`
/// reads is [`IndentSpec::Number`], any other number its raw text; `nil`
/// is no spec; `defun` is [`IndentSpec::Defun`]; another symbol names an
/// indent function; a quote is looked through; anything else is its raw
/// source text.
pub open spec fn indent_spec_of(d: Datum, b: Seq<u8>, r: Option<IndentSpec>) -> bool
    decreases d,
{
    let raw = r matches Some(IndentSpec::Raw(t)) && vstd::utf8::encode_utf8(t@) == b.subrange(
        d.span.start as int,
        d.span.end as int,
    );
    match d.kind {
        DatumKind::Number(n) => match spec_parse_u32(n.spec_bytes()) {
            Some(v) => r == Some(IndentSpec::Number(v)),
            None => raw,
        },
        DatumKind::Symbol(n) => if n.spec_bytes() == seq![110u8, 105, 108] {
            r is None
        } else if n.spec_bytes() == seq![100u8, 101, 102, 117, 110] {
            r == Some(IndentSpec::Defun)
        } else {
            r matches Some(IndentSpec::Function(f)) && f@ == n@
        },
        DatumKind::Prefixed { prefix: Prefix::Quote, inner, .. } => indent_spec_of(*inner, b, r),
        _ => raw,
    }
}

/// What an [`IndentSpec`] says, as plain text.
pub enum IndentView {
    Number(u32),
    Defun,
    Function(Seq<char>),
    Raw(Seq<char>),
}

/// The text view of a spec.
pub open spec fn indent_view(s: IndentSpec) -> IndentView {
    match s {
        IndentSpec::Number(n) => IndentView::Number(n),
        IndentSpec::Defun => IndentView::Defun,
        IndentSpec::Function(f) => IndentView::Function(f@),
        IndentSpec::Raw(t) => IndentView::Raw(t@),
    }
}

/// A table's contents as text.
pub open spec fn table_view(m: Map<Seq<char>, IndentSpec>) -> Map<Seq<char>, IndentView> {
    m.map_values(|s: IndentSpec| indent_view(s))
}

/// The spec a datum reads as over source bytes `b`, as text (see
/// [`indent_spec_of`]); `None` for `nil`.
pub open spec fn spec_indent_view(d: Datum, b: Seq<u8>) -> Option<IndentView>
    decreases d,
{
    let raw = IndentView::Raw(vstd::utf8::decode_utf8(b.subrange(d.span.start as int, d.span.end as int)));
    match d.kind {
        DatumKind::Number(n) => match spec_parse_u32(n.spec_bytes()) {
            Some(v) => Some(IndentView::Number(v)),
            None => Some(raw),
        },
        DatumKind::Symbol(n) => if n.spec_bytes() == seq![110u8, 105, 108] {
            None
        } else if n.spec_bytes() == seq![100u8, 101, 102, 117, 110] {
            Some(IndentView::Defun)
        } else {
            Some(IndentView::Function(n@))
        },
        DatumKind::Prefixed { prefix: Prefix::Quote, inner, .. } => spec_indent_view(*inner, b),
        _ => Some(raw),
    }
}

/// Classify an indent spec datum. A leading quote (as in `put` forms) is
/// looked through; `nil` yields no spec.
fn indent_spec(source: &str, spec: &Datum) -> (r: Option<IndentSpec>)
    requires
        spec.wf(source.spec_bytes()),
    ensures
        indent_spec_of(*spec, source.spec_bytes(), r),
        match r {
            Some(s) => spec_indent_view(*spec, source.spec_bytes()) == Some(indent_view(s)),
            None => spec_indent_view(*spec, source.spec_bytes()) is None,
        },
    decreases spec,
{
    let nil: [u8; 3] = [110, 105, 108];  // `nil`
    let defun: [u8; 5] = [100, 101, 102, 117, 110];  // `defun`
    assert(nil@ =~= seq![110u8, 105, 108]);
    assert(defun@ =~= seq![100u8, 101, 102, 117, 110]);
    match &spec.kind {
        DatumKind::Number(n) => match parse_u32(n) {
            Some(v) => Some(IndentSpec::Number(v)),
            None => {
                let t = spec.text(source).to_owned();
                proof {
                    vstd::utf8::encode_utf8_decode_utf8(t@);
                }
                Some(IndentSpec::Raw(t))
            },
        },
        DatumKind::Symbol(name) => {
            if bytes_equal(name.as_bytes(), nil.as_slice()) {
                None
            } else if bytes_equal(name.as_bytes(), defun.as_slice()) {
                Some(IndentSpec::Defun)
            } else {
                Some(IndentSpec::Function((*name).to_owned()))
            }
        },
        DatumKind::Prefixed { prefix: Prefix::Quote, inner, .. } => indent_spec(source, &**inner),
        _ => {
            let t = spec.text(source).to_owned();
            proof {
                vstd::utf8::encode_utf8_decode_utf8(t@);
            }
            Some(IndentSpec::Raw(t))
        },
    }
}

/// The inner symbol of a `'sym` quoted-symbol datum.
pub open spec fn spec_quoted_symbol<'a>(d: Datum<'a>) -> Option<&'a str> {
    match d.kind {
        DatumKind::Prefixed { prefix: Prefix::Quote, inner, .. } => match inner.kind {
            DatumKind::Symbol(s) => Some(s),
            _ => None,
        },
        _ => None,
    }
}

/// The inner symbol of a `'sym` quoted-symbol datum.
fn quoted_symbol<'a>(datum: &Datum<'a>) -> (r: Option<&'a str>)
    ensures
        r == spec_quoted_symbol(*datum),
{
    if let DatumKind::Prefixed { prefix: Prefix::Quote, inner, .. } = &datum.kind {
        return inner.as_symbol();
    }
    None
}

/// Whether `s`'s bytes are `lit`'s.
fn is_name(s: &str, lit: &[u8]) -> (r: bool)
    ensures
        r == (s.spec_bytes() == lit@),
{
    bytes_equal(s.as_bytes(), lit)
}

/// `m` after classifying and setting each `(symbol, spec datum)` of `ins`
/// in order; a `nil` spec sets nothing.
pub open spec fn apply_inserts(
    m: Map<Seq<char>, IndentView>,
    ins: Seq<(Seq<char>, Datum)>,
    b: Seq<u8>,
) -> Map<Seq<char>, IndentView>
    decreases ins.len(),
{
    if ins.len() == 0 {
        m
    } else {
        let prev = apply_inserts(m, ins.drop_last(), b);
        match spec_indent_view(ins.last().1, b) {
            Some(v) => prev.insert(ins.last().0, v),
            None => prev,
        }
    }
}

/// The number of insertions of `ins` that set an entry (whose spec is not
/// `nil`).
pub open spec fn effective_inserts(ins: Seq<(Seq<char>, Datum)>, b: Seq<u8>) -> nat
    decreases ins.len(),
{
    if ins.len() == 0 {
        0
    } else {
        effective_inserts(ins.drop_last(), b) + if spec_indent_view(ins.last().1, b) is Some {
            1nat
        } else {
            0nat
        }
    }
}

/// The last insertion for a name decides its entry: when insertion `k` reads
/// as a spec and no later insertion is for the same name, the table maps the
/// name to that spec, whatever the table held before.
pub proof fn lemma_last_insert_wins(
    m: Map<Seq<char>, IndentView>,
    ins: Seq<(Seq<char>, Datum)>,
    b: Seq<u8>,
    k: int,
)
    requires
        0 <= k < ins.len(),
        spec_indent_view(ins[k].1, b) is Some,
        forall|j: int| k < j < ins.len() ==> (#[trigger] ins[j]).0 != ins[k].0,
    ensures
        apply_inserts(m, ins, b).contains_key(ins[k].0),
        apply_inserts(m, ins, b)[ins[k].0] == spec_indent_view(ins[k].1, b).unwrap(),
    decreases ins.len(),
{
    if k < ins.len() - 1 {
        let init = ins.drop_last();
        assert forall|j: int| k < j < init.len() implies (#[trigger] init[j]).0 != init[k].0 by {
            assert(init[j] == ins[j]);
        }
        lemma_last_insert_wins(m, init, b, k);
        assert(ins.last() == ins[ins.len() - 1]);
    }
}

/// Applying two runs of insertions is applying their concatenation.
proof fn lemma_apply_concat(m: Map<Seq<char>, IndentView>, s1: Seq<(Seq<char>, Datum)>, s2: Seq<(Seq<char>, Datum)>, b: Seq<u8>)
    ensures
        apply_inserts(m, s1 + s2, b) == apply_inserts(apply_inserts(m, s1, b), s2, b),
        effective_inserts(s1 + s2, b) == effective_inserts(s1, b) + effective_inserts(s2, b),
    decreases s2.len(),
{
    if s2.len() == 0 {
        assert(s1 + s2 =~= s1);
    } else {
        lemma_apply_concat(m, s1, s2.drop_last(), b);
        assert((s1 + s2).drop_last() =~= s1 + s2.drop_last());
        assert((s1 + s2).last() == s2.last());
    }
}

/// `u32 lisp-indent-function`, `lisp-indent-hook`, `put`, `function-put`,
/// `def`, `cl-def`, `declare` and `indent`, as bytes.
pub open spec fn lit_put() -> Seq<u8> {
    seq![112u8, 117, 116]
}

pub open spec fn lit_function_put() -> Seq<u8> {
    seq![102u8, 117, 110, 99, 116, 105, 111, 110, 45, 112, 117, 116]
}

pub open spec fn lit_lisp_indent_function() -> Seq<u8> {
    seq![108u8, 105, 115, 112, 45, 105, 110, 100, 101, 110, 116, 45, 102, 117, 110, 99, 116, 105, 111, 110]
}

pub open spec fn lit_lisp_indent_hook() -> Seq<u8> {
    seq![108u8, 105, 115, 112, 45, 105, 110, 100, 101, 110, 116, 45, 104, 111, 111, 107]
}

pub open spec fn lit_def() -> Seq<u8> {
    seq![100u8, 101, 102]
}

pub open spec fn lit_cl_def() -> Seq<u8> {
    seq![99u8, 108, 45, 100, 101, 102]
}

pub open spec fn lit_declare() -> Seq<u8> {
    seq![100u8, 101, 99, 108, 97, 114, 101]
}

pub open spec fn lit_indent() -> Seq<u8> {
    seq![105u8, 110, 100, 101, 110, 116]
}

/// The head symbol's bytes of a list datum, if any.
pub open spec fn head_bytes_of(d: Datum) -> Option<Seq<u8>> {
    match d.spec_head_symbol() {
        Some(h) => Some(h.spec_bytes()),
        None => None,
    }
}

/// The items of a list datum.
pub open spec fn items_of<'t>(d: Datum<'t>) -> Seq<Datum<'t>> {
    match d.kind {
        DatumKind::List { items, .. } => items@,
        _ => Seq::empty(),
    }
}

/// The insertion of a `(put 'SYM 'lisp-indent-function SPEC)` /
/// `(function-put …)` form headed `h` with items `items`.
pub open spec fn put_inserts<'t>(h: Seq<u8>, items: Seq<Datum<'t>>) -> Seq<(Seq<char>, Datum<'t>)> {
    if (h == lit_put() || h == lit_function_put()) && items.len() >= 4 {
        match (spec_quoted_symbol(items[1]), spec_quoted_symbol(items[2])) {
            (Some(sym), Some(prop)) => if prop.spec_bytes() == lit_lisp_indent_function()
                || prop.spec_bytes() == lit_lisp_indent_hook() {
                seq![(sym@, items[3])]
            } else {
                Seq::empty()
            },
            _ => Seq::empty(),
        }
    } else {
        Seq::empty()
    }
}

/// The `(indent SPEC)` clauses of a `declare` form's items from `c` on.
pub open spec fn clause_inserts<'t>(decl: Seq<Datum<'t>>, c: int, name: Seq<char>) -> Seq<(Seq<char>, Datum<'t>)>
    decreases decl.len() - c,
{
    if c < 0 || c >= decl.len() {
        Seq::empty()
    } else {
        (if head_bytes_of(decl[c]) == Some(lit_indent()) && items_of(decl[c]).len() > 1 {
            seq![(name, items_of(decl[c])[1])]
        } else {
            Seq::empty()
        }) + clause_inserts(decl, c + 1, name)
    }
}

/// The `(declare …)` forms' `(indent SPEC)` clauses among `items[i..]`.
pub open spec fn declare_scan<'t>(items: Seq<Datum<'t>>, i: int, name: Seq<char>) -> Seq<(Seq<char>, Datum<'t>)>
    decreases items.len() - i,
{
    if i < 0 || i >= items.len() {
        Seq::empty()
    } else {
        (if head_bytes_of(items[i]) == Some(lit_declare()) {
            clause_inserts(items_of(items[i]), 1, name)
        } else {
            Seq::empty()
        }) + declare_scan(items, i + 1, name)
    }
}

/// The insertions of a `(def… NAME … (declare … (indent SPEC) …) …)` form
/// headed `h` with items `items`.
pub open spec fn declare_inserts<'t>(h: Seq<u8>, items: Seq<Datum<'t>>) -> Seq<(Seq<char>, Datum<'t>)> {
    if (starts_with_at(h, 0, lit_def()) || starts_with_at(h, 0, lit_cl_def())) && items.len() >= 2 {
        match items[1].kind {
            DatumKind::Symbol(name) => declare_scan(items, 2, name@),
            _ => Seq::empty(),
        }
    } else {
        Seq::empty()
    }
}

/// The insertions `d` and the round lists nested in it supply, in
/// pre-order: a round list's own `put` and `declare` signals, then its
/// items'. A vector's content is data and supplies nothing.
pub open spec fn form_inserts<'t>(d: Datum<'t>) -> Seq<(Seq<char>, Datum<'t>)>
    decreases d, 1nat,
{
    match d.kind {
        DatumKind::List { delim: Delim::Round, items, .. } => {
            (match head_bytes_of(d) {
                Some(h) => put_inserts(h, items@) + declare_inserts(h, items@),
                None => Seq::empty(),
            }) + items_inserts(items@)
        },
        _ => Seq::empty(),
    }
}

/// The insertions of the data `s`, in order.
pub open spec fn items_inserts<'t>(s: Seq<Datum<'t>>) -> Seq<(Seq<char>, Datum<'t>)>
    decreases s, 0nat,
{
    if s.len() == 0 {
        Seq::empty()
    } else {
        items_inserts(s.drop_last()) + form_inserts(s.last())
    }
}

/// An `(indent SPEC)` clause at `c` of a `declare` form's items is among the
/// insertions of its clauses from any `c0` up to `c`.
proof fn lemma_clause_inserted<'t>(decl: Seq<Datum<'t>>, c0: int, c: int, name: Seq<char>)
    requires
        0 <= c0 <= c < decl.len(),
        head_bytes_of(decl[c]) == Some(lit_indent()),
        items_of(decl[c]).len() > 1,
    ensures
        clause_inserts(decl, c0, name).contains((name, items_of(decl[c])[1])),
    decreases c - c0,
{
    let e = (name, items_of(decl[c])[1]);
    let here: Seq<(Seq<char>, Datum<'t>)> = if head_bytes_of(decl[c0]) == Some(lit_indent()) && items_of(
        decl[c0],
    ).len() > 1 {
        seq![(name, items_of(decl[c0])[1])]
    } else {
        Seq::empty()
    };
    let rest = clause_inserts(decl, c0 + 1, name);
    assert(clause_inserts(decl, c0, name) == here + rest);
    if c0 == c {
        assert((here + rest)[0] == e);
    } else {
        lemma_clause_inserted(decl, c0 + 1, c, name);
        let k = choose|k: int| 0 <= k < rest.len() && rest[k] == e;
        assert((here + rest)[here.len() + k] == e);
    }
}

/// A `(declare … (indent SPEC) …)` item at `j` is among the insertions of
/// the declare scan from any `i` up to `j`.
proof fn lemma_declare_inserted<'t>(items: Seq<Datum<'t>>, i: int, j: int, c: int, name: Seq<char>)
    requires
        0 <= i <= j < items.len(),
        head_bytes_of(items[j]) == Some(lit_declare()),
        1 <= c < items_of(items[j]).len(),
        head_bytes_of(items_of(items[j])[c]) == Some(lit_indent()),
        items_of(items_of(items[j])[c]).len() > 1,
    ensures
        declare_scan(items, i, name).contains((name, items_of(items_of(items[j])[c])[1])),
    decreases j - i,
{
    let e = (name, items_of(items_of(items[j])[c])[1]);
    let here: Seq<(Seq<char>, Datum<'t>)> = if head_bytes_of(items[i]) == Some(lit_declare()) {
        clause_inserts(items_of(items[i]), 1, name)
    } else {
        Seq::empty()
    };
    let rest = declare_scan(items, i + 1, name);
    assert(declare_scan(items, i, name) == here + rest);
    if i == j {
        lemma_clause_inserted(items_of(items[j]), 1, c, name);
        let k = choose|k: int| 0 <= k < here.len() && here[k] == e;
        assert((here + rest)[k] == e);
    } else {
        lemma_declare_inserted(items, i + 1, j, c, name);
        let k = choose|k: int| 0 <= k < rest.len() && rest[k] == e;
        assert((here + rest)[here.len() + k] == e);
    }
}

/// A `cl-def…` form is harvested as a `def…` form is: whatever its items,
/// a head starting `cl-def` yields the insertions a head starting `def`
/// yields.
pub proof fn lemma_cl_def_like_def<'t>(cl: Seq<u8>, def: Seq<u8>, items: Seq<Datum<'t>>)
    requires
        starts_with_at(cl, 0, lit_cl_def()),
        starts_with_at(def, 0, lit_def()),
    ensures
        declare_inserts(cl, items) == declare_inserts(def, items),
{
}

/// In a round form `(def… NAME … (declare … (indent SPEC) …) …)` or
/// `(cl-def… NAME …)`, every `(indent SPEC)` clause of a `declare` item after
/// the name is harvested as NAME ↦ SPEC.
pub proof fn lemma_declare_indent_harvested<'t>(d: Datum<'t>, j: int, c: int)
    requires
        d.kind matches DatumKind::List { delim: Delim::Round, .. },
        head_bytes_of(d) matches Some(h) && (starts_with_at(h, 0, lit_def()) || starts_with_at(
            h,
            0,
            lit_cl_def(),
        )),
        items_of(d).len() >= 2,
        items_of(d)[1].kind is Symbol,
        2 <= j < items_of(d).len(),
        head_bytes_of(items_of(d)[j]) == Some(lit_declare()),
        1 <= c < items_of(items_of(d)[j]).len(),
        head_bytes_of(items_of(items_of(d)[j])[c]) == Some(lit_indent()),
        items_of(items_of(items_of(d)[j])[c]).len() > 1,
    ensures
        form_inserts(d).contains(
            (items_of(d)[1].kind->Symbol_0@, items_of(items_of(items_of(d)[j])[c])[1]),
        ),
{
    let items = items_of(d);
    let name = items[1].kind->Symbol_0@;
    let h = head_bytes_of(d).unwrap();
    let e = (name, items_of(items_of(items[j])[c])[1]);
    lemma_declare_inserted(items, 2, j, c, name);
    let di = declare_inserts(h, items);
    assert(di == declare_scan(items, 2, name));
    let pi = put_inserts(h, items);
    let ii = items_inserts(items);
    assert(form_inserts(d) == (pi + di) + ii);
    let k = choose|k: int| 0 <= k < di.len() && di[k] == e;
    assert(((pi + di) + ii)[pi.len() + k] == e);
}

/// A round form `(put 'SYM 'lisp-indent-function SPEC)`, or the same with
/// `function-put` or the older `lisp-indent-hook` property, is harvested as
/// SYM ↦ SPEC.
pub proof fn lemma_put_indent_harvested<'t>(d: Datum<'t>)
    requires
        d.kind matches DatumKind::List { delim: Delim::Round, .. },
        head_bytes_of(d) matches Some(h) && (h == lit_put() || h == lit_function_put()),
        items_of(d).len() >= 4,
        spec_quoted_symbol(items_of(d)[1]) is Some,
        spec_quoted_symbol(items_of(d)[2]) matches Some(prop) && (prop.spec_bytes()
            == lit_lisp_indent_function() || prop.spec_bytes() == lit_lisp_indent_hook()),
    ensures
        form_inserts(d).contains((spec_quoted_symbol(items_of(d)[1]).unwrap()@, items_of(d)[3])),
{
    let items = items_of(d);
    let h = head_bytes_of(d).unwrap();
    let e = (spec_quoted_symbol(items[1]).unwrap()@, items[3]);
    let pi = put_inserts(h, items);
    assert(pi == seq![e]);
    let di = declare_inserts(h, items);
    let ii = items_inserts(items);
    assert(form_inserts(d) == (pi + di) + ii);
    assert(((pi + di) + ii)[0] == e);
}

/// `x` capped at `usize::MAX`.
pub open spec fn saturated(x: int) -> int {
    if x > usize::MAX {
        usize::MAX as int
    } else {
        x
    }
}

/// Harvest indent specs from Emacs Lisp `source` into a fresh
/// [`IndentTable`]. For a many-file harvest, prefer
/// [`harvest_indent_specs_into`].
pub fn harvest_indent_specs(source: &str) -> (t: IndentTable)
    requires
        source.spec_bytes().len() < u32::MAX,
    ensures
        t.wf(),
        exists|data: Seq<Datum>|
            {
                &&& data_wf(data, source.spec_bytes())
                &&& shapes_of(data) == read_top(stream_of(source.spec_bytes(), Options::spec_emacs_lisp()), 0).data
                &&& table_view(t@) == apply_inserts(Map::empty(), items_inserts(data), source.spec_bytes())
            },
{
    let mut table = IndentTable::new();
    assert(table_view(table@) =~= Map::<Seq<char>, IndentView>::empty());
    harvest_indent_specs_into(source, &mut table);
    table
}

/// Harvest indent specs from Emacs Lisp `source` into an existing table,
/// so specs from many files accumulate into one merged table. Returns the
/// number of entries added or replaced (saturating).
///
/// Both signals are collected across the whole source, for definitions and
/// non-definitions alike:
/// - `(declare (indent SPEC))` inside a `def…`/`cl-def…` form → the form's
///   name;
/// - `(put 'SYM 'lisp-indent-function SPEC)` and the `function-put`
///   equivalent.
///
/// Vectors (`[…]`) and quoted data are never executed, so nothing inside
/// them is harvested.
pub fn harvest_indent_specs_into(source: &str, table: &mut IndentTable) -> (n: usize)
    requires
        source.spec_bytes().len() < u32::MAX,
        old(table).wf(),
    ensures
        final(table).wf(),
        exists|data: Seq<Datum>|
            {
                &&& data_wf(data, source.spec_bytes())
                &&& shapes_of(data) == read_top(stream_of(source.spec_bytes(), Options::spec_emacs_lisp()), 0).data
                &&& table_view(final(table)@) == apply_inserts(
                    table_view(old(table)@),
                    items_inserts(data),
                    source.spec_bytes(),
                )
                &&& n == saturated(effective_inserts(items_inserts(data), source.spec_bytes()) as int)
            },
{
    let parsed = parse(source, &Options::emacs_lisp());
    harvest_indent_forms(source, parsed.data.as_slice(), table)
}

/// Harvest indent specs from the forms `data` that the Emacs Lisp reader
/// read from `source` into `table`, as [`harvest_indent_specs_into`] does.
/// Returns the number of entries added or replaced (saturating).
pub fn harvest_indent_forms(source: &str, data: &[Datum], table: &mut IndentTable) -> (n: usize)
    requires
        data_wf(data@, source.spec_bytes()),
        old(table).wf(),
    ensures
        final(table).wf(),
        table_view(final(table)@) == apply_inserts(table_view(old(table)@), items_inserts(data@), source.spec_bytes()),
        n == saturated(effective_inserts(items_inserts(data@), source.spec_bytes()) as int),
{
    let ghost b = source.spec_bytes();
    let mut count: usize = 0;
    let mut i: usize = 0;
    proof {
        crate::reader::reveal_data_wf(data@, b);
    }
    assert(items_inserts(data@.take(0)) =~= Seq::<(Seq<char>, Datum)>::empty());
    while i < data.len()
        invariant
            i <= data.len(),
            forall|j: int| 0 <= j < data.len() ==> (#[trigger] data@[j]).wf(b),
            table.wf(),
            table_view(table@) == apply_inserts(table_view(old(table)@), items_inserts(data@.take(i as int)), b),
            count == saturated(effective_inserts(items_inserts(data@.take(i as int)), b) as int),
        decreases data.len() - i,
    {
        proof {
            assert(data@.take(i + 1).drop_last() =~= data@.take(i as int));
            assert(data@.take(i + 1).last() == data@[i as int]);
            lemma_apply_concat(
                table_view(old(table)@),
                items_inserts(data@.take(i as int)),
                form_inserts(data@[i as int]),
                b,
            );
        }
        harvest_form(source, &data[i], table, &mut count);
        i = i + 1;
    }
    assert(data@.take(data.len() as int) =~= data@);
    count
}

/// Insert a classified spec for `symbol`; a `nil` spec yields no entry.
fn insert_spec(source: &str, symbol: &str, spec: &Datum, table: &mut IndentTable, count: &mut usize)
    requires
        spec.wf(source.spec_bytes()),
        old(table).wf(),
    ensures
        final(table).wf(),
        table_view(final(table)@) == apply_inserts(
            table_view(old(table)@),
            seq![(symbol@, *spec)],
            source.spec_bytes(),
        ),
        *final(count) == saturated(
            *old(count) + effective_inserts(seq![(symbol@, *spec)], source.spec_bytes()),
        ),
{
    let ghost ins = seq![(symbol@, *spec)];
    let ghost b = source.spec_bytes();
    assert(ins.drop_last() =~= Seq::<(Seq<char>, Datum)>::empty());
    assert(ins.last() == (symbol@, *spec));
    assert(apply_inserts(table_view(old(table)@), ins.drop_last(), b) == table_view(old(table)@));
    assert(effective_inserts(ins.drop_last(), b) == 0);
    if let Some(classified) = indent_spec(source, spec) {
        let ghost before = table@;
        table.insert(symbol, classified);
        assert(table_view(table@) =~= table_view(before).insert(symbol@, indent_view(classified)));
        *count = count.saturating_add(1);
    }
}

/// Harvest from `form` and, recursively, the forms nested in it. Only round
/// lists are code: a vector's content is data.
fn harvest_form(source: &str, form: &Datum, table: &mut IndentTable, count: &mut usize)
    requires
        form.wf(source.spec_bytes()),
        old(table).wf(),
    ensures
        final(table).wf(),
        table_view(final(table)@) == apply_inserts(
            table_view(old(table)@),
            form_inserts(*form),
            source.spec_bytes(),
        ),
        *final(count) == saturated(*old(count) + effective_inserts(form_inserts(*form), source.spec_bytes())),
    decreases form,
{
    let ghost b = source.spec_bytes();
    let ghost m0 = table_view(table@);
    let ghost c0 = *count;
    if let DatumKind::List { delim: Delim::Round, items, .. } = &form.kind {
        let ghost own = match head_bytes_of(*form) {
            Some(h) => put_inserts(h, items@) + declare_inserts(h, items@),
            None => Seq::empty(),
        };
        if let Some(head) = form.head_symbol() {
            proof {
                lemma_apply_concat(m0, put_inserts(head.spec_bytes(), items@), declare_inserts(head.spec_bytes(), items@), b);
            }
            harvest_put(source, head, items.as_slice(), table, count);
            harvest_declare(source, head, items.as_slice(), table, count);
        } else {
            assert(own =~= Seq::<(Seq<char>, Datum)>::empty());
        }
        let ghost m1 = table_view(table@);
        assert(m1 == apply_inserts(m0, own, b));
        assert(*count == saturated(c0 + effective_inserts(own, b)));
        // Indent-affecting forms may be nested (`progn`, `eval-when-compile`…).
        let mut i: usize = 0;
        assert(items_inserts(items@.take(0)) =~= Seq::<(Seq<char>, Datum)>::empty());
        while i < items.len()
            invariant
                i <= items.len(),
                table.wf(),
                table_view(table@) == apply_inserts(m1, items_inserts(items@.take(i as int)), b),
                *count == saturated(c0 + effective_inserts(own, b) + effective_inserts(
                    items_inserts(items@.take(i as int)),
                    b,
                )),
            decreases items.len() - i,
        {
            proof {
                assert(decreases_to!(*form => items@[i as int]));
                assert(items@.take(i + 1).drop_last() =~= items@.take(i as int));
                assert(items@.take(i + 1).last() == items@[i as int]);
                lemma_apply_concat(m1, items_inserts(items@.take(i as int)), form_inserts(items@[i as int]), b);
            }
            harvest_form(source, &items[i], table, count);
            i = i + 1;
        }
        proof {
            assert(items@.take(items.len() as int) =~= items@);
            lemma_apply_concat(m0, own, items_inserts(items@), b);
        }
    } else {
        assert(form_inserts(*form) =~= Seq::<(Seq<char>, Datum)>::empty());
    }
}

/// A `(put 'SYM 'lisp-indent-function SPEC)` / `(function-put …)` form.
fn harvest_put(source: &str, head: &str, items: &[Datum], table: &mut IndentTable, count: &mut usize)
    requires
        forall|i: int| 0 <= i < items.len() ==> (#[trigger] items@[i]).wf(source.spec_bytes()),
        old(table).wf(),
    ensures
        final(table).wf(),
        table_view(final(table)@) == apply_inserts(
            table_view(old(table)@),
            put_inserts(head.spec_bytes(), items@),
            source.spec_bytes(),
        ),
        *final(count) == saturated(
            *old(count) + effective_inserts(put_inserts(head.spec_bytes(), items@), source.spec_bytes()),
        ),
{
    let put: [u8; 3] = [112, 117, 116];  // `put`
    let fput: [u8; 12] = [102, 117, 110, 99, 116, 105, 111, 110, 45, 112, 117, 116];  // `function-put`
    let lif: [u8; 20] = [108, 105, 115, 112, 45, 105, 110, 100, 101, 110, 116, 45, 102, 117, 110, 99, 116, 105, 111, 110];  // `lisp-indent-function`
    let lih: [u8; 16] = [108, 105, 115, 112, 45, 105, 110, 100, 101, 110, 116, 45, 104, 111, 111, 107];  // `lisp-indent-hook`
    assert(put@ =~= lit_put());
    assert(fput@ =~= lit_function_put());
    assert(lif@ =~= lit_lisp_indent_function());
    assert(lih@ =~= lit_lisp_indent_hook());
    let ghost none = Seq::<(Seq<char>, Datum)>::empty();
    if !(is_name(head, put.as_slice()) || is_name(head, fput.as_slice())) {
        return;
    }
    if items.len() < 4 {
        return;
    }
    let symbol = match quoted_symbol(&items[1]) {
        Some(s) => s,
        None => {
            return;
        },
    };
    let prop = match quoted_symbol(&items[2]) {
        Some(s) => s,
        None => {
            return;
        },
    };
    if !(is_name(prop, lif.as_slice()) || is_name(prop, lih.as_slice())) {
        return;
    }
    insert_spec(source, symbol, &items[3], table, count);
}

/// The `(indent SPEC)` clauses of a declare form's items `decl`, for `name`.
fn harvest_clauses(source: &str, name: &str, decl: &[Datum], table: &mut IndentTable, count: &mut usize)
    requires
        forall|j: int| 0 <= j < decl.len() ==> (#[trigger] decl@[j]).wf(source.spec_bytes()),
        old(table).wf(),
    ensures
        final(table).wf(),
        table_view(final(table)@) == apply_inserts(
            table_view(old(table)@),
            clause_inserts(decl@, 1, name@),
            source.spec_bytes(),
        ),
        *final(count) == saturated(
            *old(count) + effective_inserts(clause_inserts(decl@, 1, name@), source.spec_bytes()),
        ),
{
    let indent: [u8; 6] = [105, 110, 100, 101, 110, 116];  // `indent`
    assert(indent@ =~= lit_indent());
    let ghost b = source.spec_bytes();
    let ghost target = apply_inserts(table_view(old(table)@), clause_inserts(decl@, 1, name@), b);
    let ghost total = *old(count) + effective_inserts(clause_inserts(decl@, 1, name@), b);
    let mut c: usize = 1;
    if decl.len() == 0 {
        assert(clause_inserts(decl@, 1, name@) =~= Seq::<(Seq<char>, Datum)>::empty());
        return;
    }
    while c < decl.len()
        invariant
            1 <= c <= decl.len(),
            forall|j: int| 0 <= j < decl.len() ==> (#[trigger] decl@[j]).wf(b),
            b == source.spec_bytes(),
            indent@ == lit_indent(),
            table.wf(),
            apply_inserts(table_view(table@), clause_inserts(decl@, c as int, name@), b) == target,
            saturated(*count + effective_inserts(clause_inserts(decl@, c as int, name@), b)) == saturated(total),
        decreases decl.len() - c,
    {
        let ghost one = if head_bytes_of(decl@[c as int]) == Some(lit_indent()) && items_of(decl@[c as int]).len()
            > 1 {
            seq![(name@, items_of(decl@[c as int])[1])]
        } else {
            Seq::empty()
        };
        let ghost rest = clause_inserts(decl@, c + 1, name@);
        let ghost t0 = table_view(table@);
        let ghost k0 = *count;
        proof {
            lemma_apply_concat(t0, one, rest, b);
        }
        let clause = &decl[c];
        let is_indent = match clause.head_symbol() {
            Some(h) => is_name(h, indent.as_slice()),
            None => false,
        };
        let mut did = false;
        if is_indent {
            if let Some(ci) = clause.items() {
                if ci.len() > 1 {
                    proof {
                        assert(ci@[1].wf(b));
                    }
                    insert_spec(source, name, &ci[1], table, count);
                    did = true;
                }
            }
        }
        proof {
            if !did {
                assert(one =~= Seq::<(Seq<char>, Datum)>::empty());
                assert(apply_inserts(t0, one, b) == t0);
            }
        }
        c = c + 1;
    }
    assert(clause_inserts(decl@, c as int, name@) =~= Seq::<(Seq<char>, Datum)>::empty());
}

/// A `(def… NAME … (declare … (indent SPEC) …) …)` form.
fn harvest_declare(source: &str, head: &str, items: &[Datum], table: &mut IndentTable, count: &mut usize)
    requires
        forall|i: int| 0 <= i < items.len() ==> (#[trigger] items@[i]).wf(source.spec_bytes()),
        old(table).wf(),
    ensures
        final(table).wf(),
        table_view(final(table)@) == apply_inserts(
            table_view(old(table)@),
            declare_inserts(head.spec_bytes(), items@),
            source.spec_bytes(),
        ),
        *final(count) == saturated(
            *old(count) + effective_inserts(declare_inserts(head.spec_bytes(), items@), source.spec_bytes()),
        ),
{
    let def: [u8; 3] = [100, 101, 102];  // `def`
    let cldef: [u8; 6] = [99, 108, 45, 100, 101, 102];  // `cl-def`
    let declare: [u8; 7] = [100, 101, 99, 108, 97, 114, 101];  // `declare`
    assert(def@ =~= lit_def());
    assert(cldef@ =~= lit_cl_def());
    assert(declare@ =~= lit_declare());
    let ghost b = source.spec_bytes();
    let hb = head.as_bytes();
    if !(bytes_start_with(hb, 0, def.as_slice()) || bytes_start_with(hb, 0, cldef.as_slice())) {
        return;
    }
    if items.len() < 2 {
        return;
    }
    let name = match items[1].as_symbol() {
        Some(n) => n,
        None => {
            return;
        },
    };
    let ghost target = apply_inserts(table_view(old(table)@), declare_scan(items@, 2, name@), b);
    let ghost total = *old(count) + effective_inserts(declare_scan(items@, 2, name@), b);
    // Find a `(declare …)` among the form's items, then an `(indent SPEC)`.
    let mut i: usize = 2;
    while i < items.len()
        invariant
            2 <= i <= items.len(),
            forall|j: int| 0 <= j < items.len() ==> (#[trigger] items@[j]).wf(b),
            b == source.spec_bytes(),
            declare@ == lit_declare(),
            table.wf(),
            apply_inserts(table_view(table@), declare_scan(items@, i as int, name@), b) == target,
            saturated(*count + effective_inserts(declare_scan(items@, i as int, name@), b)) == saturated(total),
        decreases items.len() - i,
    {
        let ghost here = if head_bytes_of(items@[i as int]) == Some(lit_declare()) {
            clause_inserts(items_of(items@[i as int]), 1, name@)
        } else {
            Seq::empty()
        };
        let ghost rest = declare_scan(items@, i + 1, name@);
        let ghost t0 = table_view(table@);
        proof {
            lemma_apply_concat(t0, here, rest, b);
        }
        let item = &items[i];
        let is_declare = match item.head_symbol() {
            Some(h) => is_name(h, declare.as_slice()),
            None => false,
        };
        let mut did = false;
        if is_declare {
            if let Some(decl) = item.items() {
                proof {
                    assert(forall|j: int| 0 <= j < decl.len() ==> (#[trigger] decl@[j]).wf(b));
                    assert(decl@ == items_of(items@[i as int]));
                }
                harvest_clauses(source, name, decl, table, count);
                did = true;
            }
        }
        proof {
            if !did {
                assert(here =~= Seq::<(Seq<char>, Datum)>::empty());
                assert(apply_inserts(t0, here, b) == t0);
            }
        }
        i = i + 1;
    }
    assert(declare_scan(items@, i as int, name@) =~= Seq::<(Seq<char>, Datum)>::empty());
}

} // verus!
